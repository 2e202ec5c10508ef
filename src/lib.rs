//! Routing and peer-identity core of a mesh sidecar proxy.
//!
//! The library decides where an inbound request goes (a mesh peer reached
//! over mutual TLS, or the local control-plane agent), builds the outbound
//! URL, filters the forwarded headers, bounds the request body, checks the
//! application identity that a peer certificate carries, and relays response
//! bodies chunk by chunk through a small cursor.

pub mod identity;
pub mod relay;
pub mod route;
pub mod target;
pub mod text;

pub use identity::{
    app_id_matches, client_identity_pem, decode_octet_string, verify_response_security,
};
pub use relay::{relay_all, BodyBuffer, PullStep, StreamCursor};
pub use route::{
    agent_path, gateway_path, last_path_segment, mesh_url, outbound_headers, proxy_request,
    proxy_to_dstack_sock, rename_last_segment, Dispatch, AGENT_BODY_LIMIT, FIXED_DOMAIN_PREFIX,
    MESH_BODY_LIMIT, ROUTING_HEADER_PREFIX, UNIX_SOCKET_PREFIX,
};
pub use target::{
    extract_target_info, first_header_value, is_hex_id, parse_port, validate_connection_target,
    DstackRequest, ProxyError, TargetInfo, DEFAULT_PORT, TARGET_APP_HEADER, TARGET_INSTANCE_HEADER,
    TARGET_PORT_HEADER,
};
pub use text::{eq_ignore_ascii_case, has_prefix, port_decimal, trim_leading_slashes};
