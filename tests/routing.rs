use dstack_mesh::{
    agent_path, extract_target_info, gateway_path, mesh_url, outbound_headers, parse_port,
    port_decimal, proxy_request, proxy_to_dstack_sock, validate_connection_target, Dispatch,
    DstackRequest, ProxyError, TargetInfo, AGENT_BODY_LIMIT, MESH_BODY_LIMIT,
};

fn h(name: &str, value: &str) -> (String, String) {
    (name.to_string(), value.to_string())
}

fn request(method: &str, path: &str, query: Option<&str>, headers: Vec<(String, String)>) -> DstackRequest {
    DstackRequest::from_parts(
        method.to_string(),
        path.to_string(),
        query.map(|q| q.to_string()),
        headers,
    )
}

fn target(app: &str, instance: &str, port: u16) -> TargetInfo {
    TargetInfo { app_id: app.to_string(), instance_id: instance.to_string(), port }
}

#[test]
fn routing_headers_are_read_case_insensitively() {
    let r = request(
        "GET",
        "/x",
        None,
        vec![h("X-Dstack-Target-App", "abc123"), h("x-dstack-target-port", "8080"), h("x-dstack-target-app", "other")],
    );
    assert_eq!(r.target_app.as_deref(), Some("abc123"));
    assert_eq!(r.target_port.as_deref(), Some("8080"));
    assert_eq!(r.target_instance, None);
}

#[test]
fn no_target_header_gives_no_target() {
    let r = request("GET", "/v1/info", None, vec![h("accept", "*/*")]);
    assert!(extract_target_info(&r).is_none());
}

#[test]
fn target_defaults() {
    let r = request("GET", "/", None, vec![h("x-dstack-target-app", "abc123")]);
    let t = extract_target_info(&r).unwrap();
    assert_eq!(t.app_id, "abc123");
    assert_eq!(t.instance_id, "");
    assert_eq!(t.port, 443);
}

#[test]
fn blank_port_and_instance_still_resolve() {
    let r = request(
        "GET",
        "/",
        None,
        vec![h("x-dstack-target-app", "abc123"), h("x-dstack-target-port", "  "), h("x-dstack-target-instance", " ")],
    );
    let t = extract_target_info(&r).unwrap();
    assert_eq!(t.port, 443);
    assert_eq!(t.instance_id, " ");
    assert!(validate_connection_target(&t).is_ok());
}

#[test]
fn bad_port_falls_back_to_default() {
    for p in ["abc", "65536", "", "+", "-1", " 80", "80 "] {
        let r = request("GET", "/", None, vec![h("x-dstack-target-app", "a"), h("x-dstack-target-port", p)]);
        assert_eq!(extract_target_info(&r).unwrap().port, 443, "port text {p:?}");
    }
}

#[test]
fn port_parsing() {
    assert_eq!(parse_port("8080"), Some(8080));
    assert_eq!(parse_port("+80"), Some(80));
    assert_eq!(parse_port("0"), Some(0));
    assert_eq!(parse_port("00443"), Some(443));
    assert_eq!(parse_port("65535"), Some(65535));
    assert_eq!(parse_port("65536"), None);
    assert_eq!(parse_port("99999999999"), None);
    assert_eq!(parse_port(""), None);
    assert_eq!(parse_port("8o"), None);
}

#[test]
fn port_decimal_text() {
    assert_eq!(port_decimal(0), "0");
    assert_eq!(port_decimal(7), "7");
    assert_eq!(port_decimal(8080), "8080");
    assert_eq!(port_decimal(65535), "65535");
}

#[test]
fn empty_app_id_is_bad_request() {
    let r = request("GET", "/x", None, vec![h("x-dstack-target-app", "")]);
    assert!(extract_target_info(&r).is_some());
    let out = proxy_request(&r, "example.com", "unix:/run/agent.sock");
    assert_eq!(out.unwrap_err(), ProxyError::BadRequest);
    assert_eq!(ProxyError::BadRequest.status_code(), 400);
}

#[test]
fn status_codes() {
    assert_eq!(ProxyError::MethodNotAllowed.status_code(), 405);
    assert_eq!(ProxyError::PayloadTooLarge.status_code(), 413);
    assert_eq!(ProxyError::InternalServerError.status_code(), 500);
    assert_eq!(ProxyError::BadGateway.status_code(), 502);
}

#[test]
fn subdomain_mesh_url() {
    let r = request("GET", "/api/items", Some("a=1"), vec![h("x-dstack-target-app", "abc123"), h("x-dstack-target-port", "8080")]);
    match proxy_request(&r, "example.com", "unix:/run/agent.sock").unwrap() {
        Dispatch::Mesh { target, url, body_limit, .. } => {
            assert_eq!(url, "https://abc123-8080s.example.com/api/items?a=1");
            assert_eq!(target.app_id, "abc123");
            assert_eq!(body_limit, MESH_BODY_LIMIT);
        }
        other => panic!("unexpected {other:?}"),
    }
    let r = request("GET", "/", None, vec![h("x-dstack-target-app", "abc123"), h("x-dstack-target-port", "8080")]);
    match proxy_request(&r, "example.com", "unix:/run/agent.sock").unwrap() {
        Dispatch::Mesh { url, .. } => assert_eq!(url, "https://abc123-8080s.example.com/"),
        other => panic!("unexpected {other:?}"),
    }
}

#[test]
fn fixed_domain_mesh_url() {
    for (app, port) in [("abc123", "8080"), ("ffff", "1")] {
        let r = request("POST", "/api/items", Some("a=1"), vec![h("x-dstack-target-app", app), h("x-dstack-target-port", port)]);
        match proxy_request(&r, "fixed/foo.bar", "unix:/run/agent.sock").unwrap() {
            Dispatch::Mesh { url, .. } => assert_eq!(url, "https://foo.bar/api/items?a=1"),
            other => panic!("unexpected {other:?}"),
        }
    }
    assert_eq!(mesh_url("fixed/foo.bar/", &target("x", "", 1), "p"), "https://foo.bar/p");
}

#[test]
fn instance_replaces_app_in_subdomain() {
    assert_eq!(mesh_url("example.com", &target("abc123", "inst9", 8080), "p"), "https://inst9-8080s.example.com/p");
    assert_eq!(mesh_url("example.com//", &target("abc123", "", 443), "p"), "https://abc123-443s.example.com/p");
    assert_eq!(mesh_url("fixed/foo.bar", &target("abc123", "inst9", 8080), "p"), "https://foo.bar/p");
}

#[test]
fn invalid_method_is_refused() {
    let r = request("GE T", "/x", None, vec![h("x-dstack-target-app", "abc123")]);
    assert_eq!(proxy_request(&r, "example.com", "unix:/a").unwrap_err(), ProxyError::MethodNotAllowed);
    let r = request("", "/x", None, vec![]);
    assert_eq!(proxy_request(&r, "example.com", "unix:/a").unwrap_err(), ProxyError::MethodNotAllowed);
    let r = request("PURGE", "/x", None, vec![h("x-dstack-target-app", "abc123")]);
    assert!(proxy_request(&r, "example.com", "unix:/a").is_ok());
}

#[test]
fn agent_path_rewrites_last_segment() {
    assert_eq!(agent_path("/v1/info"), "v1/Info");
    assert_eq!(agent_path("/status"), "Status");
    assert_eq!(agent_path("//get_quote"), "GetQuote");
    assert_eq!(agent_path("/a/b/"), "a/b/");
    assert_eq!(agent_path(""), "");
}

#[test]
fn no_target_goes_to_local_agent() {
    let r = request("GET", "/v1/info", Some("x=1"), vec![]);
    match proxy_request(&r, "example.com", "unix:/var/run/agent.sock").unwrap() {
        Dispatch::Agent { url, socket, body_limit } => {
            assert_eq!(url, "http://localhost/v1/Info?x=1");
            assert_eq!(socket.as_deref(), Some("/var/run/agent.sock"));
            assert_eq!(body_limit, AGENT_BODY_LIMIT);
        }
        other => panic!("unexpected {other:?}"),
    }
    let r = request("POST", "/status", None, vec![]);
    match proxy_to_dstack_sock(&r, "example.com", "http://127.0.0.1:8090/").unwrap() {
        Dispatch::Agent { url, socket, .. } => {
            assert_eq!(url, "http://127.0.0.1:8090/Status");
            assert_eq!(socket, None);
        }
        other => panic!("unexpected {other:?}"),
    }
}

#[test]
fn gateway_path_is_answered_locally() {
    assert!(gateway_path("/gateway"));
    assert!(gateway_path("//GateWay"));
    assert!(!gateway_path("/gateway/x"));
    let r = request("GET", "/Gateway", None, vec![]);
    match proxy_request(&r, "example.com", "unix:/a").unwrap() {
        Dispatch::GatewayInfo { gateway_domain } => assert_eq!(gateway_domain, "example.com"),
        other => panic!("unexpected {other:?}"),
    }
}

#[test]
fn routing_headers_are_not_forwarded() {
    let hs = vec![
        h("x-dstack-target-app", "abc"),
        h("Accept", "a"),
        h("x-dstack-target-port", "1"),
        h("accept", "B"),
        h("Accept", "a"),
        h("x-dstack-target-other", "z"),
    ];
    let out = outbound_headers(&hs);
    assert_eq!(out, vec![h("Accept", "a"), h("accept", "B"), h("Accept", "a")]);
    let r = request("GET", "/", None, hs);
    match proxy_request(&r, "example.com", "unix:/a").unwrap() {
        Dispatch::Mesh { headers, .. } => assert_eq!(headers, out),
        other => panic!("unexpected {other:?}"),
    }
}
