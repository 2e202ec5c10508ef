use vstd::prelude::*;
use vstd::string::StringExecFns;

use crate::target::{
    extract_target_info, resolved, validate_connection_target, DstackRequest, ProxyError,
    TargetInfo,
};
use crate::text::{
    decimal, eq_ignore_ascii_case, has_prefix, port_decimal, same_ignoring_ascii_case,
    starts_with, strip_slashes, trim_leading_slashes,
};

verus! {

/// Prefix shared by the routing headers; such headers are never forwarded.
pub const ROUTING_HEADER_PREFIX: &'static str = "x-dstack-target-";

/// Gateway-domain prefix that selects one fixed host for all mesh traffic.
pub const FIXED_DOMAIN_PREFIX: &'static str = "fixed/";

/// Agent-address prefix that names a filesystem socket.
pub const UNIX_SOCKET_PREFIX: &'static str = "unix:";

/// Largest request body forwarded to a mesh peer, in bytes.
pub const MESH_BODY_LIMIT: usize = 104857600;

/// Largest request body forwarded to the local agent, in bytes.
pub const AGENT_BODY_LIMIT: usize = 1048576;

/// Where a request goes, decided before any byte is sent.
#[derive(Debug)]
pub enum Dispatch {
    /// Answered locally with the configured gateway domain.
    GatewayInfo { gateway_domain: String },
    /// Sent to the local agent, over `socket` when it is a filesystem socket.
    Agent { url: String, socket: Option<String>, body_limit: usize },
    /// Sent to a mesh peer over mutual TLS with the forwarded headers.
    Mesh { target: TargetInfo, url: String, headers: Vec<(String, String)>, body_limit: usize },
}

// ---------------------------------------------------------------- methods

/// A token character of HTTP: what a method name may be made of.
pub open spec fn is_token_char(c: char) -> bool {
    ||| ('0' <= c && c <= '9')
    ||| ('a' <= c && c <= 'z')
    ||| ('A' <= c && c <= 'Z')
    ||| c == '!' || c == '#' || c == '$' || c == '%' || c == '&' || c == '\''
    ||| c == '*' || c == '+' || c == '-' || c == '.' || c == '^' || c == '_'
    ||| c == '`' || c == '|' || c == '~'
}

/// A method name that the transport accepts: one or more token characters.
pub open spec fn valid_method(m: Seq<char>) -> bool {
    m.len() > 0 && forall|i: int| 0 <= i < m.len() ==> is_token_char(#[trigger] m[i])
}

/// Relies on reqwest::Method::from_bytes (http's `Method`): it accepts a
/// non-empty name whose every byte is an HTTP token character, and refuses
/// anything else. A character outside ASCII has only bytes above 0x7f in
/// UTF-8, none of which is a token character.
#[verifier::external_body]
fn method_accepted(m: &str) -> (r: bool)
    ensures
        r == valid_method(m@),
{
    reqwest::Method::from_bytes(m.as_bytes()).is_ok()
}

// ---------------------------------------------------------------- paths

/// `p` followed by `?query` when there is a query.
pub open spec fn with_query(p: Seq<char>, query: Option<String>) -> Seq<char> {
    match query {
        Some(q) => p + "?"@ + q@,
        None => p,
    }
}

/// The request path without leading slashes, with `?query` when there is one.
pub open spec fn full_path(path: Seq<char>, query: Option<String>) -> Seq<char> {
    with_query(strip_slashes(path), query)
}

fn append_query(p: String, query: &Option<String>) -> (r: String)
    ensures
        r@ == with_query(p@, *query),
{
    let mut r = p;
    match query {
        Some(q) => {
            r.append("?");
            r.append(q.as_str());
        },
        None => {},
    }
    r
}

/// Index of the last `'/'` in `s`, or -1 when there is none.
pub open spec fn last_slash(s: Seq<char>) -> int
    decreases s.len(),
{
    if s.len() == 0 {
        -1
    } else if s.last() == '/' {
        s.len() - 1
    } else {
        last_slash(s.drop_last())
    }
}

/// The text after the last `'/'` of `s` (all of `s` when it has none).
pub open spec fn last_segment(s: Seq<char>) -> Seq<char> {
    s.skip(last_slash(s) + 1)
}

/// The text up to and with the last `'/'` of `s` (empty when it has none).
pub open spec fn segment_parent(s: Seq<char>) -> Seq<char> {
    s.take(last_slash(s) + 1)
}

proof fn lemma_last_slash(s: Seq<char>)
    ensures
        -1 <= last_slash(s) < s.len(),
        last_slash(s) >= 0 ==> s[last_slash(s)] == '/',
        forall|i: int| last_slash(s) < i < s.len() ==> s[i] != '/',
    decreases s.len(),
{
    if s.len() > 0 && s.last() != '/' {
        lemma_last_slash(s.drop_last());
        assert forall|i: int| last_slash(s) < i < s.len() implies s[i] != '/' by {
            if i < s.len() - 1 {
                assert(s[i] == s.drop_last()[i]);
            }
        }
    }
}

proof fn lemma_last_slash_exact(s: Seq<char>, k: int)
    requires
        -1 <= k < s.len(),
        k >= 0 ==> s[k] == '/',
        forall|i: int| k < i < s.len() ==> s[i] != '/',
    ensures
        last_slash(s) == k,
    decreases s.len(),
{
    if s.len() > 0 && k < s.len() - 1 {
        lemma_last_slash_exact(s.drop_last(), k);
    }
}

fn find_last_slash(s: &str) -> (r: usize)
    ensures
        r == last_slash(s@) + 1,
{
    let n = s.unicode_len();
    let mut k: usize = n;
    while k > 0 && s.get_char(k - 1) != '/'
        invariant
            k <= n,
            n == s@.len(),
            forall|i: int| k <= i < n ==> s@[i] != '/',
        decreases k,
    {
        k = k - 1;
    }
    proof {
        lemma_last_slash_exact(s@, k - 1);
    }
    k
}

/// The last `/`-separated segment of `path` once its leading slashes are
/// dropped: the part of the agent path whose case is rewritten.
pub fn last_path_segment(path: &str) -> (r: &str)
    ensures
        r@ == last_segment(strip_slashes(path@)),
{
    let p = trim_leading_slashes(path);
    let k = find_last_slash(p);
    proof {
        lemma_last_slash(p@);
    }
    p.substring_char(k, p.unicode_len())
}

/// The agent path: `path` without leading slashes and with its last segment
/// replaced by `cased_last`.
pub fn rename_last_segment(path: &str, cased_last: &str) -> (r: String)
    ensures
        r@ == segment_parent(strip_slashes(path@)) + cased_last@,
{
    let p = trim_leading_slashes(path);
    let k = find_last_slash(p);
    proof {
        lemma_last_slash(p@);
    }
    let mut r = String::from_str(p.substring_char(0, k));
    r.append(cased_last);
    r
}

/// What heck's upper-camel-case conversion makes of a text.
pub uninterp spec fn pascal_case_of(s: Seq<char>) -> Seq<char>;

/// Relies on heck's `ToPascalCase::to_pascal_case`: its result depends on
/// the text alone, and the empty text has no words, so it stays empty.
#[verifier::external_body]
fn to_pascal_case(s: &str) -> (r: String)
    ensures
        r@ == pascal_case_of(s@),
        s@.len() == 0 ==> r@.len() == 0,
{
    heck::ToPascalCase::to_pascal_case(s)
}

/// The path that the local agent is asked for: `path` without leading
/// slashes, with its last segment in upper camel case (`v1/info` becomes
/// `v1/Info`).
pub open spec fn agent_path_of(path: Seq<char>) -> Seq<char> {
    segment_parent(strip_slashes(path)) + pascal_case_of(last_segment(strip_slashes(path)))
}

/// Rewrites a request path for the local agent, as `agent_path_of` says.
pub fn agent_path(path: &str) -> (r: String)
    ensures
        r@ == agent_path_of(path@),
{
    let cased = to_pascal_case(last_path_segment(path));
    rename_last_segment(path, cased.as_str())
}

/// A path that asks for the gateway domain rather than the agent.
pub open spec fn is_gateway_path(path: Seq<char>) -> bool {
    same_ignoring_ascii_case(strip_slashes(path), "gateway"@)
}

/// Whether `path` asks for the gateway domain (`gateway` in any ASCII case,
/// after its leading slashes).
pub fn gateway_path(path: &str) -> (r: bool)
    ensures
        r == is_gateway_path(path@),
{
    eq_ignore_ascii_case(trim_leading_slashes(path), "gateway")
}

// ---------------------------------------------------------------- URLs

/// Number of `'/'` characters at the end of `s`.
pub open spec fn trailing_slashes(s: Seq<char>) -> nat
    decreases s.len(),
{
    if s.len() > 0 && s.last() == '/' {
        1 + trailing_slashes(s.drop_last())
    } else {
        0
    }
}

/// `s` without its trailing `'/'` characters.
pub open spec fn strip_trailing_slashes(s: Seq<char>) -> Seq<char> {
    s.take(s.len() - trailing_slashes(s))
}

proof fn lemma_trailing_slashes_exact(s: Seq<char>, k: int)
    requires
        0 <= k <= s.len(),
        forall|i: int| k <= i < s.len() ==> s[i] == '/',
        k == 0 || s[k - 1] != '/',
    ensures
        trailing_slashes(s) == s.len() - k,
    decreases s.len(),
{
    if s.len() > k {
        lemma_trailing_slashes_exact(s.drop_last(), k);
    }
}

fn trim_trailing_slashes(s: &str) -> (r: &str)
    ensures
        r@ == strip_trailing_slashes(s@),
{
    let n = s.unicode_len();
    let mut k: usize = n;
    while k > 0 && s.get_char(k - 1) == '/'
        invariant
            k <= n,
            n == s@.len(),
            forall|i: int| k <= i < n ==> s@[i] == '/',
        decreases k,
    {
        k = k - 1;
    }
    proof {
        lemma_trailing_slashes_exact(s@, k as int);
    }
    s.substring_char(0, k)
}

/// The name that picks a peer's subdomain: the instance id when there is
/// one, else the application id.
pub open spec fn subdomain_id(t: TargetInfo) -> Seq<char> {
    if t.instance_id@.len() == 0 {
        t.app_id@
    } else {
        t.instance_id@
    }
}

/// The URL of a mesh peer. A gateway domain `fixed/<domain>` sends all
/// traffic to `<domain>`; any other gives each peer the host
/// `<id>-<port>s.<gateway domain>`. Trailing slashes of the gateway domain
/// are dropped first.
pub open spec fn mesh_url_of(gateway_domain: Seq<char>, t: TargetInfo, full: Seq<char>) -> Seq<char> {
    let g = strip_trailing_slashes(gateway_domain);
    if starts_with(g, FIXED_DOMAIN_PREFIX@) {
        "https://"@ + g.skip(FIXED_DOMAIN_PREFIX@.len() as int) + "/"@ + full
    } else {
        "https://"@ + subdomain_id(t) + "-"@ + decimal(t.port as nat) + "s."@ + g + "/"@ + full
    }
}

/// Builds the URL of a mesh peer for a path that already carries its query.
pub fn mesh_url(gateway_domain: &str, target: &TargetInfo, full: &str) -> (r: String)
    ensures
        r@ == mesh_url_of(gateway_domain@, *target, full@),
{
    let g = trim_trailing_slashes(gateway_domain);
    let mut r = String::from_str("https://");
    if has_prefix(g, FIXED_DOMAIN_PREFIX) {
        r.append(g.substring_char(FIXED_DOMAIN_PREFIX.unicode_len(), g.unicode_len()));
    } else {
        if target.instance_id.unicode_len() == 0 {
            r.append(target.app_id.as_str());
        } else {
            r.append(target.instance_id.as_str());
        }
        r.append("-");
        let port = port_decimal(target.port);
        r.append(port.as_str());
        r.append("s.");
        r.append(g);
    }
    r.append("/");
    r.append(full);
    r
}

/// The URL that the local agent is reached at. A `unix:<socket>` address is
/// reached as `http://localhost/<path>` over that socket; any other address
/// is the base URL that the path is joined to.
pub open spec fn agent_url_of(address: Seq<char>, full: Seq<char>) -> Seq<char> {
    if starts_with(address, UNIX_SOCKET_PREFIX@) {
        "http://localhost/"@ + full
    } else {
        strip_trailing_slashes(address) + "/"@ + full
    }
}

/// The filesystem socket named by an agent address, if it names one.
pub open spec fn agent_socket_of(address: Seq<char>) -> Option<Seq<char>> {
    if starts_with(address, UNIX_SOCKET_PREFIX@) {
        Some(address.skip(UNIX_SOCKET_PREFIX@.len() as int))
    } else {
        None
    }
}

// ---------------------------------------------------------------- headers

/// A header that carries routing intent.
pub open spec fn is_routing_header(name: Seq<char>) -> bool {
    starts_with(name, ROUTING_HEADER_PREFIX@)
}

/// The headers forwarded to a mesh peer: all but the routing headers, in
/// their order, duplicates kept.
pub open spec fn forwarded_headers(hs: Seq<(String, String)>) -> Seq<(String, String)> {
    hs.filter(|h: (String, String)| !is_routing_header(h.0@))
}

/// Copies the headers that are forwarded to a mesh peer.
pub fn outbound_headers(headers: &Vec<(String, String)>) -> (r: Vec<(String, String)>)
    ensures
        r@ == forwarded_headers(headers@),
{
    let mut out: Vec<(String, String)> = Vec::new();
    let mut i: usize = 0;
    while i < headers.len()
        invariant
            i <= headers@.len(),
            out@ == forwarded_headers(headers@.take(i as int)),
        decreases headers@.len() - i,
    {
        proof {
            assert(headers@.take(i + 1).drop_last() =~= headers@.take(i as int));
            reveal(Seq::filter);
        }
        if !has_prefix(headers[i].0.as_str(), ROUTING_HEADER_PREFIX) {
            out.push((headers[i].0.clone(), headers[i].1.clone()));
        }
        i = i + 1;
    }
    assert(headers@.take(i as int) =~= headers@);
    out
}

/// Routing headers never reach a mesh peer; every other header does, in
/// the order it came and as often as it came.
pub proof fn lemma_forwarded_headers(hs: Seq<(String, String)>)
    ensures
        forall|i: int|
            0 <= i < forwarded_headers(hs).len() ==> !is_routing_header(
                (#[trigger] forwarded_headers(hs)[i]).0@,
            ),
        forall|h: (String, String)|
            hs.contains(h) && !is_routing_header(h.0@) ==> #[trigger] forwarded_headers(
                hs,
            ).contains(h),
        forall|a: Seq<(String, String)>, b: Seq<(String, String)>|
            #[trigger] forwarded_headers(a + b) == forwarded_headers(a) + forwarded_headers(b),
{
    let p = |h: (String, String)| !is_routing_header(h.0@);
    hs.filter_lemma(p);
    assert forall|a: Seq<(String, String)>, b: Seq<(String, String)>|
        #[trigger] forwarded_headers(a + b) == forwarded_headers(a) + forwarded_headers(b) by {
        Seq::filter_distributes_over_add(a, b, p);
    }
    assert forall|h: (String, String)|
        hs.contains(h) && !is_routing_header(h.0@) implies #[trigger] forwarded_headers(hs).contains(h) by {
        let k = choose|k: int| 0 <= k < hs.len() && hs[k] == h;
        hs.lemma_filter_contains(p, k);
    }
}

fn agent_destination(address: &str, full: &str) -> (r: (String, Option<String>))
    ensures
        r.0@ == agent_url_of(address@, full@),
        match r.1 {
            Some(sock) => agent_socket_of(address@) == Some(sock@),
            None => agent_socket_of(address@) is None,
        },
{
    if has_prefix(address, UNIX_SOCKET_PREFIX) {
        let mut url = String::from_str("http://localhost/");
        url.append(full);
        let sock = String::from_str(
            address.substring_char(UNIX_SOCKET_PREFIX.unicode_len(), address.unicode_len()),
        );
        (url, Some(sock))
    } else {
        let mut url = String::from_str(trim_trailing_slashes(address));
        url.append("/");
        url.append(full);
        (url, None)
    }
}

// ---------------------------------------------------------------- dispatch

/// What a request without a target gets: the gateway domain for the gateway
/// path; a refusal for a method the transport does not accept; else a call
/// to the local agent with the rewritten path and the agent's body limit.
pub open spec fn agent_outcome(
    req: DstackRequest,
    gateway_domain: Seq<char>,
    address: Seq<char>,
    r: Result<Dispatch, ProxyError>,
) -> bool {
    if is_gateway_path(req.path@) {
        r matches Ok(Dispatch::GatewayInfo { gateway_domain: d }) && d@ == gateway_domain
    } else if !valid_method(req.method@) {
        r matches Err(e) && e == ProxyError::MethodNotAllowed
    } else {
        &&& r matches Ok(Dispatch::Agent { url, socket, body_limit })
        &&& url@ == agent_url_of(address, with_query(agent_path_of(req.path@), req.query_string))
        &&& match socket {
            Some(sock) => agent_socket_of(address) == Some(sock@),
            None => agent_socket_of(address) is None,
        }
        &&& body_limit == AGENT_BODY_LIMIT
    }
}

/// What a request with a target gets: a refusal for an empty application id,
/// then for a method the transport does not accept; else a call to the mesh
/// peer that the routing headers name, with the forwarded headers and the
/// mesh body limit.
pub open spec fn mesh_outcome(
    req: DstackRequest,
    gateway_domain: Seq<char>,
    r: Result<Dispatch, ProxyError>,
) -> bool {
    let app = req.target_app->Some_0;
    if app@.len() == 0 {
        r matches Err(e) && e == ProxyError::BadRequest
    } else if !valid_method(req.method@) {
        r matches Err(e) && e == ProxyError::MethodNotAllowed
    } else {
        &&& r matches Ok(Dispatch::Mesh { target, url, headers, body_limit })
        &&& resolved(req, target)
        &&& url@ == mesh_url_of(gateway_domain, target, full_path(req.path@, req.query_string))
        &&& headers@ == forwarded_headers(req.all_headers@)
        &&& body_limit == MESH_BODY_LIMIT
    }
}

/// How a request is routed: to the mesh when it names a target, else
/// locally.
pub open spec fn routed(
    req: DstackRequest,
    gateway_domain: Seq<char>,
    address: Seq<char>,
    r: Result<Dispatch, ProxyError>,
) -> bool {
    if req.target_app is None {
        agent_outcome(req, gateway_domain, address, r)
    } else {
        mesh_outcome(req, gateway_domain, r)
    }
}

/// Routes a request that names no target: answers the gateway path locally,
/// else plans the call to the local agent at `agent_address`.
pub fn proxy_to_dstack_sock(
    request: &DstackRequest,
    gateway_domain: &str,
    agent_address: &str,
) -> (r: Result<Dispatch, ProxyError>)
    ensures
        agent_outcome(*request, gateway_domain@, agent_address@, r),
{
    if gateway_path(request.path.as_str()) {
        return Ok(Dispatch::GatewayInfo { gateway_domain: String::from_str(gateway_domain) });
    }
    let full = append_query(agent_path(request.path.as_str()), &request.query_string);
    let (url, socket) = agent_destination(agent_address, full.as_str());
    if !method_accepted(request.method.as_str()) {
        return Err(ProxyError::MethodNotAllowed);
    }
    Ok(Dispatch::Agent { url, socket, body_limit: AGENT_BODY_LIMIT })
}

/// Routes a request: to the mesh peer its routing headers name, or, when
/// it names none, as `proxy_to_dstack_sock` does.
pub fn proxy_request(
    request: &DstackRequest,
    gateway_domain: &str,
    agent_address: &str,
) -> (r: Result<Dispatch, ProxyError>)
    ensures
        routed(*request, gateway_domain@, agent_address@, r),
{
    let target = match extract_target_info(request) {
        Some(t) => t,
        None => return proxy_to_dstack_sock(request, gateway_domain, agent_address),
    };
    validate_connection_target(&target)?;
    let full = append_query(
        String::from_str(trim_leading_slashes(request.path.as_str())),
        &request.query_string,
    );
    let url = mesh_url(gateway_domain, &target, full.as_str());
    if !method_accepted(request.method.as_str()) {
        return Err(ProxyError::MethodNotAllowed);
    }
    let headers = outbound_headers(&request.all_headers);
    Ok(Dispatch::Mesh { target, url, headers, body_limit: MESH_BODY_LIMIT })
}

/// A request that names no target application never reaches a mesh peer:
/// it gets the gateway domain, a call to the local agent with its last path
/// segment in upper camel case, or a refusal.
pub proof fn lemma_no_target_stays_local(
    req: DstackRequest,
    gateway_domain: Seq<char>,
    address: Seq<char>,
    r: Result<Dispatch, ProxyError>,
)
    requires
        routed(req, gateway_domain, address, r),
        req.target_app is None,
    ensures
        !(r matches Ok(Dispatch::Mesh { .. })),
        r matches Ok(Dispatch::GatewayInfo { .. }) <==> is_gateway_path(req.path@),
        r matches Ok(Dispatch::Agent { url, .. }) ==> url@ == agent_url_of(
            address,
            with_query(
                segment_parent(strip_slashes(req.path@)) + pascal_case_of(
                    last_segment(strip_slashes(req.path@)),
                ),
                req.query_string,
            ),
        ),
{
}

/// Under a `fixed/` gateway domain every target reaches the same URL.
pub proof fn lemma_fixed_domain_ignores_target(
    gateway_domain: Seq<char>,
    a: TargetInfo,
    b: TargetInfo,
    full: Seq<char>,
)
    requires
        starts_with(strip_trailing_slashes(gateway_domain), FIXED_DOMAIN_PREFIX@),
    ensures
        mesh_url_of(gateway_domain, a, full) == mesh_url_of(gateway_domain, b, full),
        mesh_url_of(gateway_domain, a, full) == "https://"@ + strip_trailing_slashes(
            gateway_domain,
        ).skip(FIXED_DOMAIN_PREFIX@.len() as int) + "/"@ + full,
{
}

/// Under a per-peer gateway domain a non-empty instance id names the
/// subdomain in place of the application id.
pub proof fn lemma_instance_picks_subdomain(
    gateway_domain: Seq<char>,
    t: TargetInfo,
    full: Seq<char>,
)
    requires
        !starts_with(strip_trailing_slashes(gateway_domain), FIXED_DOMAIN_PREFIX@),
    ensures
        mesh_url_of(gateway_domain, t, full) == "https://"@ + (if t.instance_id@.len() > 0 {
            t.instance_id@
        } else {
            t.app_id@
        }) + "-"@ + decimal(t.port as nat) + "s."@ + strip_trailing_slashes(gateway_domain) + "/"@
            + full,
{
}

} // verus!
