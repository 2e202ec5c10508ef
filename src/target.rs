use vstd::prelude::*;

use crate::text::{eq_ignore_ascii_case, same_ignoring_ascii_case};

verus! {

/// Header naming the application a request is meant for.
pub const TARGET_APP_HEADER: &'static str = "x-dstack-target-app";

/// Header naming the service port of the target application.
pub const TARGET_PORT_HEADER: &'static str = "x-dstack-target-port";

/// Header naming one instance of the target application.
pub const TARGET_INSTANCE_HEADER: &'static str = "x-dstack-target-instance";

/// Port used when no valid target port is given.
pub const DEFAULT_PORT: u16 = 443;

/// Why a request is refused; each reason has one HTTP status.
#[derive(PartialEq, Eq, Structural, Clone, Copy, Debug)]
pub enum ProxyError {
    BadRequest,
    MethodNotAllowed,
    PayloadTooLarge,
    InternalServerError,
    BadGateway,
}

impl ProxyError {
    pub open spec fn spec_status_code(self) -> u16 {
        match self {
            ProxyError::BadRequest => 400,
            ProxyError::MethodNotAllowed => 405,
            ProxyError::PayloadTooLarge => 413,
            ProxyError::InternalServerError => 500,
            ProxyError::BadGateway => 502,
        }
    }

    /// The HTTP status code that answers the caller.
    pub fn status_code(&self) -> (r: u16)
        ensures
            r == self.spec_status_code(),
    {
        match self {
            ProxyError::BadRequest => 400,
            ProxyError::MethodNotAllowed => 405,
            ProxyError::PayloadTooLarge => 413,
            ProxyError::InternalServerError => 500,
            ProxyError::BadGateway => 502,
        }
    }
}

/// The peer a request is routed to.
#[derive(Clone, Debug)]
pub struct TargetInfo {
    pub app_id: String,
    pub instance_id: String,
    pub port: u16,
}

/// An inbound request as the router sees it.
#[derive(Clone, Debug)]
pub struct DstackRequest {
    pub target_app: Option<String>,
    pub target_port: Option<String>,
    pub target_instance: Option<String>,
    pub all_headers: Vec<(String, String)>,
    pub query_string: Option<String>,
    pub path: String,
    pub method: String,
}

/// The first value of header `name` in `hs`, names compared without ASCII case.
pub open spec fn first_header(hs: Seq<(String, String)>, name: Seq<char>) -> Option<String>
    decreases hs.len(),
{
    if hs.len() == 0 {
        None
    } else if same_ignoring_ascii_case(hs[0].0@, name) {
        Some(hs[0].1)
    } else {
        first_header(hs.drop_first(), name)
    }
}

/// The value of a run of decimal digits.
pub open spec fn digits_value(s: Seq<char>) -> nat
    decreases s.len(),
{
    if s.len() == 0 {
        0
    } else {
        digits_value(s.drop_last()) * 10 + ((s.last() as u32) - ('0' as u32)) as nat
    }
}

pub open spec fn is_digit(c: char) -> bool {
    '0' <= c && c <= '9'
}

pub open spec fn all_digits(s: Seq<char>) -> bool {
    forall|i: int| 0 <= i < s.len() ==> is_digit(#[trigger] s[i])
}

/// The digits of a port text: an optional leading `'+'` is dropped.
pub open spec fn port_digits(s: Seq<char>) -> Seq<char> {
    if s.len() > 0 && s[0] == '+' {
        s.drop_first()
    } else {
        s
    }
}

/// A port text read as an unsigned 16-bit decimal number: an optional `'+'`,
/// then one or more digits, with a value that fits.
pub open spec fn parsed_port(s: Seq<char>) -> Option<u16> {
    let d = port_digits(s);
    if d.len() > 0 && all_digits(d) && digits_value(d) <= 65535 {
        Some(digits_value(d) as u16)
    } else {
        None
    }
}

/// The port a target-port header selects: its value when it reads as a port,
/// else the default.
pub open spec fn port_choice(h: Option<String>) -> u16 {
    match h {
        Some(v) => match parsed_port(v@) {
            Some(p) => p,
            None => DEFAULT_PORT,
        },
        None => DEFAULT_PORT,
    }
}

/// The target that the routing headers of `req` name, if any.
pub open spec fn resolved(req: DstackRequest, t: TargetInfo) -> bool {
    &&& req.target_app matches Some(app) && t.app_id@ == app@
    &&& t.port == port_choice(req.target_port)
    &&& t.instance_id@ == match req.target_instance {
        Some(i) => i@,
        None => Seq::<char>::empty(),
    }
}

pub open spec fn is_hex_digit(c: char) -> bool {
    ('0' <= c && c <= '9') || ('a' <= c && c <= 'f') || ('A' <= c && c <= 'F')
}

proof fn lemma_digits_value_prefix(s: Seq<char>, i: int)
    requires
        0 <= i < s.len(),
    ensures
        digits_value(s.subrange(0, i + 1)) == digits_value(s.subrange(0, i)) * 10 + ((s[i] as u32)
            - ('0' as u32)) as nat,
{
    let p = s.subrange(0, i + 1);
    assert(p.drop_last() =~= s.subrange(0, i));
}

proof fn lemma_digits_value_grows(s: Seq<char>, i: int)
    requires
        0 <= i <= s.len(),
        all_digits(s),
    ensures
        digits_value(s.subrange(0, i)) <= digits_value(s),
    decreases s.len() - i,
{
    if i < s.len() {
        lemma_digits_value_prefix(s, i);
        lemma_digits_value_grows(s, i + 1);
    } else {
        assert(s.subrange(0, i) =~= s);
    }
}

/// Reads a port text as `parsed_port` describes.
pub fn parse_port(s: &str) -> (r: Option<u16>)
    ensures
        r == parsed_port(s@),
{
    let n = s.unicode_len();
    let mut i: usize = 0;
    if n > 0 && s.get_char(0) == '+' {
        i = 1;
    }
    let start = i;
    let ghost d = port_digits(s@);
    assert(d =~= s@.subrange(start as int, n as int));
    if start == n {
        return None;
    }
    let mut value: u32 = 0;
    while i < n
        invariant
            start <= i <= n,
            n == s@.len(),
            d == s@.subrange(start as int, n as int),
            d == port_digits(s@),
            forall|j: int| 0 <= j < i - start ==> is_digit(#[trigger] d[j]),
            value as nat == digits_value(d.subrange(0, i - start)),
            value <= 65535,
        decreases n - i,
    {
        let c = s.get_char(i);
        assert(d[i - start] == c);
        if !('0' <= c && c <= '9') {
            assert(!is_digit(d[i - start]));
            assert(!all_digits(d));
            return None;
        }
        proof {
            lemma_digits_value_prefix(d, i - start);
        }
        value = value * 10 + ((c as u32) - ('0' as u32));
        i = i + 1;
        if value > 65535 {
            proof {
                if all_digits(d) {
                    lemma_digits_value_grows(d, i - start);
                }
            }
            return None;
        }
    }
    assert(d.subrange(0, n - start) =~= d);
    Some(value as u16)
}

/// The first value of header `name` among `headers`, names compared without
/// ASCII case.
pub fn first_header_value(headers: &Vec<(String, String)>, name: &str) -> (r: Option<String>)
    ensures
        r == first_header(headers@, name@),
{
    let mut i: usize = 0;
    assert(headers@.skip(0) =~= headers@);
    while i < headers.len()
        invariant
            i <= headers@.len(),
            first_header(headers@, name@) == first_header(headers@.skip(i as int), name@),
        decreases headers@.len() - i,
    {
        let ghost rest = headers@.skip(i as int);
        assert(rest.drop_first() =~= headers@.skip(i + 1));
        if eq_ignore_ascii_case(headers[i].0.as_str(), name) {
            return Some(headers[i].1.clone());
        }
        i = i + 1;
    }
    None
}

impl DstackRequest {
    /// Builds a request from its method, path, query and headers; the three
    /// routing headers are read from `all_headers`.
    pub fn from_parts(
        method: String,
        path: String,
        query_string: Option<String>,
        all_headers: Vec<(String, String)>,
    ) -> (r: DstackRequest)
        ensures
            r.method == method,
            r.path == path,
            r.query_string == query_string,
            r.all_headers == all_headers,
            r.target_app == first_header(all_headers@, TARGET_APP_HEADER@),
            r.target_port == first_header(all_headers@, TARGET_PORT_HEADER@),
            r.target_instance == first_header(all_headers@, TARGET_INSTANCE_HEADER@),
    {
        let target_app = first_header_value(&all_headers, TARGET_APP_HEADER);
        let target_port = first_header_value(&all_headers, TARGET_PORT_HEADER);
        let target_instance = first_header_value(&all_headers, TARGET_INSTANCE_HEADER);
        DstackRequest {
            target_app,
            target_port,
            target_instance,
            all_headers,
            query_string,
            path,
            method,
        }
    }
}

/// The target named by the routing headers: `None` exactly when the
/// target-application header is absent. A port that does not read as a
/// number falls back to the default, as does a missing one.
pub fn extract_target_info(request: &DstackRequest) -> (r: Option<TargetInfo>)
    ensures
        r is None <==> request.target_app is None,
        r matches Some(t) ==> resolved(*request, t),
{
    let app_id = match &request.target_app {
        Some(a) => a.clone(),
        None => return None,
    };
    let port = match &request.target_port {
        Some(p) => match parse_port(p.as_str()) {
            Some(v) => v,
            None => DEFAULT_PORT,
        },
        None => DEFAULT_PORT,
    };
    let instance_id = match &request.target_instance {
        Some(i) => i.clone(),
        None => String::new(),
    };
    Some(TargetInfo { app_id, instance_id, port })
}

/// Accepts a target whose application id is non-empty.
pub fn validate_connection_target(target: &TargetInfo) -> (r: Result<(), ProxyError>)
    ensures
        r is Ok <==> target.app_id@.len() > 0,
        r matches Err(e) ==> e == ProxyError::BadRequest,
{
    if target.app_id.unicode_len() == 0 {
        Err(ProxyError::BadRequest)
    } else {
        Ok(())
    }
}

/// Whether an application id is written in hexadecimal digits only.
pub fn is_hex_id(s: &str) -> (r: bool)
    ensures
        r == forall|i: int| 0 <= i < s@.len() ==> is_hex_digit(#[trigger] s@[i]),
{
    let n = s.unicode_len();
    let mut i: usize = 0;
    while i < n
        invariant
            n == s@.len(),
            i <= n,
            forall|j: int| 0 <= j < i ==> is_hex_digit(#[trigger] s@[j]),
        decreases n - i,
    {
        let c = s.get_char(i);
        if !(('0' <= c && c <= '9') || ('a' <= c && c <= 'f') || ('A' <= c && c <= 'F')) {
            assert(!is_hex_digit(s@[i as int]));
            return false;
        }
        i = i + 1;
    }
    true
}

/// A target-port header of blanks does not read as a port, so the target
/// still resolves, on the default port; an instance header of blanks is
/// kept as the instance id.
pub proof fn lemma_blank_port_defaults(req: DstackRequest, t: TargetInfo)
    requires
        resolved(req, t),
        req.target_port matches Some(p) && forall|i: int|
            0 <= i < p@.len() ==> (#[trigger] p@[i] == ' ' || p@[i] == '\t'),
    ensures
        t.port == DEFAULT_PORT,
        t.app_id@ == req.target_app->Some_0@,
{
    let p = req.target_port->Some_0;
    let d = port_digits(p@);
    if d.len() > 0 {
        if p@.len() > 0 && p@[0] == '+' {
            assert(d[0] == p@[1]);
        } else {
            assert(d[0] == p@[0]);
        }
        assert(!is_digit(d[0]));
    }
}

} // verus!
