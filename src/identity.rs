use vstd::prelude::*;
use vstd::string::StringExecFns;

use crate::target::{ProxyError, TargetInfo};

verus! {

/// Object identifier of the certificate extension that carries a workload's
/// application id.
pub open spec fn app_id_oid() -> Seq<u64> {
    seq![1u64, 3, 6, 1, 4, 1, 62397, 1, 3]
}

/// The value bytes of the certificate extension `oid` in the DER
/// certificate `der`, when the certificate parses and holds that extension
/// exactly once.
pub uninterp spec fn certificate_extension(der: Seq<u8>, oid: Seq<u64>) -> Option<Seq<u8>>;

/// Relies on x509_parser: `Oid::from` builds the identifier,
/// `parse_x509_certificate` reads the certificate, and
/// `X509Certificate::get_extension_unique` finds the one extension with that
/// identifier, whose raw `value` is returned. The outcome depends on the two
/// arguments alone.
#[verifier::external_body]
fn find_extension(der: &[u8], oid: &[u64]) -> (r: Option<Vec<u8>>)
    ensures
        match r {
            Some(v) => certificate_extension(der@, oid@) == Some(v@),
            None => certificate_extension(der@, oid@) is None,
        },
{
    let oid = x509_parser::der_parser::oid::Oid::from(oid).ok()?;
    let (_, cert) = x509_parser::parse_x509_certificate(der).ok()?;
    let ext = cert.get_extension_unique(&oid).ok()??;
    Some(ext.value.to_vec())
}

/// The content of a DER OCTET STRING that fills `b` exactly: tag 0x04, then
/// a length in short form, or in the shortest long form of one or two bytes.
pub open spec fn der_octets(b: Seq<u8>) -> Option<Seq<u8>> {
    if b.len() < 2 || b[0] != 0x04u8 {
        None
    } else if b[1] < 0x80u8 {
        if b.len() == 2 + b[1] {
            Some(b.skip(2))
        } else {
            None
        }
    } else if b[1] == 0x81u8 {
        if b.len() >= 3 && b[2] >= 0x80u8 && b.len() == 3 + b[2] {
            Some(b.skip(3))
        } else {
            None
        }
    } else if b[1] == 0x82u8 {
        if b.len() >= 4 && b[2] > 0u8 && b.len() == 4 + (b[2] as nat) * 256 + (b[3] as nat) {
            Some(b.skip(4))
        } else {
            None
        }
    } else {
        None
    }
}

/// Reads the application id out of the value of the identity extension,
/// which holds it as one DER OCTET STRING.
pub fn decode_octet_string(b: &[u8]) -> (r: Option<Vec<u8>>)
    ensures
        match r {
            Some(v) => der_octets(b@) == Some(v@),
            None => der_octets(b@) is None,
        },
{
    let n = b.len();
    if n < 2 || b[0] != 0x04u8 {
        return None;
    }
    let first = b[1];
    let start: usize = if first < 0x80u8 {
        if n != 2 + first as usize {
            return None;
        }
        2
    } else if first == 0x81u8 {
        if n < 3 || b[2] < 0x80u8 || n != 3 + b[2] as usize {
            return None;
        }
        3
    } else if first == 0x82u8 {
        if n < 4 || b[2] == 0u8 || n != 4 + (b[2] as usize) * 256 + b[3] as usize {
            return None;
        }
        4
    } else {
        return None;
    };
    let mut out: Vec<u8> = Vec::new();
    let mut i: usize = start;
    while i < n
        invariant
            start <= i <= n,
            n == b@.len(),
            out@ == b@.subrange(start as int, i as int),
        decreases n - i,
    {
        out.push(b[i]);
        i = i + 1;
        assert(out@ =~= b@.subrange(start as int, i as int));
    }
    assert(b@.skip(start as int) =~= b@.subrange(start as int, n as int));
    Some(out)
}

/// The lower-case hexadecimal digit of a value below 16.
pub open spec fn hex_digit(v: u8) -> char {
    if v < 10 {
        (('0' as u8) + v) as char
    } else {
        (('a' as u8) + v - 10) as char
    }
}

/// Bytes written as lower-case hexadecimal, two digits per byte.
pub open spec fn hex_of(b: Seq<u8>) -> Seq<char>
    decreases b.len(),
{
    if b.len() == 0 {
        Seq::empty()
    } else {
        hex_of(b.drop_last()) + seq![hex_digit(b.last() / 16), hex_digit(b.last() % 16)]
    }
}

/// Relies on hex::encode: each byte becomes two digits of
/// `0123456789abcdef`, high half first, in the order of the bytes.
#[verifier::external_body]
fn hex_encode(b: &[u8]) -> (r: String)
    ensures
        r@ == hex_of(b@),
{
    hex::encode(b)
}

/// What `str::to_lowercase` makes of a text.
pub uninterp spec fn lowercase_of(s: Seq<char>) -> Seq<char>;

/// Relies on str::to_lowercase: the result depends on the characters alone.
#[verifier::external_body]
fn to_lowercase(s: &str) -> (r: String)
    ensures
        r@ == lowercase_of(s@),
{
    s.to_lowercase()
}

/// The application id that a peer certificate presents, if it presents one.
pub open spec fn presented_app_id(peer_certificate: Option<Vec<u8>>) -> Option<Seq<u8>> {
    match peer_certificate {
        Some(c) => match certificate_extension(c@, app_id_oid()) {
            Some(ext) => der_octets(ext),
            None => None,
        },
        None => None,
    }
}

/// A presented application id names `app_id` when its hexadecimal form and
/// `app_id` agree once both are lower-cased.
pub open spec fn names_app(presented: Seq<u8>, app_id: Seq<char>) -> bool {
    lowercase_of(hex_of(presented)) == lowercase_of(app_id)
}

/// The peer certificate shows the identity of application `app_id`.
pub open spec fn identity_accepted(peer_certificate: Option<Vec<u8>>, app_id: Seq<char>) -> bool {
    presented_app_id(peer_certificate) matches Some(p) && names_app(p, app_id)
}

/// Whether a presented application id names `app_id`, case aside.
pub fn app_id_matches(presented: &[u8], app_id: &str) -> (r: bool)
    ensures
        r == names_app(presented@, app_id@),
{
    let hex = hex_encode(presented);
    let a = to_lowercase(hex.as_str());
    let b = to_lowercase(app_id);
    a == b
}

/// Accepts a mesh response only when the peer's certificate presents the
/// application id that the target asked for; any other response, and one
/// without a certificate, is a bad gateway.
pub fn verify_response_security(
    peer_certificate: &Option<Vec<u8>>,
    target: &TargetInfo,
) -> (r: Result<(), ProxyError>)
    ensures
        r is Ok <==> identity_accepted(*peer_certificate, target.app_id@),
        r matches Err(e) ==> e == ProxyError::BadGateway,
{
    let cert = match peer_certificate {
        Some(c) => c,
        None => return Err(ProxyError::BadGateway),
    };
    let oid: Vec<u64> = vec![1u64, 3, 6, 1, 4, 1, 62397, 1, 3];
    assert(oid@ =~= app_id_oid());
    let ext = match find_extension(cert.as_slice(), oid.as_slice()) {
        Some(e) => e,
        None => return Err(ProxyError::BadGateway),
    };
    let presented = match decode_octet_string(ext.as_slice()) {
        Some(p) => p,
        None => return Err(ProxyError::BadGateway),
    };
    if app_id_matches(presented.as_slice(), target.app_id.as_str()) {
        Ok(())
    } else {
        Err(ProxyError::BadGateway)
    }
}

/// The identity check looks at the target's application id only: two
/// targets that differ in instance or port are accepted or refused alike,
/// even where the instance id picks the peer's host.
pub proof fn lemma_identity_ignores_instance(
    peer_certificate: Option<Vec<u8>>,
    a: TargetInfo,
    b: TargetInfo,
    ra: Result<(), ProxyError>,
    rb: Result<(), ProxyError>,
)
    requires
        a.app_id@ == b.app_id@,
        ra is Ok <==> identity_accepted(peer_certificate, a.app_id@),
        rb is Ok <==> identity_accepted(peer_certificate, b.app_id@),
    ensures
        ra is Ok <==> rb is Ok,
        ra is Ok ==> (presented_app_id(peer_certificate) matches Some(p) && names_app(p, a.app_id@)),
{
}

/// A peer whose presented application id does not name the target's is
/// refused as a bad gateway, so its response is never relayed.
pub proof fn lemma_mismatch_refused(
    peer_certificate: Option<Vec<u8>>,
    target: TargetInfo,
    r: Result<(), ProxyError>,
)
    requires
        r is Ok <==> identity_accepted(peer_certificate, target.app_id@),
        r matches Err(e) ==> e == ProxyError::BadGateway,
        presented_app_id(peer_certificate) matches Some(p) && !names_app(p, target.app_id@),
    ensures
        r matches Err(e) && e == ProxyError::BadGateway,
{
}

/// The client identity handed to the TLS layer: the certificate PEM, a line
/// break, then the private-key PEM.
pub fn client_identity_pem(cert_pem: &str, key_pem: &str) -> (r: String)
    ensures
        r@ == cert_pem@ + "\n"@ + key_pem@,
{
    let mut r = String::from_str(cert_pem);
    r.append("\n");
    r.append(key_pem);
    r
}

} // verus!
