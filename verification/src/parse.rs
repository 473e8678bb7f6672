//! Text validation done by the HTTP library and by std, under trusted
//! contracts. The host-call surface validates methods, URIs, header names,
//! header values and status codes by calling into `hyper`, exactly as the
//! values will later be treated by the HTTP machinery around the library.

use crate::headers::{header_name_ok, lower_bytes, valid_value};
use crate::http::method_ok;
use vstd::prelude::*;

verus! {

/// Relies on `core::str::from_utf8`: it succeeds exactly on UTF-8 input, and
/// the returned text is the decoding of the bytes.
#[verifier::external_body]
pub fn utf8_to_string(bytes: &[u8]) -> (r: Option<String>)
    ensures
        r is Some <==> vstd::utf8::valid_utf8(bytes@),
        r matches Some(s) ==> s@ == vstd::utf8::decode_utf8(bytes@),
{
    match core::str::from_utf8(bytes) {
        Ok(s) => Some(s.to_string()),
        Err(_) => None,
    }
}

/// Relies on hyper's `Method::from_bytes`: it accepts exactly nonempty
/// strings of method token bytes, and `Method::as_str` hands the same bytes
/// back.
#[verifier::external_body]
pub fn parse_method(bytes: &[u8]) -> (r: Option<Vec<u8>>)
    ensures
        r is Some <==> method_ok(bytes@),
        r matches Some(m) ==> m@ == bytes@,
{
    match hyper::Method::from_bytes(bytes) {
        Ok(m) => Some(m.as_str().as_bytes().to_vec()),
        Err(_) => None,
    }
}

/// Relies on hyper's `HeaderName::from_bytes`: it accepts exactly nonempty
/// strings of header-name token bytes of at most 65535 bytes, normalizing
/// uppercase letters to lowercase, and `HeaderName::as_str` hands the
/// normalized bytes back.
#[verifier::external_body]
pub fn parse_header_name(bytes: &[u8]) -> (r: Option<Vec<u8>>)
    ensures
        r is Some <==> header_name_ok(bytes@),
        r matches Some(n) ==> n@ == lower_bytes(bytes@),
{
    match hyper::header::HeaderName::from_bytes(bytes) {
        Ok(n) => Some(n.as_str().as_bytes().to_vec()),
        Err(_) => None,
    }
}

/// Relies on hyper's `HeaderValue::from_bytes`: it accepts exactly strings of
/// header-value bytes (horizontal tab, or any byte from space on except
/// delete), and `HeaderValue::as_bytes` hands the same bytes back.
#[verifier::external_body]
pub fn parse_header_value(bytes: &[u8]) -> (r: Option<Vec<u8>>)
    ensures
        r is Some <==> valid_value(bytes@),
        r matches Some(v) ==> v@ == bytes@,
{
    match hyper::header::HeaderValue::from_bytes(bytes) {
        Ok(v) => Some(v.as_bytes().to_vec()),
        Err(_) => None,
    }
}

/// Relies on hyper's `StatusCode::from_u16`: it accepts exactly the codes
/// 100 through 999 and preserves the number.
#[verifier::external_body]
pub fn parse_status(code: u16) -> (r: Option<u16>)
    ensures
        r is Some <==> 100 <= code <= 999,
        r matches Some(c) ==> c == code,
{
    match hyper::StatusCode::from_u16(code) {
        Ok(s) => Some(s.as_u16()),
        Err(_) => None,
    }
}

/// Whether hyper's URI grammar accepts a byte string.
pub uninterp spec fn uri_ok(s: Seq<u8>) -> bool;

/// The text that a byte string accepted as a URI prints back as; it depends
/// on the input bytes alone.
pub uninterp spec fn uri_canon(s: Seq<u8>) -> Seq<u8>;

/// Relies on hyper's `Uri::from_maybe_shared` and `Uri::to_string`: parsing
/// accepts exactly the byte strings of hyper's URI grammar, here named
/// `uri_ok`, and the parsed URI prints back as a text determined by the input
/// alone, here named `uri_canon`.
#[verifier::external_body]
pub fn parse_uri(bytes: &[u8]) -> (r: Option<Vec<u8>>)
    ensures
        r is Some <==> uri_ok(bytes@),
        r matches Some(u) ==> u@ == uri_canon(bytes@),
{
    match hyper::Uri::from_maybe_shared(bytes.to_vec()) {
        Ok(u) => Some(u.to_string().into_bytes()),
        Err(_) => None,
    }
}

} // verus!
