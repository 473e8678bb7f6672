//! Unit tests of the memory codec, text validation, configuration parsing,
//! versions and the session lifecycle.

use fasttime::fastly_http_req;
use fasttime::fastly_http_resp;
use fasttime::headers::{Header, Headers};
use fasttime::http::{HttpVersion, ReqParts, RespParts};
use fasttime::memory::Memory;
use fasttime::opts::{parse_backend, parse_dictionary, parse_key_value, Opts, OptsError};
use fasttime::session::{lifecycle_step, ExecEvent, ExecState, Session};
use fasttime::status;

fn session_with_request(parts: ReqParts) -> (Session, Memory, i32) {
    let mut session = Session::new(parts, Vec::new(), vec![127, 0, 0, 1]);
    let mut mem = Memory::new(vec![0u8; 1024]);
    assert_eq!(
        fastly_http_req::body_downstream_get(&mut session, &mut mem, 0, 4).unwrap(),
        status::OK
    );
    let h = mem.read_i32(0).unwrap();
    (session, mem, h)
}

fn blank_request() -> ReqParts {
    ReqParts {
        method: b"GET".to_vec(),
        uri: b"/".to_vec(),
        version: HttpVersion::Http11,
        headers: Headers::new(),
    }
}

/// A 32-bit integer written little-endian at an offset reads back unchanged,
/// signed or unsigned.
#[test]
fn little_endian_round_trip() {
    let mut mem = Memory::new(vec![0u8; 64]);
    for value in [0u32, 1, 0x0102_0304, 0xdead_beef, u32::MAX] {
        for offset in [0i32, 1, 17, 60] {
            mem.write_u32(offset, value).unwrap();
            assert_eq!(mem.read_u32(offset).unwrap(), value);
        }
    }
    for value in [0i32, -1, i32::MIN, i32::MAX, 123_456_789] {
        mem.write_i32(32, value).unwrap();
        assert_eq!(mem.read_i32(32).unwrap(), value);
    }
    // The bytes really are little-endian.
    mem.write_u32(0, 0x0102_0304).unwrap();
    let (_, bytes) = mem.read_bytes(0, 4).unwrap();
    assert_eq!(bytes, vec![0x04, 0x03, 0x02, 0x01]);
}

/// Reads come up short at the end of memory; writes are bounded by it.
#[test]
fn memory_bounds() {
    let mut mem = Memory::new(vec![0u8; 8]);
    let (n, bytes) = mem.read_bytes(6, 100).unwrap();
    assert_eq!(n, 2);
    assert_eq!(bytes.len(), 2);
    let n = mem.write_bytes(5, b"abcdef").unwrap();
    assert_eq!(n, 3);
    let (_, tail) = mem.read_bytes(5, 3).unwrap();
    assert_eq!(tail, b"abc".to_vec());
    assert!(mem.read_bytes(9, 1).is_err());
    assert!(mem.write_u32(6, 1).is_err());
    assert!(mem.read_u32(-1).is_err());
}

/// Methods are validated and stored as given; invalid bytes report a parse
/// failure and change nothing.
#[test]
fn method_set_validates() {
    let (mut session, mut mem, h) = session_with_request(blank_request());
    mem.write_bytes(100, b"PATCH").unwrap();
    assert_eq!(
        fastly_http_req::method_set(&mut session, &mut mem, h, 100, 5).unwrap(),
        status::OK
    );
    assert_eq!(
        fastly_http_req::method_get(&mut session, &mut mem, h, 200, 16, 8).unwrap(),
        status::OK
    );
    let n = mem.read_u32(8).unwrap() as i32;
    let (_, m) = mem.read_bytes(200, n).unwrap();
    assert_eq!(m, b"PATCH".to_vec());

    mem.write_bytes(100, b"GE T").unwrap();
    assert_eq!(
        fastly_http_req::method_set(&mut session, &mut mem, h, 100, 4).unwrap(),
        status::HTTPPARSE
    );
    assert_eq!(
        fastly_http_req::method_get(&mut session, &mut mem, h, 200, 16, 8).unwrap(),
        status::OK
    );
    let n = mem.read_u32(8).unwrap() as i32;
    let (_, m) = mem.read_bytes(200, n).unwrap();
    assert_eq!(m, b"PATCH".to_vec());
}

/// URIs are stored as the parsed URI's text, not the raw bytes: the scheme
/// is normalized to lowercase.
#[test]
fn uri_set_normalizes() {
    let (mut session, mut mem, h) = session_with_request(blank_request());
    let raw = b"HTTP://EXAMPLE.com/Path?q=1";
    mem.write_bytes(100, raw).unwrap();
    assert_eq!(
        fastly_http_req::uri_set(&mut session, &mut mem, h, 100, raw.len() as i32).unwrap(),
        status::OK
    );
    assert_eq!(
        fastly_http_req::uri_get(&mut session, &mut mem, h, 200, 64, 8).unwrap(),
        status::OK
    );
    let n = mem.read_u32(8).unwrap() as i32;
    let (_, u) = mem.read_bytes(200, n).unwrap();
    assert_eq!(String::from_utf8(u).unwrap(), "http://EXAMPLE.com/Path?q=1");

    mem.write_bytes(100, b"http://exa mple.com/").unwrap();
    assert_eq!(
        fastly_http_req::uri_set(&mut session, &mut mem, h, 100, 20).unwrap(),
        status::HTTPPARSE
    );
}

/// Header names are normalized to lowercase when set; invalid names trap.
#[test]
fn header_names_are_lowercased() {
    let (mut session, mut mem, h) = session_with_request(blank_request());
    mem.write_bytes(100, b"X-Mixed-CASE").unwrap();
    mem.write_bytes(150, b"v\0").unwrap();
    assert_eq!(
        fastly_http_req::header_values_set(&mut session, &mut mem, h, 100, 12, 150, 2).unwrap(),
        status::OK
    );
    assert_eq!(session.requests[h as usize].as_ref().unwrap().headers.entries[0].name, b"x-mixed-case".to_vec());

    mem.write_bytes(100, b"bad name").unwrap();
    assert!(
        fastly_http_req::header_values_set(&mut session, &mut mem, h, 100, 8, 150, 2).is_err()
    );
    mem.write_bytes(100, b"ok-name").unwrap();
    mem.write_bytes(150, b"bad\x01value\0").unwrap();
    assert!(
        fastly_http_req::header_values_set(&mut session, &mut mem, h, 100, 7, 150, 10).is_err()
    );
}

/// Status codes outside 100 through 999 are parse failures; versions marshal
/// through their 32-bit codes and unknown codes trap.
#[test]
fn status_and_version_marshalling() {
    let mut session = Session::new(blank_request(), Vec::new(), vec![127, 0, 0, 1]);
    let mut mem = Memory::new(vec![0u8; 64]);
    assert_eq!(fastly_http_resp::new(&mut session, &mut mem, 0).unwrap(), status::OK);
    assert_eq!(fastly_http_resp::status_set(&mut session, 0, 99).unwrap(), status::HTTPPARSE);
    assert_eq!(fastly_http_resp::status_set(&mut session, 0, 1000).unwrap(), status::HTTPPARSE);
    assert_eq!(fastly_http_resp::status_set(&mut session, 0, -7).unwrap(), status::HTTPPARSE);
    assert_eq!(fastly_http_resp::status_set(&mut session, 0, 503).unwrap(), status::OK);
    assert_eq!(fastly_http_resp::status_get(&mut session, &mut mem, 0, 8).unwrap(), status::OK);
    assert_eq!(mem.read_i32(8).unwrap(), 503);

    for (code, version) in [
        (0u32, HttpVersion::Http09),
        (1, HttpVersion::Http10),
        (2, HttpVersion::Http11),
        (3, HttpVersion::H2),
        (4, HttpVersion::H3),
    ] {
        assert_eq!(version.as_u32(), code);
        assert_eq!(HttpVersion::from_u32(code), Some(version));
    }
    assert_eq!(HttpVersion::from_u32(5), None);
    assert_eq!(fastly_http_resp::version_set(&mut session, 0, 4).unwrap(), status::OK);
    assert_eq!(fastly_http_resp::version_get(&mut session, &mut mem, 0, 8).unwrap(), status::OK);
    assert_eq!(mem.read_u32(8).unwrap(), 4);
    assert!(fastly_http_resp::version_set(&mut session, 0, 9).is_err());
}

/// An unclaimed session finishes as an empty success response.
#[test]
fn unsent_session_finishes_blank() {
    let session = Session::new(blank_request(), Vec::new(), vec![127, 0, 0, 1]);
    let (parts, body) = session.finish();
    assert_eq!(parts.status, 200);
    assert_eq!(parts.version, HttpVersion::Http11);
    assert!(parts.headers.entries.is_empty());
    assert!(body.is_empty());
}

/// The lifecycle admits exactly fresh-start, running-return and running-trap.
#[test]
fn lifecycle_transitions() {
    assert_eq!(lifecycle_step(ExecState::Fresh, ExecEvent::Start), Some(ExecState::Running));
    assert_eq!(lifecycle_step(ExecState::Running, ExecEvent::Return), Some(ExecState::Completed));
    assert_eq!(lifecycle_step(ExecState::Running, ExecEvent::Trap), Some(ExecState::Trapped));
    assert_eq!(lifecycle_step(ExecState::Fresh, ExecEvent::Return), None);
    assert_eq!(lifecycle_step(ExecState::Completed, ExecEvent::Start), None);
    assert_eq!(lifecycle_step(ExecState::Trapped, ExecEvent::Trap), None);
}

/// `KEY:value` parsing splits at the first colon and rejects a string
/// without one.
#[test]
fn key_value_parsing() {
    let (k, v) = parse_key_value("name:host:8080").unwrap();
    assert_eq!(k, "name");
    assert_eq!(v, "host:8080");
    assert_eq!(parse_key_value("nocolon").unwrap_err(), OptsError::MissingColon);

    let b = parse_backend("backend_name:origin.example").unwrap();
    assert_eq!(b.name, "backend_name");
    assert_eq!(b.address, "origin.example");
}

/// Dictionary parsing reads `name:key=value,key=value`; a later duplicate key
/// overrides an earlier one on lookup.
#[test]
fn dictionary_parsing() {
    let d = parse_dictionary("dict:foo=bar,baz=qux,foo=override").unwrap();
    assert_eq!(d.name, "dict");
    assert_eq!(d.entries.len(), 3);
    assert_eq!(d.get(&"foo".to_string()).unwrap(), "override");
    assert_eq!(d.get(&"baz".to_string()).unwrap(), "qux");
    assert_eq!(d.get(&"nope".to_string()), None);

    assert!(matches!(parse_dictionary("nocolon"), Err(OptsError::MissingColon)));
    assert!(matches!(parse_dictionary("dict:foo"), Err(OptsError::MissingEquals)));
    assert!(matches!(parse_dictionary("dict:foo=bar,broken"), Err(OptsError::MissingEquals)));
    assert_eq!(OptsError::MissingEquals.message(), "invalid KEY=value: no `=` found");
}

/// The defaults mirror an invocation without arguments.
#[test]
fn opts_defaults() {
    let o = Opts::defaults();
    assert_eq!(o.wasm, "bin/main.wasm");
    assert_eq!(o.port, 3000);
    assert!(o.tls_cert.is_none());
    assert!(o.tls_key.is_none());
    assert!(!o.watch);
    assert!(o.config_file.is_none());
    assert!(o.backends.is_none());
    assert!(o.dictionaries.is_none());
}

/// The UNSUPPORTED acknowledgements and the stateless calls answer success.
#[test]
fn stateless_calls_acknowledge() {
    assert_eq!(fasttime::session::abi_init(1), status::OK);
    assert_eq!(fasttime::fastly_http_body::close(3), status::OK);
    assert_eq!(fastly_http_req::cache_override_set(0, 60, 0), status::OK);
    assert_eq!(fastly_http_req::cache_override_v2_set(0, 0, 60, 0, 0, 0), status::OK);
}

/// A response built from parts keeps well-formedness visible to the embedder.
#[test]
fn response_parts_blank_is_wf() {
    let r = RespParts::blank();
    assert_eq!(r.status, 200);
    assert_eq!(r.version, HttpVersion::Http11);
    assert!(r.headers.entries.is_empty());
    let h = Header { name: b"a".to_vec(), value: b"b".to_vec() };
    assert_eq!(h.name.len(), 1);
}

/// Bytes that must be UTF-8 but are not make the host call trap.
#[test]
fn invalid_utf8_traps() {
    let mut session = Session::new(blank_request(), Vec::new(), vec![127, 0, 0, 1]);
    let mut mem = Memory::new(vec![0u8; 64]);
    mem.write_bytes(0, &[0xff, 0xfe]).unwrap();
    let tables: Vec<fasttime::dictionary::Dictionary> = Vec::new();
    assert!(fasttime::fastly_dictionary::open(&mut session, &mut mem, &tables, 0, 2, 8).is_err());
    assert!(session.dictionaries.is_empty());
    assert!(fasttime::fastly_log::endpoint_get(&mut session, &mut mem, 0, 2, 8).is_err());
    assert!(session.endpoints.is_empty());
}

/// A request without headers reports a count of zero.
#[test]
fn zero_headers_count_zero() {
    let mut session = Session::new(blank_request(), Vec::new(), vec![127, 0, 0, 1]);
    let mut mem = Memory::new(vec![0u8; 64]);
    mem.write_i32(8, -55).unwrap();
    assert_eq!(
        fastly_http_req::original_header_count(&mut session, &mut mem, 8).unwrap(),
        status::OK
    );
    assert_eq!(mem.read_i32(8).unwrap(), 0);
}
