//! End-to-end drives of the host-call surface: each test plays a synthetic
//! guest against a session, as a module would through the linker.

use fasttime::backend::{gateway_error, geo_request_ip, proxy_outbound, route, Backend, Route};
use fasttime::dictionary::{DictEntry, Dictionary};
use fasttime::fastly_dictionary;
use fasttime::fastly_http_body;
use fasttime::fastly_http_req;
use fasttime::fastly_http_resp;
use fasttime::fastly_log;
use fasttime::headers::{Header, Headers};
use fasttime::http::{HttpVersion, ReqParts, RespParts};
use fasttime::memory::Memory;
use fasttime::session::Session;
use fasttime::status;

fn fresh_session(headers: Vec<(&str, &str)>, body: &[u8]) -> Session {
    let mut h = Headers::new();
    for (name, value) in headers {
        h.entries.push(Header {
            name: name.as_bytes().to_vec(),
            value: value.as_bytes().to_vec(),
        });
    }
    let parts = ReqParts {
        method: b"GET".to_vec(),
        uri: b"/".to_vec(),
        version: HttpVersion::Http11,
        headers: h,
    };
    Session::new(parts, body.to_vec(), vec![127, 0, 0, 1])
}

fn mem_1k() -> Memory {
    Memory::new(vec![0u8; 1024])
}

/// Writes `data` into guest memory at `addr`.
fn poke(mem: &mut Memory, addr: i32, data: &[u8]) {
    let n = mem.write_bytes(addr, data).unwrap();
    assert_eq!(n, data.len());
}

/// Reads `len` bytes of guest memory at `addr`.
fn peek(mem: &Memory, addr: i32, len: i32) -> Vec<u8> {
    let (n, data) = mem.read_bytes(addr, len).unwrap();
    assert_eq!(n as i32, len);
    data
}

/// The guest serves the default welcome body and sends it downstream.
#[test]
fn it_works() {
    let mut session = fresh_session(vec![], b"");
    let mut mem = mem_1k();
    let greeting = b"Welcome to Fastly Compute@Edge!";

    assert_eq!(fastly_http_resp::new(&mut session, &mut mem, 0).unwrap(), status::OK);
    let resp_h = mem.read_u32(0).unwrap() as i32;
    assert_eq!(resp_h, 0);

    assert_eq!(fastly_http_body::new(&mut session, &mut mem, 0).unwrap(), status::OK);
    let body_h = mem.read_u32(0).unwrap() as i32;
    assert_eq!(body_h, 0);

    poke(&mut mem, 100, greeting);
    assert_eq!(
        fastly_http_body::write(&mut session, &mut mem, body_h, 100, greeting.len() as i32, 0, 4)
            .unwrap(),
        status::OK
    );
    assert_eq!(mem.read_u32(4).unwrap(), greeting.len() as u32);

    assert_eq!(
        fastly_http_resp::send_downstream(&mut session, resp_h, body_h, 0).unwrap(),
        status::OK
    );
    let (parts, body) = session.finish();
    assert_eq!(parts.status, 200);
    assert_eq!(body, greeting.to_vec());
}

/// Appending bodies concatenates them, and the source stays usable.
#[test]
fn append_works() {
    let mut session = fresh_session(vec![], b"");
    let mut mem = mem_1k();

    let first = b"Welcome to Fastly Compute@Edge!";
    let second = b"Appended welcome to Fastly Compute@Edge!";
    let third = b"last line";

    for (i, text) in [first.as_slice(), second.as_slice(), third.as_slice()].iter().enumerate() {
        assert_eq!(fastly_http_body::new(&mut session, &mut mem, 0).unwrap(), status::OK);
        let h = mem.read_u32(0).unwrap() as i32;
        assert_eq!(h as usize, i);
        poke(&mut mem, 200, text);
        assert_eq!(
            fastly_http_body::write(&mut session, &mut mem, h, 200, text.len() as i32, 0, 4)
                .unwrap(),
            status::OK
        );
    }
    assert_eq!(fastly_http_body::append(&mut session, 0, 1).unwrap(), status::OK);
    assert_eq!(fastly_http_body::append(&mut session, 0, 2).unwrap(), status::OK);

    assert_eq!(fastly_http_resp::new(&mut session, &mut mem, 0).unwrap(), status::OK);
    assert_eq!(
        fastly_http_resp::send_downstream(&mut session, 0, 0, 0).unwrap(),
        status::OK
    );
    let (_, body) = session.finish();
    assert_eq!(
        String::from_utf8(body).unwrap(),
        "Welcome to Fastly Compute@Edge!Appended welcome to Fastly Compute@Edge!last line"
    );
}

/// The original downstream header count is reported even after the request
/// was claimed.
#[test]
fn downstream_original_header_count_works() {
    let mut session = fresh_session(vec![("foo", "bar")], b"");
    let mut mem = mem_1k();

    assert_eq!(
        fastly_http_req::body_downstream_get(&mut session, &mut mem, 0, 4).unwrap(),
        status::OK
    );
    assert_eq!(
        fastly_http_req::original_header_count(&mut session, &mut mem, 8).unwrap(),
        status::OK
    );
    let count = mem.read_i32(8).unwrap();
    let body = format!("downstream_original_header_count {}", count);
    assert_eq!(body, "downstream_original_header_count 1");
}

/// The client address arrives as its four octets.
#[test]
fn downstream_client_ip_addr_works() {
    let mut session = fresh_session(vec![], b"");
    let mut mem = mem_1k();
    assert_eq!(
        fastly_http_req::downstream_client_ip_addr(&mut session, &mut mem, 16, 0).unwrap(),
        status::OK
    );
    assert_eq!(mem.read_i32(0).unwrap(), 4);
    let octets = peek(&mem, 16, 4);
    let body = format!(
        "downstream_client_ip_addr Some(V4({}.{}.{}.{}))",
        octets[0], octets[1], octets[2], octets[3]
    );
    assert_eq!(body, "downstream_client_ip_addr Some(V4(127.0.0.1))");
}

/// A dictionary hit returns the configured value.
#[test]
fn hits_work() {
    let mut session = fresh_session(vec![], b"");
    let mut mem = mem_1k();
    let tables = vec![Dictionary {
        name: "dict".to_string(),
        entries: vec![DictEntry { key: "foo".to_string(), value: "bar".to_string() }],
    }];

    poke(&mut mem, 100, b"dict");
    assert_eq!(
        fastly_dictionary::open(&mut session, &mut mem, &tables, 100, 4, 0).unwrap(),
        status::OK
    );
    let h = mem.read_i32(0).unwrap();
    assert_eq!(h, 0);

    poke(&mut mem, 100, b"foo");
    assert_eq!(
        fastly_dictionary::get(&mut session, &mut mem, h, 100, 3, 200, 64, 0).unwrap(),
        status::OK
    );
    let n = mem.read_i32(0).unwrap();
    let value = String::from_utf8(peek(&mem, 200, n)).unwrap();
    assert_eq!(format!("dict::foo is {}", value), "dict::foo is bar");
}

/// An unknown dictionary name is an invalid argument; a missing key reports a
/// zero-length value.
#[test]
fn misses_work() {
    let mut session = fresh_session(vec![], b"");
    let mut mem = mem_1k();
    let tables = vec![Dictionary {
        name: "dict".to_string(),
        entries: vec![DictEntry { key: "foo".to_string(), value: "bar".to_string() }],
    }];

    poke(&mut mem, 100, b"bogus");
    assert_eq!(
        fastly_dictionary::open(&mut session, &mut mem, &tables, 100, 5, 0).unwrap(),
        status::INVAL
    );
    assert!(session.dictionaries.is_empty());

    poke(&mut mem, 100, b"dict");
    assert_eq!(
        fastly_dictionary::open(&mut session, &mut mem, &tables, 100, 4, 0).unwrap(),
        status::OK
    );
    poke(&mut mem, 100, b"nope");
    assert_eq!(
        fastly_dictionary::get(&mut session, &mut mem, 0, 100, 4, 200, 64, 0).unwrap(),
        status::OK
    );
    assert_eq!(mem.read_i32(0).unwrap(), 0);
}

/// A send is prepared for the named backend and its response lands behind
/// fresh handles.
#[test]
fn test_send_works() {
    let mut session = fresh_session(vec![], b"");
    let mut mem = mem_1k();

    assert_eq!(fastly_http_req::new(&mut session, &mut mem, 0).unwrap(), status::OK);
    let req_h = mem.read_i32(0).unwrap();
    assert_eq!(fastly_http_body::new(&mut session, &mut mem, 0).unwrap(), status::OK);
    let body_h = mem.read_u32(0).unwrap() as i32;

    poke(&mut mem, 100, b"backend_name");
    let (st, prep) = fastly_http_req::send_prepare(&mut session, &mut mem, req_h, body_h, 100, 12)
        .unwrap();
    assert_eq!(st, status::OK);
    let prep = prep.unwrap();
    assert_eq!(prep.backend, "backend_name");

    // The dispatcher's part: a mock backend answering with a waving hand.
    let resp = RespParts {
        status: 200,
        version: HttpVersion::Http11,
        headers: Headers::new(),
    };
    let resp_body = "👋".as_bytes().to_vec();
    assert_eq!(
        fastly_http_req::send_finish(&mut session, &mut mem, resp, resp_body, 0, 4).unwrap(),
        status::OK
    );
    let resp_h = mem.read_i32(0).unwrap();
    let resp_body_h = mem.read_i32(4).unwrap();

    assert_eq!(
        fastly_http_body::read(&mut session, &mut mem, resp_body_h, 300, 64, 8).unwrap(),
        status::OK
    );
    let n = mem.read_i32(8).unwrap();
    assert_eq!(String::from_utf8(peek(&mem, 300, n)).unwrap(), "👋");

    // The request and body handles were consumed by the send: a second send
    // through them is a bad handle and prepares nothing.
    assert_eq!(
        fastly_http_req::method_get(&mut session, &mut mem, req_h, 400, 16, 8).unwrap(),
        status::BADF
    );
    let (st, prep) = fastly_http_req::send_prepare(&mut session, &mut mem, req_h, body_h, 100, 12)
        .unwrap();
    assert_eq!(st, status::BADF);
    assert!(prep.is_none());
    assert_eq!(resp_h, 0);
}

/// A user-agent string parses into its product fields.
#[test]
fn parse_works() {
    let mut mem = mem_1k();
    let ua = b"curl/7.64.1";
    poke(&mut mem, 100, ua);
    assert_eq!(
        fasttime::fastly_uap::parse(
            &mut mem, 100, ua.len() as i32, 200, 32, 0, 240, 32, 4, 280, 32, 8, 320, 32, 12,
        )
        .unwrap(),
        status::OK
    );
    let family = String::from_utf8(peek(&mem, 200, mem.read_i32(0).unwrap())).unwrap();
    let major = String::from_utf8(peek(&mem, 240, mem.read_i32(4).unwrap())).unwrap();
    let minor = String::from_utf8(peek(&mem, 280, mem.read_i32(8).unwrap())).unwrap();
    let patch = String::from_utf8(peek(&mem, 320, mem.read_i32(12).unwrap())).unwrap();
    assert_eq!(format!("{} {} {} {}", family, major, minor, patch), "curl 7 64 1");
}

/// The downstream request is a one-shot: the second claim traps.
#[test]
fn downstream_get_is_one_shot() {
    let mut session = fresh_session(vec![], b"hello");
    let mut mem = mem_1k();
    assert_eq!(
        fastly_http_req::body_downstream_get(&mut session, &mut mem, 0, 4).unwrap(),
        status::OK
    );
    assert_eq!(mem.read_i32(0).unwrap(), 0);
    assert_eq!(mem.read_i32(4).unwrap(), 0);
    assert!(fastly_http_req::body_downstream_get(&mut session, &mut mem, 0, 4).is_err());
    // The claimed body holds the downstream bytes.
    assert_eq!(
        fastly_http_body::read(&mut session, &mut mem, 0, 100, 64, 8).unwrap(),
        status::OK
    );
    let n = mem.read_i32(8).unwrap();
    assert_eq!(peek(&mem, 100, n), b"hello".to_vec());
}

/// Every appended entity's handle equals its table length before the append.
#[test]
fn handles_are_table_lengths() {
    let mut session = fresh_session(vec![], b"");
    let mut mem = mem_1k();
    for expected in 0..3u32 {
        assert_eq!(fastly_http_body::new(&mut session, &mut mem, 0).unwrap(), status::OK);
        assert_eq!(mem.read_u32(0).unwrap(), expected);
    }
    for expected in 0..3i32 {
        assert_eq!(fastly_http_req::new(&mut session, &mut mem, 0).unwrap(), status::OK);
        assert_eq!(mem.read_i32(0).unwrap(), expected);
        assert_eq!(fastly_http_resp::new(&mut session, &mut mem, 0).unwrap(), status::OK);
        assert_eq!(mem.read_u32(0).unwrap() as i32, expected);
    }
    poke(&mut mem, 100, b"my_endpoint");
    assert_eq!(
        fastly_log::endpoint_get(&mut session, &mut mem, 100, 11, 0).unwrap(),
        status::OK
    );
    assert_eq!(mem.read_i32(0).unwrap(), 0);
    poke(&mut mem, 100, b"second");
    assert_eq!(
        fastly_log::endpoint_get(&mut session, &mut mem, 100, 6, 0).unwrap(),
        status::OK
    );
    assert_eq!(mem.read_i32(0).unwrap(), 1);
}

/// Out-of-range and consumed handles report the bad-handle status and leave
/// the session as it was.
#[test]
fn bad_handles_report_badf() {
    let mut session = fresh_session(vec![], b"");
    let mut mem = mem_1k();
    assert_eq!(
        fastly_http_body::write(&mut session, &mut mem, 7, 0, 0, 0, 0).unwrap(),
        status::BADF
    );
    assert_eq!(
        fastly_http_body::read(&mut session, &mut mem, -1, 0, 0, 0).unwrap(),
        status::BADF
    );
    assert_eq!(fastly_http_body::append(&mut session, 0, 0).unwrap(), status::BADF);
    assert_eq!(
        fastly_http_req::method_get(&mut session, &mut mem, 0, 0, 0, 4).unwrap(),
        status::BADF
    );
    assert_eq!(
        fastly_http_resp::status_set(&mut session, 3, 200).unwrap(),
        status::BADF
    );
    assert_eq!(
        fastly_dictionary::get(&mut session, &mut mem, 0, 0, 0, 0, 0, 4).unwrap(),
        status::BADF
    );
    let (st, msg) = fastly_log::write(&mut session, &mut mem, 0, 0, 0, 4).unwrap();
    assert_eq!(st, status::BADF);
    assert!(msg.is_none());
    assert!(session.requests.is_empty());
    assert!(session.responses.is_empty());
    assert!(session.bodies.is_empty());
    // A consumed handle is bad from then on.
    assert_eq!(fastly_http_resp::new(&mut session, &mut mem, 0).unwrap(), status::OK);
    assert_eq!(fastly_http_body::new(&mut session, &mut mem, 0).unwrap(), status::OK);
    assert_eq!(
        fastly_http_resp::send_downstream(&mut session, 0, 0, 0).unwrap(),
        status::OK
    );
    assert_eq!(
        fastly_http_resp::status_set(&mut session, 0, 404).unwrap(),
        status::BADF
    );
    assert_eq!(
        fastly_http_body::write(&mut session, &mut mem, 0, 0, 0, 0, 4).unwrap(),
        status::BADF
    );
}

/// The final response carries exactly the parts and bytes that were at the
/// sent handles.
#[test]
fn send_downstream_installs_exactly() {
    let mut session = fresh_session(vec![], b"");
    let mut mem = mem_1k();
    assert_eq!(fastly_http_resp::new(&mut session, &mut mem, 0).unwrap(), status::OK);
    assert_eq!(fastly_http_resp::status_set(&mut session, 0, 418).unwrap(), status::OK);
    assert_eq!(fastly_http_resp::version_set(&mut session, 0, 3).unwrap(), status::OK);
    poke(&mut mem, 100, b"x-test");
    poke(&mut mem, 120, b"yes\0");
    assert_eq!(
        fastly_http_resp::header_values_set(&mut session, &mut mem, 0, 100, 6, 120, 4).unwrap(),
        status::OK
    );
    assert_eq!(fastly_http_body::new(&mut session, &mut mem, 0).unwrap(), status::OK);
    poke(&mut mem, 200, b"teapot");
    assert_eq!(
        fastly_http_body::write(&mut session, &mut mem, 0, 200, 6, 0, 4).unwrap(),
        status::OK
    );
    // Streaming mode is unsupported and changes nothing.
    assert_eq!(
        fastly_http_resp::send_downstream(&mut session, 0, 0, 1).unwrap(),
        status::UNSUPPORTED
    );
    assert!(session.response.is_none());
    assert_eq!(
        fastly_http_resp::send_downstream(&mut session, 0, 0, 0).unwrap(),
        status::OK
    );
    let (parts, body) = session.finish();
    assert_eq!(parts.status, 418);
    assert_eq!(parts.version, HttpVersion::H2);
    assert_eq!(parts.headers.entries.len(), 1);
    assert_eq!(parts.headers.entries[0].name, b"x-test".to_vec());
    assert_eq!(parts.headers.entries[0].value, b"yes".to_vec());
    assert_eq!(body, b"teapot".to_vec());
}

/// Header-name enumeration walks the distinct names in ascending order, each
/// ending with one NUL, and restarting from zero repeats it exactly.
#[test]
fn header_enumeration_walks_names_once() {
    let mut session = fresh_session(vec![], b"");
    let mut mem = mem_1k();
    assert_eq!(fastly_http_req::new(&mut session, &mut mem, 0).unwrap(), status::OK);
    for (name, value) in [("b-two", "2"), ("a-one", "1"), ("b-two", "22"), ("C-Three", "3")] {
        poke(&mut mem, 100, name.as_bytes());
        let val = format!("{}\0", value);
        poke(&mut mem, 150, val.as_bytes());
        assert_eq!(
            fastly_http_req::header_values_set(
                &mut session,
                &mut mem,
                0,
                100,
                name.len() as i32,
                150,
                val.len() as i32,
            )
            .unwrap(),
            status::OK
        );
    }
    let walk = |mem: &mut Memory, session: &mut Session| -> Vec<String> {
        let mut names = Vec::new();
        let mut cursor = 0i32;
        loop {
            assert_eq!(
                fastly_http_req::header_names_get(session, mem, 0, 300, 64, cursor, 0, 4).unwrap(),
                status::OK
            );
            let n = mem.read_i32(4).unwrap();
            let next = mem.read_i32(0).unwrap();
            if n == 0 {
                assert_eq!(next, -1);
                break;
            }
            let bytes = peek(mem, 300, n);
            assert_eq!(bytes[(n - 1) as usize], 0);
            assert!(!bytes[..(n - 1) as usize].contains(&0));
            names.push(String::from_utf8(bytes[..(n - 1) as usize].to_vec()).unwrap());
            if next == -1 {
                break;
            }
            cursor = next;
        }
        names
    };
    let first = walk(&mut mem, &mut session);
    assert_eq!(first, vec!["a-one", "b-two", "c-three"]);
    let second = walk(&mut mem, &mut session);
    assert_eq!(first, second);
    // Past the end the step converges to a zero count and the end marker.
    assert_eq!(
        fastly_http_req::header_names_get(&mut session, &mut mem, 0, 300, 64, 99, 0, 4).unwrap(),
        status::OK
    );
    assert_eq!(mem.read_i32(4).unwrap(), 0);
    assert_eq!(mem.read_i32(0).unwrap(), -1);
}

/// Values of one name come back in ascending byte order.
#[test]
fn header_values_are_sorted() {
    let mut session = fresh_session(vec![], b"");
    let mut mem = mem_1k();
    assert_eq!(fastly_http_resp::new(&mut session, &mut mem, 0).unwrap(), status::OK);
    for value in ["zeta", "alpha", "midway"] {
        poke(&mut mem, 100, b"multi");
        let val = format!("{}\0", value);
        poke(&mut mem, 150, val.as_bytes());
        assert_eq!(
            fastly_http_resp::header_values_set(
                &mut session,
                &mut mem,
                0,
                100,
                5,
                150,
                val.len() as i32,
            )
            .unwrap(),
            status::OK
        );
    }
    let mut values = Vec::new();
    let mut cursor = 0i32;
    loop {
        poke(&mut mem, 100, b"MULTI");
        assert_eq!(
            fastly_http_resp::header_values_get(
                &mut session,
                &mut mem,
                0,
                100,
                5,
                300,
                64,
                cursor,
                0,
                4,
            )
            .unwrap(),
            status::OK
        );
        let n = mem.read_i32(4).unwrap();
        let next = mem.read_i32(0).unwrap();
        if n == 0 {
            assert_eq!(next, -1);
            break;
        }
        let bytes = peek(&mem, 300, n);
        values.push(String::from_utf8(bytes[..(n - 1) as usize].to_vec()).unwrap());
        if next == -1 {
            break;
        }
        cursor = next;
    }
    assert_eq!(values, vec!["alpha", "midway", "zeta"]);
}

/// A log write validates the handle, reports the length, and hands the
/// message back for the endpoint.
#[test]
fn log_write_hands_message_back() {
    let mut session = fresh_session(vec![], b"");
    let mut mem = mem_1k();
    poke(&mut mem, 100, b"my_endpoint");
    assert_eq!(
        fastly_log::endpoint_get(&mut session, &mut mem, 100, 11, 0).unwrap(),
        status::OK
    );
    assert_eq!(session.endpoints[0].0, "my_endpoint");
    poke(&mut mem, 200, b"hello log");
    let (st, msg) = fastly_log::write(&mut session, &mut mem, 0, 200, 9, 0).unwrap();
    assert_eq!(st, status::OK);
    assert_eq!(msg.unwrap(), "hello log");
    assert_eq!(mem.read_i32(0).unwrap(), 9);
}

/// Routing: the geolocation name is privileged, configured names proxy with
/// the host header rewritten, and unknown names get the gateway error.
#[test]
fn routing_decides_three_ways() {
    let backends = vec![
        Backend { name: "api".to_string(), address: "api.internal".to_string() },
        Backend { name: "api".to_string(), address: "api.override".to_string() },
    ];
    assert!(matches!(route(&backends, &"geolocation".to_string()), Route::Geo));
    match route(&backends, &"api".to_string()) {
        Route::Proxy(host) => assert_eq!(host, "api.override"),
        _ => panic!("expected a proxy route"),
    }
    assert!(matches!(route(&backends, &"nope".to_string()), Route::Unknown));

    let (parts, body) = gateway_error(&"nope".to_string());
    assert_eq!(parts.status, 502);
    assert_eq!(String::from_utf8(body).unwrap(), "Unknown backend nope");

    let mut h = Headers::new();
    h.entries.push(Header { name: b"host".to_vec(), value: b"old.example".to_vec() });
    h.entries.push(Header { name: b"fastly-xqd-arg1".to_vec(), value: b"127.0.0.1".to_vec() });
    let req = ReqParts {
        method: b"POST".to_vec(),
        uri: b"http://old.example/x".to_vec(),
        version: HttpVersion::Http11,
        headers: h,
    };
    assert_eq!(geo_request_ip(&req).unwrap(), b"127.0.0.1".to_vec());
    let out = proxy_outbound(&req, &b"api.override".to_vec()).unwrap();
    assert_eq!(out.method, b"POST".to_vec());
    assert_eq!(out.uri, b"http://old.example/x".to_vec());
    let hosts: Vec<_> = out
        .headers
        .entries
        .iter()
        .filter(|e| e.name == b"host".to_vec())
        .map(|e| e.value.clone())
        .collect();
    assert_eq!(hosts, vec![b"api.override".to_vec()]);
}

/// The original downstream header names stay enumerable after the claim, in
/// ascending order.
#[test]
fn original_header_names_survive_claim() {
    let mut session = fresh_session(vec![("zulu", "1"), ("alpha", "2")], b"");
    let mut mem = mem_1k();
    assert_eq!(
        fastly_http_req::body_downstream_get(&mut session, &mut mem, 0, 4).unwrap(),
        status::OK
    );
    let mut names = Vec::new();
    let mut cursor = 0i32;
    loop {
        assert_eq!(
            fastly_http_req::original_header_names_get(&mut session, &mut mem, 300, 64, cursor, 0, 4)
                .unwrap(),
            status::OK
        );
        let n = mem.read_i32(4).unwrap();
        let next = mem.read_i32(0).unwrap();
        if n == 0 {
            assert_eq!(next, -1);
            break;
        }
        let bytes = peek(&mem, 300, n);
        names.push(String::from_utf8(bytes[..(n - 1) as usize].to_vec()).unwrap());
        if next == -1 {
            break;
        }
        cursor = next;
    }
    assert_eq!(names, vec!["alpha", "zulu"]);
}

/// Out-of-range guest addresses trap instead of touching anything.
#[test]
fn out_of_range_addresses_trap() {
    let mut session = fresh_session(vec![], b"");
    let mut mem = Memory::new(vec![0u8; 16]);
    assert_eq!(fastly_http_body::new(&mut session, &mut mem, 0).unwrap(), status::OK);
    // A read from beyond the end of memory.
    assert!(fastly_http_body::write(&mut session, &mut mem, 0, 999, 4, 0, 4).is_err());
    assert!(session.bodies[0].as_ref().unwrap().is_empty());
    // An out-pointer beyond the end of memory.
    assert!(fastly_http_body::write(&mut session, &mut mem, 0, 0, 4, 0, 999).is_err());
    assert!(session.bodies[0].as_ref().unwrap().is_empty());
    assert!(fastly_http_body::new(&mut session, &mut mem, 999).is_err());
    assert_eq!(session.bodies.len(), 1);
}

/// Absent product fields arrive as empty strings: their buffers get no bytes
/// and their counts are written as zero.
#[test]
fn parse_writes_absent_fields_as_empty() {
    let mut mem = mem_1k();
    // Counts pre-filled with garbage the call must overwrite.
    for off in [0, 4, 8, 12] {
        mem.write_i32(off, -9).unwrap();
    }
    let ua = b"curl/7.64";
    poke(&mut mem, 100, ua);
    assert_eq!(
        fasttime::fastly_uap::parse(
            &mut mem, 100, ua.len() as i32, 200, 32, 0, 240, 32, 4, 280, 32, 8, 320, 32, 12,
        )
        .unwrap(),
        status::OK
    );
    let family = String::from_utf8(peek(&mem, 200, mem.read_i32(0).unwrap())).unwrap();
    assert_eq!(family, "curl");
    assert_eq!(mem.read_i32(4).unwrap(), 1);
    assert_eq!(mem.read_i32(8).unwrap(), 2);
    // The patch is absent from the string, so its count is zero.
    assert_eq!(mem.read_i32(12).unwrap(), 0);

    // A string no rule matches falls back to the family name alone.
    for off in [0, 4, 8, 12] {
        mem.write_i32(off, -9).unwrap();
    }
    let ua = b"just some text";
    poke(&mut mem, 100, ua);
    assert_eq!(
        fasttime::fastly_uap::parse(
            &mut mem, 100, ua.len() as i32, 200, 32, 0, 240, 32, 4, 280, 32, 8, 320, 32, 12,
        )
        .unwrap(),
        status::OK
    );
    let family = String::from_utf8(peek(&mem, 200, mem.read_i32(0).unwrap())).unwrap();
    assert_eq!(family, "Other");
    assert_eq!(mem.read_i32(4).unwrap(), 0);
    assert_eq!(mem.read_i32(8).unwrap(), 0);
    assert_eq!(mem.read_i32(12).unwrap(), 0);
}
