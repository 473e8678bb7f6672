//! Request and response parts, and the HTTP version enum of the host-call
//! ABI.

use crate::headers::{headers_wf, Headers};
use vstd::prelude::*;

verus! {

/// The HTTP versions the ABI distinguishes, marshalled as a 32-bit code.
#[derive(Clone, Copy, PartialEq, Eq, Structural, Debug)]
pub enum HttpVersion {
    Http09,
    Http10,
    Http11,
    H2,
    H3,
}

impl HttpVersion {
    /// The 32-bit code of this version on the wire.
    pub open spec fn spec_code(self) -> u32 {
        match self {
            HttpVersion::Http09 => 0,
            HttpVersion::Http10 => 1,
            HttpVersion::Http11 => 2,
            HttpVersion::H2 => 3,
            HttpVersion::H3 => 4,
        }
    }

    /// Marshals the version to its 32-bit code.
    pub fn as_u32(self) -> (r: u32)
        ensures
            r == self.spec_code(),
    {
        match self {
            HttpVersion::Http09 => 0,
            HttpVersion::Http10 => 1,
            HttpVersion::Http11 => 2,
            HttpVersion::H2 => 3,
            HttpVersion::H3 => 4,
        }
    }

    /// Unmarshals a 32-bit code; codes above 4 are unknown.
    pub fn from_u32(code: u32) -> (r: Option<HttpVersion>)
        ensures
            r is Some <==> code <= 4,
            r matches Some(v) ==> v.spec_code() == code,
    {
        if code == 0 {
            Some(HttpVersion::Http09)
        } else if code == 1 {
            Some(HttpVersion::Http10)
        } else if code == 2 {
            Some(HttpVersion::Http11)
        } else if code == 3 {
            Some(HttpVersion::H2)
        } else if code == 4 {
            Some(HttpVersion::H3)
        } else {
            None
        }
    }
}

/// A method token byte: the bytes an HTTP method may consist of.
pub open spec fn valid_method_byte(b: u8) -> bool {
    ||| b == 33
    ||| b == 42
    ||| b == 43
    ||| b == 45
    ||| b == 46
    ||| 48 <= b <= 57
    ||| 65 <= b <= 90
    ||| 94 <= b <= 96
    ||| 97 <= b <= 122
    ||| b == 124
    ||| b == 126
}

/// Bytes accepted as an HTTP method: nonempty, all token bytes.
pub open spec fn method_ok(s: Seq<u8>) -> bool {
    s.len() >= 1 && forall|i: int| 0 <= i < s.len() ==> valid_method_byte(#[trigger] s[i])
}

/// The modifiable parts of a request: method, URI, version and headers.
pub struct ReqParts {
    pub method: Vec<u8>,
    pub uri: Vec<u8>,
    pub version: HttpVersion,
    pub headers: Headers,
}

/// The mathematical value of a request's parts.
#[verifier::ext_equal]
pub struct ReqPartsView {
    pub method: Seq<u8>,
    pub uri: Seq<u8>,
    pub version: HttpVersion,
    pub headers: Seq<(Seq<u8>, Seq<u8>)>,
}

impl View for ReqParts {
    type V = ReqPartsView;

    open spec fn view(&self) -> ReqPartsView {
        ReqPartsView {
            method: self.method@,
            uri: self.uri@,
            version: self.version,
            headers: self.headers@,
        }
    }
}

/// The method is a token and the headers are well-formed.
pub open spec fn req_parts_wf(r: ReqPartsView) -> bool {
    method_ok(r.method) && headers_wf(r.headers)
}

impl ReqParts {
    /// The method is a token and the headers are well-formed.
    pub open spec fn wf(&self) -> bool {
        req_parts_wf(self@)
    }

    /// A blank request: `GET /` over HTTP/1.1 with no headers.
    pub fn blank() -> (r: ReqParts)
        ensures
            r@.method == seq![71u8, 69u8, 84u8],
            r@.uri == seq![47u8],
            r@.version == HttpVersion::Http11,
            r@.headers == Seq::<(Seq<u8>, Seq<u8>)>::empty(),
            r.wf(),
    {
        let mut method: Vec<u8> = Vec::new();
        method.push(71);
        method.push(69);
        method.push(84);
        let mut uri: Vec<u8> = Vec::new();
        uri.push(47);
        proof {
            assert(method@ =~= seq![71u8, 69u8, 84u8]);
            assert(uri@ =~= seq![47u8]);
        }
        ReqParts { method, uri, version: HttpVersion::Http11, headers: Headers::new() }
    }
}

/// The modifiable parts of a response: status, version and headers.
pub struct RespParts {
    pub status: u16,
    pub version: HttpVersion,
    pub headers: Headers,
}

/// The mathematical value of a response's parts.
#[verifier::ext_equal]
pub struct RespPartsView {
    pub status: u16,
    pub version: HttpVersion,
    pub headers: Seq<(Seq<u8>, Seq<u8>)>,
}

impl View for RespParts {
    type V = RespPartsView;

    open spec fn view(&self) -> RespPartsView {
        RespPartsView { status: self.status, version: self.version, headers: self.headers@ }
    }
}

/// The status is a registered three-digit code and the headers are
/// well-formed.
pub open spec fn resp_parts_wf(r: RespPartsView) -> bool {
    100 <= r.status <= 999 && headers_wf(r.headers)
}

impl RespParts {
    /// The status is a registered three-digit code and the headers are
    /// well-formed.
    pub open spec fn wf(&self) -> bool {
        resp_parts_wf(self@)
    }

    /// The value of the blank response: `200` over HTTP/1.1 with no headers.
    pub open spec fn blank_view() -> RespPartsView {
        RespPartsView {
            status: 200,
            version: HttpVersion::Http11,
            headers: Seq::<(Seq<u8>, Seq<u8>)>::empty(),
        }
    }

    /// A blank response: `200` over HTTP/1.1 with no headers.
    pub fn blank() -> (r: RespParts)
        ensures
            r@ == RespParts::blank_view(),
            r.wf(),
    {
        let r = RespParts { status: 200, version: HttpVersion::Http11, headers: Headers::new() };
        proof {
            assert(r@ =~= RespParts::blank_view());
        }
        r
    }
}

} // verus!
