//! Backend routing for `send`: the privileged geolocation backend, the
//! configured name-to-host table, and the gateway-error fallback for an
//! unknown name. The network I/O of a proxied request is the embedder's; the
//! routing decision, the outbound request rewrite and the fallback response
//! are built and verified here.

use crate::dictionary::spec_dict_lookup;
use crate::headers::{name_is_not, spec_values_of, valid_value, Headers};
use crate::http::{ReqParts, ReqPartsView, RespParts};
use vstd::prelude::*;
use vstd::string::StrSliceExecFns;
use vstd::string::StringExecFns;
use vstd::utf8::encode_utf8;

verus! {

/// One configured backend: a name and the host it proxies to.
pub struct Backend {
    pub name: String,
    pub address: String,
}

impl View for Backend {
    type V = (Seq<char>, Seq<char>);

    open spec fn view(&self) -> (Seq<char>, Seq<char>) {
        (self.name@, self.address@)
    }
}

/// The element-wise views of a backend table.
pub open spec fn backend_views(backends: Seq<Backend>) -> Seq<(Seq<char>, Seq<char>)> {
    Seq::new(backends.len(), |i: int| backends[i]@)
}

/// Where a `send` goes: to the synthetic geolocation responder, to the host
/// configured for the name, or to the gateway-error fallback.
pub enum Route {
    /// The privileged name for the geolocation responder.
    Geo,
    /// A configured backend; the payload is its host.
    Proxy(String),
    /// No backend of that name is configured.
    Unknown,
}

/// The address of the last configured backend with the given name, if any:
/// a table built by insertion, where a later entry overrides an earlier one.
pub open spec fn spec_backend_lookup(backends: Seq<Backend>, name: Seq<char>) -> Option<Seq<char>> {
    spec_dict_lookup(backend_views(backends), name)
}

/// Decides where a `send` to `name` goes: the name `geolocation` is
/// privileged, any other name is looked up in the configured table, and an
/// unknown name falls through to the gateway error.
pub fn route(backends: &Vec<Backend>, name: &String) -> (r: Route)
    ensures
        name@ == "geolocation"@ ==> r is Geo,
        name@ != "geolocation"@ ==> match spec_backend_lookup(backends@, name@) {
            Some(addr) => r matches Route::Proxy(a) && a@ == addr,
            None => r is Unknown,
        },
{
    let geo_name: String = <String as StringExecFns>::from_str("geolocation");
    if *name == geo_name {
        return Route::Geo;
    }
    let ghost bviews = backend_views(backends@);
    let mut found: Option<&String> = None;
    let mut i: usize = 0;
    proof {
        assert(bviews.take(0) =~= Seq::<(Seq<char>, Seq<char>)>::empty());
    }
    while i < backends.len()
        invariant
            i <= backends@.len(),
            bviews == backend_views(backends@),
            bviews.len() == backends@.len(),
            match found {
                Some(a) => spec_dict_lookup(bviews.take(i as int), name@) == Some(a@),
                None => spec_dict_lookup(bviews.take(i as int), name@) is None,
            },
        decreases backends@.len() - i,
    {
        let b = &backends[i];
        proof {
            assert(bviews[i as int] == (b.name@, b.address@));
            assert(bviews.take(i + 1).drop_last() =~= bviews.take(i as int));
            assert(bviews.take(i + 1).last() == bviews[i as int]);
        }
        if b.name == *name {
            found = Some(&b.address);
        }
        i = i + 1;
    }
    proof {
        assert(bviews.take(bviews.len() as int) =~= bviews);
    }
    match found {
        Some(a) => Route::Proxy(a.clone()),
        None => Route::Unknown,
    }
}

/// The text of the gateway-error body for an unknown backend name.
pub open spec fn spec_gateway_error_text(name: Seq<char>) -> Seq<char> {
    "Unknown backend "@ + name
}

/// The fallback response for an unknown backend: status 502 with the body
/// naming the backend.
pub fn gateway_error(name: &String) -> (r: (RespParts, Vec<u8>))
    ensures
        r.0@.status == 502,
        r.0@.headers == Seq::<(Seq<u8>, Seq<u8>)>::empty(),
        r.0.wf(),
        r.1@ == encode_utf8(spec_gateway_error_text(name@)),
{
    let mut text: String = <String as StringExecFns>::from_str("Unknown backend ");
    text.append(name.as_str());
    let body = text.as_str().as_bytes_vec();
    let mut parts = RespParts::blank();
    parts.status = 502;
    (parts, body)
}

/// The stored lowercase name of the header carrying the geolocation target
/// address.
pub open spec fn geo_ip_header_name() -> Seq<u8> {
    seq![
        102u8,
        97u8,
        115u8,
        116u8,
        108u8,
        121u8,
        45u8,
        120u8,
        113u8,
        100u8,
        45u8,
        97u8,
        114u8,
        103u8,
        49u8,
    ]
}

/// The textual client address a geolocation request carries: the first value
/// of its target-address header, if any.
pub fn geo_request_ip(parts: &ReqParts) -> (r: Option<Vec<u8>>)
    ensures
        r matches Some(v) ==> spec_values_of(parts@.headers, geo_ip_header_name()).len() > 0 && v@
            == spec_values_of(parts@.headers, geo_ip_header_name())[0],
        r is None ==> spec_values_of(parts@.headers, geo_ip_header_name()).len() == 0,
{
    let mut name: Vec<u8> = Vec::new();
    name.push(102);
    name.push(97);
    name.push(115);
    name.push(116);
    name.push(108);
    name.push(121);
    name.push(45);
    name.push(120);
    name.push(113);
    name.push(100);
    name.push(45);
    name.push(97);
    name.push(114);
    name.push(103);
    name.push(49);
    proof {
        assert(name@ =~= geo_ip_header_name());
    }
    parts.headers.first_value_of(&name)
}

/// The stored lowercase name of the host header.
pub open spec fn host_header_name() -> Seq<u8> {
    seq![104u8, 111u8, 115u8, 116u8]
}

/// The host header's name is a stored header name.
pub proof fn lemma_host_name_valid()
    ensures
        crate::headers::valid_name(host_header_name()),
{
    let n = host_header_name();
    assert(n.len() == 4);
    assert forall|i: int| 0 <= i < n.len() implies crate::headers::valid_name_byte(
        #[trigger] n[i],
    ) by {
        if i == 0 {
            assert(n[0] == 104u8);
        } else if i == 1 {
            assert(n[1] == 111u8);
        } else if i == 2 {
            assert(n[2] == 115u8);
        } else {
            assert(n[3] == 116u8);
        }
    }
}

/// The outbound form of a proxied request: method, URI, version and headers
/// preserved, with the host header replaced by the configured backend host.
/// A host that is not a valid header value yields nothing, and the dispatch
/// fails.
pub fn proxy_outbound(parts: &ReqParts, host: &Vec<u8>) -> (r: Option<ReqParts>)
    ensures
        r is Some <==> valid_value(host@),
        r matches Some(p) ==> p@ == (ReqPartsView {
            headers: parts@.headers.filter(name_is_not(host_header_name())).push(
                (host_header_name(), host@),
            ),
            ..parts@
        }),
        r matches Some(p) ==> (parts.wf() ==> p.wf()),
{
    let checked_host = match crate::parse::parse_header_value(host.as_slice()) {
        Some(v) => v,
        None => {
            return None;
        },
    };
    let mut name: Vec<u8> = Vec::new();
    name.push(104);
    name.push(111);
    name.push(115);
    name.push(116);
    proof {
        assert(name@ =~= host_header_name());
    }
    let mut headers: Headers = parts.headers.without_name(&name);
    proof {
        lemma_host_name_valid();
    }
    headers.append(name, checked_host);
    let method = vstd::slice::slice_to_vec(parts.method.as_slice());
    let uri = vstd::slice::slice_to_vec(parts.uri.as_slice());
    let r = ReqParts { method, uri, version: parts.version, headers };
    proof {
        assert(r@ =~= (ReqPartsView {
            headers: parts@.headers.filter(name_is_not(host_header_name())).push(
                (host_header_name(), host@),
            ),
            ..parts@
        }));
    }
    Some(r)
}

} // verus!
