//! Per-request session state: the downstream request, the handle-indexed
//! tables of request parts, response parts, bodies, dictionary snapshots and
//! log endpoints, and the final response slot.
//!
//! Handles are dense indices into the tables. A table slot is consumed (set
//! to `None`) by `send` and `send_downstream`; a consumed or out-of-range
//! handle is reported as a bad handle, and handles never shift.

use crate::dictionary::{Dictionary, DictionaryView};
use crate::headers::{headers_wf, Headers};
use crate::http::{req_parts_wf, resp_parts_wf, ReqParts, ReqPartsView, RespParts, RespPartsView};
use vstd::prelude::*;

verus! {

/// A named sink for guest log messages.
#[derive(Debug)]
pub struct Endpoint(pub String);

impl View for Endpoint {
    type V = Seq<char>;

    open spec fn view(&self) -> Seq<char> {
        self.0@
    }
}

/// The downstream request while it has not been claimed by the guest.
pub struct Downstream {
    pub parts: ReqParts,
    pub body: Vec<u8>,
}

/// The final response installed by `send_downstream`.
pub struct FinalResponse {
    pub parts: RespParts,
    pub body: Vec<u8>,
}

/// The per-request session state.
pub struct Session {
    /// The downstream request, until `body_downstream_get` consumes it.
    pub downstream: Option<Downstream>,
    /// A snapshot of the downstream request's headers, for the
    /// `original_header` calls.
    pub original_headers: Headers,
    /// The client address: four octets for IPv4, sixteen for IPv6.
    pub client_ip: Vec<u8>,
    /// Request parts by handle; a consumed slot is `None`.
    pub requests: Vec<Option<ReqParts>>,
    /// Response parts by handle; a consumed slot is `None`.
    pub responses: Vec<Option<RespParts>>,
    /// Body buffers by handle; a consumed slot is `None`.
    pub bodies: Vec<Option<Vec<u8>>>,
    /// Dictionary snapshots by handle.
    pub dictionaries: Vec<Dictionary>,
    /// Log endpoints by handle.
    pub endpoints: Vec<Endpoint>,
    /// The final response, once `send_downstream` has installed one.
    pub response: Option<FinalResponse>,
}

/// The mathematical value of a session.
#[verifier::ext_equal]
pub struct SessionView {
    pub downstream: Option<(ReqPartsView, Seq<u8>)>,
    pub original_headers: Seq<(Seq<u8>, Seq<u8>)>,
    pub client_ip: Seq<u8>,
    pub requests: Seq<Option<ReqPartsView>>,
    pub responses: Seq<Option<RespPartsView>>,
    pub bodies: Seq<Option<Seq<u8>>>,
    pub dictionaries: Seq<DictionaryView>,
    pub endpoints: Seq<Seq<char>>,
    pub response: Option<(RespPartsView, Seq<u8>)>,
}

impl View for Session {
    type V = SessionView;

    open spec fn view(&self) -> SessionView {
        SessionView {
            downstream: match self.downstream {
                Some(d) => Some((d.parts@, d.body@)),
                None => None,
            },
            original_headers: self.original_headers@,
            client_ip: self.client_ip@,
            requests: Seq::new(
                self.requests@.len(),
                |i: int|
                    match self.requests@[i] {
                        Some(r) => Some(r@),
                        None => None,
                    },
            ),
            responses: Seq::new(
                self.responses@.len(),
                |i: int|
                    match self.responses@[i] {
                        Some(r) => Some(r@),
                        None => None,
                    },
            ),
            bodies: Seq::new(
                self.bodies@.len(),
                |i: int|
                    match self.bodies@[i] {
                        Some(b) => Some(b@),
                        None => None,
                    },
            ),
            dictionaries: Seq::new(self.dictionaries@.len(), |i: int| self.dictionaries@[i]@),
            endpoints: Seq::new(self.endpoints@.len(), |i: int| self.endpoints@[i]@),
            response: match self.response {
                Some(f) => Some((f.parts@, f.body@)),
                None => None,
            },
        }
    }
}

impl SessionView {
    /// Every request and response held anywhere in the session is
    /// well-formed, and the client address has an address's length.
    pub open spec fn wf(self) -> bool {
        &&& (self.downstream matches Some(d) ==> req_parts_wf(d.0))
        &&& headers_wf(self.original_headers)
        &&& (self.client_ip.len() == 4 || self.client_ip.len() == 16)
        &&& (forall|i: int|
            0 <= i < self.requests.len() ==> (#[trigger] self.requests[i] matches Some(r)
                ==> req_parts_wf(r)))
        &&& (forall|i: int|
            0 <= i < self.responses.len() ==> (#[trigger] self.responses[i] matches Some(r)
                ==> resp_parts_wf(r)))
        &&& (self.response matches Some(f) ==> resp_parts_wf(f.0))
    }

    /// A request handle addressing a live slot.
    pub open spec fn req_handle_ok(self, h: i32) -> bool {
        0 <= h < self.requests.len() && self.requests[h as int] is Some
    }

    /// A response handle addressing a live slot.
    pub open spec fn resp_handle_ok(self, h: i32) -> bool {
        0 <= h < self.responses.len() && self.responses[h as int] is Some
    }

    /// A body handle addressing a live slot.
    pub open spec fn body_handle_ok(self, h: i32) -> bool {
        0 <= h < self.bodies.len() && self.bodies[h as int] is Some
    }

    /// A dictionary handle addressing a slot.
    pub open spec fn dict_handle_ok(self, h: i32) -> bool {
        0 <= h < self.dictionaries.len()
    }

    /// An endpoint handle addressing a slot.
    pub open spec fn endpoint_handle_ok(self, h: i32) -> bool {
        0 <= h < self.endpoints.len()
    }

    /// This session with the request table replaced.
    pub open spec fn with_requests(self, requests: Seq<Option<ReqPartsView>>) -> SessionView {
        (SessionView { requests, ..self })
    }

    /// This session with the response table replaced.
    pub open spec fn with_responses(self, responses: Seq<Option<RespPartsView>>) -> SessionView {
        (SessionView { responses, ..self })
    }

    /// This session with the body table replaced.
    pub open spec fn with_bodies(self, bodies: Seq<Option<Seq<u8>>>) -> SessionView {
        (SessionView { bodies, ..self })
    }

    /// This session with the dictionary table replaced.
    pub open spec fn with_dictionaries(self, dictionaries: Seq<DictionaryView>) -> SessionView {
        (SessionView { dictionaries, ..self })
    }

    /// This session with the endpoint table replaced.
    pub open spec fn with_endpoints(self, endpoints: Seq<Seq<char>>) -> SessionView {
        (SessionView { endpoints, ..self })
    }
}

impl Session {
    /// Builds the session for one downstream request. The request's headers
    /// are snapshotted for the `original_header` calls.
    pub fn new(parts: ReqParts, body: Vec<u8>, client_ip: Vec<u8>) -> (r: Session)
        requires
            parts.wf(),
            client_ip@.len() == 4 || client_ip@.len() == 16,
        ensures
            r@.downstream == Some((parts@, body@)),
            r@.original_headers == parts@.headers,
            r@.client_ip == client_ip@,
            r@.requests == Seq::<Option<ReqPartsView>>::empty(),
            r@.responses == Seq::<Option<RespPartsView>>::empty(),
            r@.bodies == Seq::<Option<Seq<u8>>>::empty(),
            r@.dictionaries == Seq::<DictionaryView>::empty(),
            r@.endpoints == Seq::<Seq<char>>::empty(),
            r@.response is None,
            r@.wf(),
    {
        let original_headers = parts.headers.duplicate();
        let r = Session {
            downstream: Some(Downstream { parts, body }),
            original_headers,
            client_ip,
            requests: Vec::new(),
            responses: Vec::new(),
            bodies: Vec::new(),
            dictionaries: Vec::new(),
            endpoints: Vec::new(),
            response: None,
        };
        proof {
            assert(r@.requests =~= Seq::<Option<ReqPartsView>>::empty());
            assert(r@.responses =~= Seq::<Option<RespPartsView>>::empty());
            assert(r@.bodies =~= Seq::<Option<Seq<u8>>>::empty());
            assert(r@.dictionaries =~= Seq::<DictionaryView>::empty());
            assert(r@.endpoints =~= Seq::<Seq<char>>::empty());
        }
        r
    }

    /// Takes the final response out of the session: what `send_downstream`
    /// installed, or the blank `200` response with an empty body when the
    /// guest never sent one.
    pub fn finish(self) -> (r: (RespParts, Vec<u8>))
        ensures
            self@.response matches Some(f) ==> r.0@ == f.0 && r.1@ == f.1,
            self@.response is None ==> r.0@ == RespParts::blank_view() && r.1@ == Seq::<u8>::empty(),
            self@.wf() ==> r.0.wf(),
    {
        match self.response {
            Some(f) => (f.parts, f.body),
            None => (RespParts::blank(), Vec::new()),
        }
    }
}

/// Acknowledges the guest's ABI version advertisement; the version is
/// advisory.
pub fn abi_init(version: i64) -> (r: i32)
    ensures
        r == crate::status::OK,
{
    let _ = version;
    crate::status::OK
}

/// Where a session's guest execution stands.
#[derive(Clone, Copy, PartialEq, Eq, Structural, Debug)]
pub enum ExecState {
    /// Built, the module not yet entered.
    Fresh,
    /// The module's entry point is running.
    Running,
    /// The entry point returned normally.
    Completed,
    /// The guest trapped, or a host call trapped it.
    Trapped,
}

/// What happened to a running session.
#[derive(Clone, Copy, PartialEq, Eq, Structural, Debug)]
pub enum ExecEvent {
    /// The entry point was invoked.
    Start,
    /// The entry point returned normally.
    Return,
    /// The guest trapped.
    Trap,
}

/// The lifecycle of one session: fresh, then running, then completed or
/// trapped; any other transition is refused.
pub fn lifecycle_step(state: ExecState, event: ExecEvent) -> (r: Option<ExecState>)
    ensures
        r == match (state, event) {
            (ExecState::Fresh, ExecEvent::Start) => Some(ExecState::Running),
            (ExecState::Running, ExecEvent::Return) => Some(ExecState::Completed),
            (ExecState::Running, ExecEvent::Trap) => Some(ExecState::Trapped),
            _ => None::<ExecState>,
        },
{
    match (state, event) {
        (ExecState::Fresh, ExecEvent::Start) => Some(ExecState::Running),
        (ExecState::Running, ExecEvent::Return) => Some(ExecState::Completed),
        (ExecState::Running, ExecEvent::Trap) => Some(ExecState::Trapped),
        _ => None,
    }
}

} // verus!
