//! The `fastly_http_req` host calls: claim the downstream request, allocate
//! requests, get and set method, URI and version, enumerate and append
//! headers, read the original downstream headers and the client address, and
//! the two session-side halves of `send` around backend dispatch.

use crate::cursor::{cursor_write, spec_cursor_mem, spec_cursor_writes_ok};
use crate::headers::{
    header_name_ok, lemma_name_ok_lower, lower_bytes, spec_sorted_names, spec_sorted_values,
    valid_value,
};
use crate::http::{method_ok, HttpVersion, ReqParts, ReqPartsView, RespParts};
use crate::memory::{
    spec_read_len, spec_store_i32, spec_store_u32, spec_write_bytes, spec_write_len, Memory,
};
use crate::parse::{uri_canon, uri_ok};
use crate::session::{Session, SessionView};
use crate::status::{self, Trap};
use vstd::prelude::*;
use vstd::std_specs::vec::vec_index_mut;
use vstd::utf8::{decode_utf8, valid_utf8};

verus! {

/// Claims the downstream request: its parts are appended to the request table
/// and its body to the body table, and the request-table index is written
/// through both out-pointers. The call is a one-shot: once the downstream
/// request has been consumed, a second call traps.
pub fn body_downstream_get(
    session: &mut Session,
    mem: &mut Memory,
    request_handle_out: i32,
    body_handle_out: i32,
) -> (r: Result<i32, Trap>)
    requires
        old(session)@.requests.len() < 0x7fffffff,
    ensures
        old(session)@.downstream is None ==> r == Err::<i32, Trap>(Trap::DownstreamAbsent)
            && final(session)@ == old(session)@ && final(mem)@ == old(mem)@,
        old(session)@.downstream matches Some(d) ==> ({
            let write_ok = 0 <= request_handle_out && request_handle_out + 4 <= old(mem)@.len() && 0
                <= body_handle_out && body_handle_out + 4 <= old(mem)@.len();
            &&& (!write_ok ==> r == Err::<i32, Trap>(Trap::MemoryWrite) && final(session)@ == old(
                session,
            )@ && final(mem)@ == old(mem)@)
            &&& (write_ok ==> r == Ok::<i32, Trap>(status::OK) && final(session)@ == (SessionView {
                downstream: None,
                requests: old(session)@.requests.push(Some(d.0)),
                bodies: old(session)@.bodies.push(Some(d.1)),
                ..old(session)@
            }) && final(mem)@ == spec_store_i32(
                spec_store_i32(
                    old(mem)@,
                    request_handle_out as int,
                    old(session)@.requests.len() as i32,
                ),
                body_handle_out as int,
                old(session)@.requests.len() as i32,
            ))
        }),
        old(session)@.wf() ==> final(session)@.wf(),
{
    if session.downstream.is_none() {
        return Err(Trap::DownstreamAbsent);
    }
    let msize = mem.size();
    if request_handle_out < 0 || msize < 4 || (request_handle_out as usize) > msize - 4 {
        return Err(Trap::MemoryWrite);
    }
    if body_handle_out < 0 || (body_handle_out as usize) > msize - 4 {
        return Err(Trap::MemoryWrite);
    }
    let d = match session.downstream.take() {
        Some(d) => d,
        None => {
            return Err(Trap::DownstreamAbsent);
        },
    };
    let index = session.requests.len();
    session.requests.push(Some(d.parts));
    session.bodies.push(Some(d.body));
    let w1 = mem.write_i32(request_handle_out, index as i32);
    let w2 = mem.write_i32(body_handle_out, index as i32);
    proof {
        assert(w1 is Ok && w2 is Ok);
        let dv = old(session)@.downstream.unwrap();
        assert(session@ =~~= (SessionView {
            downstream: None,
            requests: old(session)@.requests.push(Some(dv.0)),
            bodies: old(session)@.bodies.push(Some(dv.1)),
            ..old(session)@
        }));
    }
    Ok(status::OK)
}

/// Appends a blank request to the request table and writes the new handle —
/// the table length before the append — through `handle_out`.
pub fn new(session: &mut Session, mem: &mut Memory, handle_out: i32) -> (r: Result<i32, Trap>)
    requires
        old(session)@.requests.len() < 0x7fffffff,
    ensures
        r matches Ok(st) ==> st == status::OK,
        r is Ok <==> 0 <= handle_out && handle_out + 4 <= old(mem)@.len(),
        r is Ok ==> final(session)@ == old(session)@.with_requests(
            old(session)@.requests.push(
                Some(
                    (ReqPartsView {
                        method: seq![71u8, 69u8, 84u8],
                        uri: seq![47u8],
                        version: HttpVersion::Http11,
                        headers: Seq::<(Seq<u8>, Seq<u8>)>::empty(),
                    }),
                ),
            ),
        ),
        r is Ok ==> final(mem)@ == spec_store_i32(
            old(mem)@,
            handle_out as int,
            old(session)@.requests.len() as i32,
        ),
        r matches Err(t) ==> t == Trap::MemoryWrite && final(session)@ == old(session)@
            && final(mem)@ == old(mem)@,
        old(session)@.wf() ==> final(session)@.wf(),
{
    let msize = mem.size();
    if handle_out < 0 || msize < 4 || (handle_out as usize) > msize - 4 {
        return Err(Trap::MemoryWrite);
    }
    let index = session.requests.len();
    session.requests.push(Some(ReqParts::blank()));
    let w = mem.write_i32(handle_out, index as i32);
    proof {
        assert(w is Ok);
        assert(session@ =~~= old(session)@.with_requests(
            old(session)@.requests.push(
                Some(
                    (ReqPartsView {
                        method: seq![71u8, 69u8, 84u8],
                        uri: seq![47u8],
                        version: HttpVersion::Http11,
                        headers: Seq::<(Seq<u8>, Seq<u8>)>::empty(),
                    }),
                ),
            ),
        ));
    }
    Ok(status::OK)
}

/// Writes the method of the request at `handle` into guest memory at `addr`,
/// bounded by the end of memory, and the count written through
/// `nwritten_out`. A bad handle is reported with the bad-handle status and
/// changes nothing.
pub fn method_get(
    session: &mut Session,
    mem: &mut Memory,
    handle: i32,
    addr: i32,
    maxlen: i32,
    nwritten_out: i32,
) -> (r: Result<i32, Trap>)
    requires
        old(mem)@.len() <= 0x7fffffff,
    ensures
        final(session)@ == old(session)@,
        !old(session)@.req_handle_ok(handle) ==> r == Ok::<i32, Trap>(status::BADF) && final(mem)@
            == old(mem)@,
        old(session)@.req_handle_ok(handle) ==> ({
            let method = old(session)@.requests[handle as int].unwrap().method;
            let n = spec_write_len(old(mem)@.len() as int, addr as int, method.len() as int);
            let write_ok = 0 <= addr <= old(mem)@.len() && 0 <= nwritten_out && nwritten_out + 4
                <= old(mem)@.len();
            &&& (!write_ok ==> r == Err::<i32, Trap>(Trap::MemoryWrite) && final(mem)@ == old(mem)@)
            &&& (write_ok ==> r == Ok::<i32, Trap>(status::OK) && final(mem)@ == spec_store_u32(
                spec_write_bytes(old(mem)@, addr as int, method),
                nwritten_out as int,
                n as u32,
            ))
        }),
{
    let _ = maxlen;
    if handle < 0 || (handle as usize) >= session.requests.len() {
        return Ok(status::BADF);
    }
    let msize = mem.size();
    match &session.requests[handle as usize] {
        Some(req) => {
            if addr < 0 || (addr as usize) > msize {
                return Err(Trap::MemoryWrite);
            }
            if nwritten_out < 0 || msize < 4 || (nwritten_out as usize) > msize - 4 {
                return Err(Trap::MemoryWrite);
            }
            let written = match mem.write_bytes(addr, req.method.as_slice()) {
                Ok(n) => n,
                Err(t) => {
                    return Err(t);
                },
            };
            let w = mem.write_u32(nwritten_out, written as u32);
            proof {
                assert(w is Ok);
            }
            Ok(status::OK)
        },
        None => Ok(status::BADF),
    }
}

/// Sets the method of the request at `handle` from the bytes at
/// `(addr, size)`. Bytes that are not a method token are reported with the
/// parse-failure status; a bad handle with the bad-handle status; neither
/// changes anything.
pub fn method_set(session: &mut Session, mem: &mut Memory, handle: i32, addr: i32, size: i32) -> (r:
    Result<i32, Trap>)
    ensures
        final(mem)@ == old(mem)@,
        !old(session)@.req_handle_ok(handle) ==> r == Ok::<i32, Trap>(status::BADF) && final(session)@
            == old(session)@,
        old(session)@.req_handle_ok(handle) ==> ({
            let raw = old(mem)@.subrange(
                addr as int,
                addr + spec_read_len(old(mem)@.len() as int, addr as int, size as int),
            );
            let read_ok = 0 <= addr <= old(mem)@.len() && 0 <= size;
            &&& (!read_ok ==> r == Err::<i32, Trap>(Trap::MemoryRead) && final(session)@ == old(
                session,
            )@)
            &&& (read_ok && !method_ok(raw) ==> r == Ok::<i32, Trap>(status::HTTPPARSE)
                && final(session)@ == old(session)@)
            &&& (read_ok && method_ok(raw) ==> r == Ok::<i32, Trap>(status::OK) && final(session)@
                == old(session)@.with_requests(
                old(session)@.requests.update(
                    handle as int,
                    Some(
                        (ReqPartsView {
                            method: raw,
                            ..old(session)@.requests[handle as int].unwrap()
                        }),
                    ),
                ),
            ))
        }),
        old(session)@.wf() ==> final(session)@.wf(),
{
    if handle < 0 || (handle as usize) >= session.requests.len() {
        return Ok(status::BADF);
    }
    let is_live = session.requests[handle as usize].is_some();
    if !is_live {
        return Ok(status::BADF);
    }
    let msize = mem.size();
    if addr < 0 || size < 0 || (addr as usize) > msize {
        return Err(Trap::MemoryRead);
    }
    let (_, raw) = match mem.read_bytes(addr, size) {
        Ok(v) => v,
        Err(t) => {
            return Err(t);
        },
    };
    let method = match crate::parse::parse_method(raw.as_slice()) {
        Some(m) => m,
        None => {
            return Ok(status::HTTPPARSE);
        },
    };
    let slot = vec_index_mut(&mut session.requests, handle as usize);
    match slot {
        Some(req) => {
            req.method = method;
        },
        None => {
            return Ok(status::BADF);
        },
    }
    proof {
        assert(session@ =~~= old(session)@.with_requests(
            old(session)@.requests.update(
                handle as int,
                Some(
                    (ReqPartsView {
                        method: old(mem)@.subrange(
                            addr as int,
                            addr + spec_read_len(old(mem)@.len() as int, addr as int, size as int),
                        ),
                        ..old(session)@.requests[handle as int].unwrap()
                    }),
                ),
            ),
        ));
    }
    Ok(status::OK)
}

/// Writes the URI text of the request at `handle` into guest memory at
/// `addr`, bounded by the end of memory, and the count written through
/// `nwritten_out`. A bad handle is reported with the bad-handle status and
/// changes nothing.
pub fn uri_get(
    session: &mut Session,
    mem: &mut Memory,
    handle: i32,
    addr: i32,
    maxlen: i32,
    nwritten_out: i32,
) -> (r: Result<i32, Trap>)
    requires
        old(mem)@.len() <= 0x7fffffff,
    ensures
        final(session)@ == old(session)@,
        !old(session)@.req_handle_ok(handle) ==> r == Ok::<i32, Trap>(status::BADF) && final(mem)@
            == old(mem)@,
        old(session)@.req_handle_ok(handle) ==> ({
            let uri = old(session)@.requests[handle as int].unwrap().uri;
            let n = spec_write_len(old(mem)@.len() as int, addr as int, uri.len() as int);
            let write_ok = 0 <= addr <= old(mem)@.len() && 0 <= nwritten_out && nwritten_out + 4
                <= old(mem)@.len();
            &&& (!write_ok ==> r == Err::<i32, Trap>(Trap::MemoryWrite) && final(mem)@ == old(mem)@)
            &&& (write_ok ==> r == Ok::<i32, Trap>(status::OK) && final(mem)@ == spec_store_u32(
                spec_write_bytes(old(mem)@, addr as int, uri),
                nwritten_out as int,
                n as u32,
            ))
        }),
{
    let _ = maxlen;
    if handle < 0 || (handle as usize) >= session.requests.len() {
        return Ok(status::BADF);
    }
    let msize = mem.size();
    match &session.requests[handle as usize] {
        Some(req) => {
            if addr < 0 || (addr as usize) > msize {
                return Err(Trap::MemoryWrite);
            }
            if nwritten_out < 0 || msize < 4 || (nwritten_out as usize) > msize - 4 {
                return Err(Trap::MemoryWrite);
            }
            let written = match mem.write_bytes(addr, req.uri.as_slice()) {
                Ok(n) => n,
                Err(t) => {
                    return Err(t);
                },
            };
            let w = mem.write_u32(nwritten_out, written as u32);
            proof {
                assert(w is Ok);
            }
            Ok(status::OK)
        },
        None => Ok(status::BADF),
    }
}

/// Sets the URI of the request at `handle` from the bytes at `(addr, size)`;
/// the stored URI is the parsed URI's text. Bytes outside the URI grammar are
/// reported with the parse-failure status; a bad handle with the bad-handle
/// status; neither changes anything.
pub fn uri_set(session: &mut Session, mem: &mut Memory, handle: i32, addr: i32, size: i32) -> (r:
    Result<i32, Trap>)
    ensures
        final(mem)@ == old(mem)@,
        !old(session)@.req_handle_ok(handle) ==> r == Ok::<i32, Trap>(status::BADF) && final(session)@
            == old(session)@,
        old(session)@.req_handle_ok(handle) ==> ({
            let raw = old(mem)@.subrange(
                addr as int,
                addr + spec_read_len(old(mem)@.len() as int, addr as int, size as int),
            );
            let read_ok = 0 <= addr <= old(mem)@.len() && 0 <= size;
            &&& (!read_ok ==> r == Err::<i32, Trap>(Trap::MemoryRead) && final(session)@ == old(
                session,
            )@)
            &&& (read_ok && !uri_ok(raw) ==> r == Ok::<i32, Trap>(status::HTTPPARSE) && final(session)@
                == old(session)@)
            &&& (read_ok && uri_ok(raw) ==> r == Ok::<i32, Trap>(status::OK) && final(session)@ == old(
                session,
            )@.with_requests(
                old(session)@.requests.update(
                    handle as int,
                    Some(
                        (ReqPartsView {
                            uri: uri_canon(raw),
                            ..old(session)@.requests[handle as int].unwrap()
                        }),
                    ),
                ),
            ))
        }),
        old(session)@.wf() ==> final(session)@.wf(),
{
    if handle < 0 || (handle as usize) >= session.requests.len() {
        return Ok(status::BADF);
    }
    let is_live = session.requests[handle as usize].is_some();
    if !is_live {
        return Ok(status::BADF);
    }
    let msize = mem.size();
    if addr < 0 || size < 0 || (addr as usize) > msize {
        return Err(Trap::MemoryRead);
    }
    let (_, raw) = match mem.read_bytes(addr, size) {
        Ok(v) => v,
        Err(t) => {
            return Err(t);
        },
    };
    let uri = match crate::parse::parse_uri(raw.as_slice()) {
        Some(u) => u,
        None => {
            return Ok(status::HTTPPARSE);
        },
    };
    let slot = vec_index_mut(&mut session.requests, handle as usize);
    match slot {
        Some(req) => {
            req.uri = uri;
        },
        None => {
            return Ok(status::BADF);
        },
    }
    proof {
        assert(session@ =~~= old(session)@.with_requests(
            old(session)@.requests.update(
                handle as int,
                Some(
                    (ReqPartsView {
                        uri: uri_canon(
                            old(mem)@.subrange(
                                addr as int,
                                addr + spec_read_len(
                                    old(mem)@.len() as int,
                                    addr as int,
                                    size as int,
                                ),
                            ),
                        ),
                        ..old(session)@.requests[handle as int].unwrap()
                    }),
                ),
            ),
        ));
    }
    Ok(status::OK)
}

/// Writes the 32-bit version code of the request at `handle` through
/// `version_out`. A bad handle is reported with the bad-handle status and
/// changes nothing.
pub fn version_get(session: &mut Session, mem: &mut Memory, handle: i32, version_out: i32) -> (r:
    Result<i32, Trap>)
    ensures
        final(session)@ == old(session)@,
        !old(session)@.req_handle_ok(handle) ==> r == Ok::<i32, Trap>(status::BADF) && final(mem)@
            == old(mem)@,
        old(session)@.req_handle_ok(handle) ==> {
            let write_ok = 0 <= version_out && version_out + 4 <= old(mem)@.len();
            &&& (write_ok ==> r == Ok::<i32, Trap>(status::OK) && final(mem)@ == spec_store_u32(
                old(mem)@,
                version_out as int,
                old(session)@.requests[handle as int].unwrap().version.spec_code(),
            ))
            &&& (!write_ok ==> r == Err::<i32, Trap>(Trap::MemoryWrite) && final(mem)@ == old(mem)@)
        },
{
    if handle < 0 || (handle as usize) >= session.requests.len() {
        return Ok(status::BADF);
    }
    let msize = mem.size();
    match &session.requests[handle as usize] {
        Some(req) => {
            if version_out < 0 || msize < 4 || (version_out as usize) > msize - 4 {
                return Err(Trap::MemoryWrite);
            }
            let w = mem.write_u32(version_out, req.version.as_u32());
            proof {
                assert(w is Ok);
            }
            Ok(status::OK)
        },
        None => Ok(status::BADF),
    }
}

/// Sets the version of the request at `handle` from a 32-bit code. An
/// unknown code traps; a bad handle is reported with the bad-handle status;
/// neither changes anything.
pub fn version_set(session: &mut Session, handle: i32, version: i32) -> (r: Result<i32, Trap>)
    ensures
        !old(session)@.req_handle_ok(handle) ==> r == Ok::<i32, Trap>(status::BADF) && final(session)@
            == old(session)@,
        old(session)@.req_handle_ok(handle) && !(0 <= version <= 4) ==> r == Err::<i32, Trap>(
            Trap::InvalidVersion,
        ) && final(session)@ == old(session)@,
        old(session)@.req_handle_ok(handle) && 0 <= version <= 4 ==> ({
            &&& r == Ok::<i32, Trap>(status::OK)
            &&& (final(session)@.requests[handle as int] matches Some(p) && (p.version.spec_code()
                == version && p == (ReqPartsView {
                version: p.version,
                ..old(session)@.requests[handle as int].unwrap()
            })))
            &&& final(session)@ == old(session)@.with_requests(
                old(session)@.requests.update(handle as int, final(session)@.requests[handle as int]),
            )
        }),
        old(session)@.wf() ==> final(session)@.wf(),
{
    if handle < 0 || (handle as usize) >= session.requests.len() {
        return Ok(status::BADF);
    }
    let is_live = session.requests[handle as usize].is_some();
    if !is_live {
        return Ok(status::BADF);
    }
    if version < 0 {
        return Err(Trap::InvalidVersion);
    }
    let v = match HttpVersion::from_u32(version as u32) {
        Some(v) => v,
        None => {
            return Err(Trap::InvalidVersion);
        },
    };
    let slot = vec_index_mut(&mut session.requests, handle as usize);
    match slot {
        Some(req) => {
            req.version = v;
        },
        None => {
            return Ok(status::BADF);
        },
    }
    proof {
        assert(session@ =~~= old(session)@.with_requests(
            old(session)@.requests.update(handle as int, session@.requests[handle as int]),
        ));
    }
    Ok(status::OK)
}

/// Enumerates the header names of the request at `handle`, sorted byte-wise
/// ascending: one enumeration step at `cursor`. A bad handle is reported with
/// the bad-handle status and changes nothing.
pub fn header_names_get(
    session: &mut Session,
    mem: &mut Memory,
    handle: i32,
    addr: i32,
    maxlen: i32,
    cursor: i32,
    ending_cursor_out: i32,
    nwritten_out: i32,
) -> (r: Result<i32, Trap>)
    requires
        old(mem)@.len() <= 0x7fffffff,
    ensures
        final(session)@ == old(session)@,
        !old(session)@.req_handle_ok(handle) ==> r == Ok::<i32, Trap>(status::BADF) && final(mem)@
            == old(mem)@,
        old(session)@.req_handle_ok(handle) ==> {
            let names = spec_sorted_names(old(session)@.requests[handle as int].unwrap().headers);
            &&& (r is Ok <==> spec_cursor_writes_ok(
                old(mem)@,
                names,
                addr,
                cursor,
                ending_cursor_out,
                nwritten_out,
            ))
            &&& (r matches Ok(st) ==> st == status::OK && final(mem)@ == spec_cursor_mem(
                old(mem)@,
                names,
                addr,
                cursor,
                ending_cursor_out,
                nwritten_out,
            ))
            &&& (r matches Err(t) ==> t == Trap::MemoryWrite && final(mem)@ == old(mem)@)
        },
{
    let _ = maxlen;
    if handle < 0 || (handle as usize) >= session.requests.len() {
        return Ok(status::BADF);
    }
    match &session.requests[handle as usize] {
        Some(req) => {
            let names = req.headers.sorted_names();
            cursor_write(mem, &names, addr, cursor, ending_cursor_out, nwritten_out)
        },
        None => Ok(status::BADF),
    }
}

/// Enumerates the values of one header of the request at `handle`, sorted
/// byte-wise ascending: one enumeration step at `cursor`. The header name is
/// read from `(name_addr, name_size)`; a name that is not a header name has
/// no values. A bad handle is reported with the bad-handle status and changes
/// nothing; a name that is not UTF-8 traps.
pub fn header_values_get(
    session: &mut Session,
    mem: &mut Memory,
    handle: i32,
    name_addr: i32,
    name_size: i32,
    addr: i32,
    maxlen: i32,
    cursor: i32,
    ending_cursor_out: i32,
    nwritten_out: i32,
) -> (r: Result<i32, Trap>)
    requires
        old(mem)@.len() <= 0x7fffffff,
    ensures
        final(session)@ == old(session)@,
        !old(session)@.req_handle_ok(handle) ==> r == Ok::<i32, Trap>(status::BADF) && final(mem)@
            == old(mem)@,
        old(session)@.req_handle_ok(handle) ==> ({
            let raw = old(mem)@.subrange(
                name_addr as int,
                name_addr + spec_read_len(old(mem)@.len() as int, name_addr as int, name_size as int),
            );
            let read_ok = 0 <= name_addr <= old(mem)@.len() && 0 <= name_size;
            &&& (!read_ok ==> r == Err::<i32, Trap>(Trap::MemoryRead) && final(mem)@ == old(mem)@)
            &&& (read_ok && !valid_utf8(raw) ==> r == Err::<i32, Trap>(Trap::InvalidUtf8)
                && final(mem)@ == old(mem)@)
            &&& (read_ok && valid_utf8(raw) ==> {
                let values = if header_name_ok(raw) {
                    spec_sorted_values(
                        old(session)@.requests[handle as int].unwrap().headers,
                        lower_bytes(raw),
                    )
                } else {
                    Seq::<Seq<u8>>::empty()
                };
                &&& (r is Ok <==> spec_cursor_writes_ok(
                    old(mem)@,
                    values,
                    addr,
                    cursor,
                    ending_cursor_out,
                    nwritten_out,
                ))
                &&& (r matches Ok(st) ==> st == status::OK && final(mem)@ == spec_cursor_mem(
                    old(mem)@,
                    values,
                    addr,
                    cursor,
                    ending_cursor_out,
                    nwritten_out,
                ))
                &&& (r matches Err(t) ==> t == Trap::MemoryWrite && final(mem)@ == old(mem)@)
            })
        }),
{
    let _ = maxlen;
    if handle < 0 || (handle as usize) >= session.requests.len() {
        return Ok(status::BADF);
    }
    let msize = mem.size();
    match &session.requests[handle as usize] {
        Some(req) => {
            if name_addr < 0 || name_size < 0 || (name_addr as usize) > msize {
                return Err(Trap::MemoryRead);
            }
            let (_, raw) = match mem.read_bytes(name_addr, name_size) {
                Ok(v) => v,
                Err(t) => {
                    return Err(t);
                },
            };
            if crate::parse::utf8_to_string(raw.as_slice()).is_none() {
                return Err(Trap::InvalidUtf8);
            }
            let values: Vec<Vec<u8>> = match crate::parse::parse_header_name(raw.as_slice()) {
                Some(name) => req.headers.values_of(&name),
                None => Vec::new(),
            };
            proof {
                if !header_name_ok(raw@) {
                    assert(crate::bytelex::views_of(values@) =~= Seq::<Seq<u8>>::empty());
                }
            }
            cursor_write(mem, &values, addr, cursor, ending_cursor_out, nwritten_out)
        },
        None => Ok(status::BADF),
    }
}

/// Appends one header to the request at `handle`: the name is read from
/// `(name_addr, name_size)` and normalized to lowercase; the value is read
/// NUL-terminated from `(values_addr, values_size)`, so one byte less than
/// `values_size` is read. A bad handle is reported with the bad-handle
/// status; an invalid name or value traps; nothing is changed in either case.
pub fn header_values_set(
    session: &mut Session,
    mem: &mut Memory,
    handle: i32,
    name_addr: i32,
    name_size: i32,
    values_addr: i32,
    values_size: i32,
) -> (r: Result<i32, Trap>)
    requires
        old(mem)@.len() <= 0x7fffffff,
    ensures
        final(mem)@ == old(mem)@,
        !old(session)@.req_handle_ok(handle) ==> r == Ok::<i32, Trap>(status::BADF) && final(session)@
            == old(session)@,
        old(session)@.req_handle_ok(handle) ==> ({
            let rawname = old(mem)@.subrange(
                name_addr as int,
                name_addr + spec_read_len(old(mem)@.len() as int, name_addr as int, name_size as int),
            );
            let rawvalue = old(mem)@.subrange(
                values_addr as int,
                values_addr + spec_read_len(
                    old(mem)@.len() as int,
                    values_addr as int,
                    values_size - 1,
                ),
            );
            let name_read_ok = 0 <= name_addr <= old(mem)@.len() && 0 <= name_size;
            let value_read_ok = 0 <= values_addr <= old(mem)@.len() && 1 <= values_size;
            &&& (!name_read_ok ==> r == Err::<i32, Trap>(Trap::MemoryRead) && final(session)@ == old(
                session,
            )@)
            &&& (name_read_ok && !header_name_ok(rawname) ==> r == Err::<i32, Trap>(
                Trap::InvalidHeaderName,
            ) && final(session)@ == old(session)@)
            &&& (name_read_ok && header_name_ok(rawname) && !value_read_ok ==> r == Err::<i32, Trap>(
                Trap::MemoryRead,
            ) && final(session)@ == old(session)@)
            &&& (name_read_ok && header_name_ok(rawname) && value_read_ok && !valid_value(rawvalue)
                ==> r == Err::<i32, Trap>(Trap::InvalidHeaderValue) && final(session)@ == old(session)@)
            &&& (name_read_ok && header_name_ok(rawname) && value_read_ok && valid_value(rawvalue)
                ==> r == Ok::<i32, Trap>(status::OK) && final(session)@ == old(session)@.with_requests(
                old(session)@.requests.update(
                    handle as int,
                    Some(
                        (ReqPartsView {
                            headers: old(session)@.requests[handle as int].unwrap().headers.push(
                                (lower_bytes(rawname), rawvalue),
                            ),
                            ..old(session)@.requests[handle as int].unwrap()
                        }),
                    ),
                ),
            ))
        }),
        old(session)@.wf() ==> final(session)@.wf(),
{
    if handle < 0 || (handle as usize) >= session.requests.len() {
        return Ok(status::BADF);
    }
    let is_live = session.requests[handle as usize].is_some();
    if !is_live {
        return Ok(status::BADF);
    }
    let msize = mem.size();
    if name_addr < 0 || name_size < 0 || (name_addr as usize) > msize {
        return Err(Trap::MemoryRead);
    }
    let (_, rawname) = match mem.read_bytes(name_addr, name_size) {
        Ok(v) => v,
        Err(t) => {
            return Err(t);
        },
    };
    let name = match crate::parse::parse_header_name(rawname.as_slice()) {
        Some(n) => n,
        None => {
            return Err(Trap::InvalidHeaderName);
        },
    };
    if values_addr < 0 || values_size < 1 || (values_addr as usize) > msize {
        return Err(Trap::MemoryRead);
    }
    let (_, rawvalue) = match mem.read_bytes(values_addr, values_size - 1) {
        Ok(v) => v,
        Err(t) => {
            return Err(t);
        },
    };
    let value = match crate::parse::parse_header_value(rawvalue.as_slice()) {
        Some(v) => v,
        None => {
            return Err(Trap::InvalidHeaderValue);
        },
    };
    proof {
        lemma_name_ok_lower(rawname@);
    }
    let slot = vec_index_mut(&mut session.requests, handle as usize);
    match slot {
        Some(req) => {
            req.headers.append(name, value);
        },
        None => {
            return Ok(status::BADF);
        },
    }
    proof {
        assert(session@ =~~= old(session)@.with_requests(
            old(session)@.requests.update(
                handle as int,
                Some(
                    (ReqPartsView {
                        headers: old(session)@.requests[handle as int].unwrap().headers.push(
                            (
                                lower_bytes(
                                    old(mem)@.subrange(
                                        name_addr as int,
                                        name_addr + spec_read_len(
                                            old(mem)@.len() as int,
                                            name_addr as int,
                                            name_size as int,
                                        ),
                                    ),
                                ),
                                old(mem)@.subrange(
                                    values_addr as int,
                                    values_addr + spec_read_len(
                                        old(mem)@.len() as int,
                                        values_addr as int,
                                        values_size - 1,
                                    ),
                                ),
                            ),
                        ),
                        ..old(session)@.requests[handle as int].unwrap()
                    }),
                ),
            ),
        ));
    }
    Ok(status::OK)
}

/// Writes the number of headers on the original downstream request through
/// `count_out`. The count is available whether or not the downstream request
/// has been claimed.
pub fn original_header_count(session: &mut Session, mem: &mut Memory, count_out: i32) -> (r: Result<
    i32,
    Trap,
>)
    requires
        old(session)@.original_headers.len() < 0x7fffffff,
    ensures
        final(session)@ == old(session)@,
        ({
            let write_ok = 0 <= count_out && count_out + 4 <= old(mem)@.len();
            &&& (write_ok ==> r == Ok::<i32, Trap>(status::OK) && final(mem)@ == spec_store_i32(
                old(mem)@,
                count_out as int,
                old(session)@.original_headers.len() as i32,
            ))
            &&& (!write_ok ==> r == Err::<i32, Trap>(Trap::MemoryWrite) && final(mem)@ == old(mem)@)
        }),
{
    let msize = mem.size();
    if count_out < 0 || msize < 4 || (count_out as usize) > msize - 4 {
        return Err(Trap::MemoryWrite);
    }
    let n = session.original_headers.len();
    let w = mem.write_i32(count_out, n as i32);
    proof {
        assert(w is Ok);
    }
    Ok(status::OK)
}

/// Enumerates the header names of the original downstream request, sorted
/// byte-wise ascending: one enumeration step at `cursor`. Available whether
/// or not the downstream request has been claimed.
pub fn original_header_names_get(
    session: &mut Session,
    mem: &mut Memory,
    buf: i32,
    buf_len: i32,
    cursor: i32,
    ending_cursor_out: i32,
    nwritten_out: i32,
) -> (r: Result<i32, Trap>)
    requires
        old(mem)@.len() <= 0x7fffffff,
    ensures
        final(session)@ == old(session)@,
        ({
            let names = spec_sorted_names(old(session)@.original_headers);
            &&& (r is Ok <==> spec_cursor_writes_ok(
                old(mem)@,
                names,
                buf,
                cursor,
                ending_cursor_out,
                nwritten_out,
            ))
            &&& (r matches Ok(st) ==> st == status::OK && final(mem)@ == spec_cursor_mem(
                old(mem)@,
                names,
                buf,
                cursor,
                ending_cursor_out,
                nwritten_out,
            ))
            &&& (r matches Err(t) ==> t == Trap::MemoryWrite && final(mem)@ == old(mem)@)
        }),
{
    let _ = buf_len;
    let names = session.original_headers.sorted_names();
    cursor_write(mem, &names, buf, cursor, ending_cursor_out, nwritten_out)
}

/// Writes the client address octets — four for IPv4, sixteen for IPv6 — into
/// guest memory at `addr`, bounded by the end of memory, and the count
/// written through `nwritten_out`.
pub fn downstream_client_ip_addr(
    session: &mut Session,
    mem: &mut Memory,
    addr: i32,
    nwritten_out: i32,
) -> (r: Result<i32, Trap>)
    requires
        old(mem)@.len() <= 0x7fffffff,
    ensures
        final(session)@ == old(session)@,
        ({
            let ip = old(session)@.client_ip;
            let n = spec_write_len(old(mem)@.len() as int, addr as int, ip.len() as int);
            let write_ok = 0 <= addr <= old(mem)@.len() && 0 <= nwritten_out && nwritten_out + 4
                <= old(mem)@.len();
            &&& (!write_ok ==> r == Err::<i32, Trap>(Trap::MemoryWrite) && final(mem)@ == old(mem)@)
            &&& (write_ok ==> r == Ok::<i32, Trap>(status::OK) && final(mem)@ == spec_store_i32(
                spec_write_bytes(old(mem)@, addr as int, ip),
                nwritten_out as int,
                n as i32,
            ))
        }),
{
    let msize = mem.size();
    if addr < 0 || (addr as usize) > msize {
        return Err(Trap::MemoryWrite);
    }
    if nwritten_out < 0 || msize < 4 || (nwritten_out as usize) > msize - 4 {
        return Err(Trap::MemoryWrite);
    }
    let written = match mem.write_bytes(addr, session.client_ip.as_slice()) {
        Ok(n) => n,
        Err(t) => {
            return Err(t);
        },
    };
    let w = mem.write_i32(nwritten_out, written as i32);
    proof {
        assert(w is Ok);
    }
    Ok(status::OK)
}

/// Accepts a cache override: the session does no caching, so the call only
/// acknowledges the tag and the lifetimes.
pub fn cache_override_set(tag: i32, ttl: i32, swr: i32) -> (r: i32)
    ensures
        r == status::OK,
{
    let _ = (tag, ttl, swr);
    status::OK
}

/// Accepts the second form of a cache override: the session does no caching,
/// so the call only acknowledges the arguments.
pub fn cache_override_v2_set(
    handle_out: i32,
    tag: u32,
    ttl: u32,
    swr: u32,
    sk: i32,
    sk_len: i32,
) -> (r: i32)
    ensures
        r == status::OK,
{
    let _ = (handle_out, tag, ttl, swr, sk, sk_len);
    status::OK
}

/// What `send` hands to the dispatcher: the backend name and the request
/// taken out of the session.
pub struct SendPrep {
    pub backend: String,
    pub parts: ReqParts,
    pub body: Vec<u8>,
}

/// The session-side first half of `send`: reads the backend name from
/// `(backend_addr, backend_len)` and removes the request parts at
/// `req_handle` and the body at `body_handle` from their tables, handing all
/// three out for dispatch. A bad handle on either side is reported with the
/// bad-handle status; a name that is not UTF-8 traps; neither changes
/// anything.
pub fn send_prepare(
    session: &mut Session,
    mem: &mut Memory,
    req_handle: i32,
    body_handle: i32,
    backend_addr: i32,
    backend_len: i32,
) -> (r: Result<(i32, Option<SendPrep>), Trap>)
    ensures
        final(mem)@ == old(mem)@,
        ({
            let raw = old(mem)@.subrange(
                backend_addr as int,
                backend_addr + spec_read_len(
                    old(mem)@.len() as int,
                    backend_addr as int,
                    backend_len as int,
                ),
            );
            let read_ok = 0 <= backend_addr <= old(mem)@.len() && 0 <= backend_len;
            &&& (!read_ok ==> r == Err::<(i32, Option<SendPrep>), Trap>(Trap::MemoryRead)
                && final(session)@ == old(session)@)
            &&& (read_ok && !valid_utf8(raw) ==> r == Err::<(i32, Option<SendPrep>), Trap>(
                Trap::InvalidUtf8,
            ) && final(session)@ == old(session)@)
            &&& (read_ok && valid_utf8(raw) && (!old(session)@.req_handle_ok(req_handle) || !old(
                session,
            )@.body_handle_ok(body_handle)) ==> r == Ok::<(i32, Option<SendPrep>), Trap>(
                (status::BADF, None),
            ) && final(session)@ == old(session)@)
            &&& (read_ok && valid_utf8(raw) && old(session)@.req_handle_ok(req_handle) && old(
                session,
            )@.body_handle_ok(body_handle) ==> ({
                &&& r matches Ok((st, prep)) && (st == status::OK && (prep matches Some(p) && (
                p.backend@ == decode_utf8(raw) && p.parts@ == old(session)@.requests[req_handle as int].unwrap()
                    && p.body@ == old(session)@.bodies[body_handle as int].unwrap())))
                &&& final(session)@ == (SessionView {
                    requests: old(session)@.requests.update(req_handle as int, None),
                    bodies: old(session)@.bodies.update(body_handle as int, None),
                    ..old(session)@
                })
            }))
        }),
        old(session)@.wf() ==> final(session)@.wf(),
{
    let msize = mem.size();
    if backend_addr < 0 || backend_len < 0 || (backend_addr as usize) > msize {
        return Err(Trap::MemoryRead);
    }
    let (_, raw) = match mem.read_bytes(backend_addr, backend_len) {
        Ok(v) => v,
        Err(t) => {
            return Err(t);
        },
    };
    let backend = match crate::parse::utf8_to_string(raw.as_slice()) {
        Some(s) => s,
        None => {
            return Err(Trap::InvalidUtf8);
        },
    };
    if req_handle < 0 || (req_handle as usize) >= session.requests.len() {
        return Ok((status::BADF, None));
    }
    if body_handle < 0 || (body_handle as usize) >= session.bodies.len() {
        return Ok((status::BADF, None));
    }
    let is_live = session.requests[req_handle as usize].is_some() && session.bodies[body_handle
        as usize].is_some();
    if !is_live {
        return Ok((status::BADF, None));
    }
    let rslot = vec_index_mut(&mut session.requests, req_handle as usize);
    let parts = match rslot.take() {
        Some(p) => p,
        None => {
            return Ok((status::BADF, None));
        },
    };
    let bslot = vec_index_mut(&mut session.bodies, body_handle as usize);
    let body = match bslot.take() {
        Some(b) => b,
        None => {
            return Ok((status::BADF, None));
        },
    };
    proof {
        assert(session@ =~~= (SessionView {
            requests: old(session)@.requests.update(req_handle as int, None),
            bodies: old(session)@.bodies.update(body_handle as int, None),
            ..old(session)@
        }));
    }
    Ok((status::OK, Some(SendPrep { backend, parts, body })))
}

/// The session-side second half of `send`: appends the dispatched response's
/// parts and body to their tables and writes the two new handles through the
/// out-pointers.
pub fn send_finish(
    session: &mut Session,
    mem: &mut Memory,
    parts: RespParts,
    body: Vec<u8>,
    resp_handle_out: i32,
    resp_body_handle_out: i32,
) -> (r: Result<i32, Trap>)
    requires
        old(session)@.responses.len() < 0x7fffffff,
        old(session)@.bodies.len() < 0x7fffffff,
        parts.wf(),
    ensures
        ({
            let write_ok = 0 <= resp_handle_out && resp_handle_out + 4 <= old(mem)@.len() && 0
                <= resp_body_handle_out && resp_body_handle_out + 4 <= old(mem)@.len();
            &&& (!write_ok ==> r == Err::<i32, Trap>(Trap::MemoryWrite) && final(session)@ == old(
                session,
            )@ && final(mem)@ == old(mem)@)
            &&& (write_ok ==> r == Ok::<i32, Trap>(status::OK) && final(session)@ == (SessionView {
                responses: old(session)@.responses.push(Some(parts@)),
                bodies: old(session)@.bodies.push(Some(body@)),
                ..old(session)@
            }) && final(mem)@ == spec_store_i32(
                spec_store_i32(
                    old(mem)@,
                    resp_handle_out as int,
                    old(session)@.responses.len() as i32,
                ),
                resp_body_handle_out as int,
                old(session)@.bodies.len() as i32,
            ))
        }),
        old(session)@.wf() ==> final(session)@.wf(),
{
    let msize = mem.size();
    if resp_handle_out < 0 || msize < 4 || (resp_handle_out as usize) > msize - 4 {
        return Err(Trap::MemoryWrite);
    }
    if resp_body_handle_out < 0 || (resp_body_handle_out as usize) > msize - 4 {
        return Err(Trap::MemoryWrite);
    }
    let resp_index = session.responses.len();
    let body_index = session.bodies.len();
    session.responses.push(Some(parts));
    session.bodies.push(Some(body));
    let w1 = mem.write_i32(resp_handle_out, resp_index as i32);
    let w2 = mem.write_i32(resp_body_handle_out, body_index as i32);
    proof {
        assert(w1 is Ok && w2 is Ok);
        assert(session@ =~~= (SessionView {
            responses: old(session)@.responses.push(Some(parts@)),
            bodies: old(session)@.bodies.push(Some(body@)),
            ..old(session)@
        }));
    }
    Ok(status::OK)
}

} // verus!
