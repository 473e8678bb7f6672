//! The `fastly_http_resp` host calls: allocate a response, get and set its
//! status and version, enumerate and append headers, and install the final
//! downstream response.

use crate::cursor::{cursor_write, spec_cursor_mem, spec_cursor_writes_ok};
use crate::headers::{
    header_name_ok, lemma_name_ok_lower, lower_bytes, spec_sorted_names, spec_sorted_values,
    valid_value,
};
use crate::http::{HttpVersion, RespParts, RespPartsView};
use crate::memory::{spec_read_len, spec_store_i32, spec_store_u32, Memory};
use crate::session::{Session, SessionView};
use crate::status::{self, Trap};
use vstd::prelude::*;
use vstd::std_specs::vec::vec_index_mut;
use vstd::utf8::valid_utf8;

verus! {

/// Appends a blank response to the response table and writes the new handle —
/// the table length before the append — through `handle_out`.
pub fn new(session: &mut Session, mem: &mut Memory, handle_out: i32) -> (r: Result<i32, Trap>)
    requires
        old(session)@.responses.len() < 0x7fffffff,
    ensures
        r matches Ok(st) ==> st == status::OK,
        r is Ok <==> 0 <= handle_out && handle_out + 4 <= old(mem)@.len(),
        r is Ok ==> final(session)@ == old(session)@.with_responses(
            old(session)@.responses.push(Some(RespParts::blank_view())),
        ),
        r is Ok ==> final(mem)@ == spec_store_u32(
            old(mem)@,
            handle_out as int,
            old(session)@.responses.len() as u32,
        ),
        r matches Err(t) ==> t == Trap::MemoryWrite && final(session)@ == old(session)@
            && final(mem)@ == old(mem)@,
        old(session)@.wf() ==> final(session)@.wf(),
{
    let msize = mem.size();
    if handle_out < 0 || msize < 4 || (handle_out as usize) > msize - 4 {
        return Err(Trap::MemoryWrite);
    }
    let index = session.responses.len();
    session.responses.push(Some(RespParts::blank()));
    let w = mem.write_u32(handle_out, index as u32);
    proof {
        assert(w is Ok);
        assert(session@ =~~= old(session)@.with_responses(
            old(session)@.responses.push(Some(RespParts::blank_view())),
        ));
    }
    Ok(status::OK)
}

/// Installs the final downstream response: removes the response parts at
/// `whandle` and the body at `bhandle` from their tables and stores them in
/// the final response slot. A nonzero `stream` mode is unsupported; a bad
/// handle on either side is reported with the bad-handle status; neither
/// changes anything.
pub fn send_downstream(session: &mut Session, whandle: i32, bhandle: i32, stream: i32) -> (r:
    Result<i32, Trap>)
    ensures
        r is Ok,
        stream != 0 ==> r == Ok::<i32, Trap>(status::UNSUPPORTED) && final(session)@ == old(session)@,
        stream == 0 && (!old(session)@.resp_handle_ok(whandle) || !old(session)@.body_handle_ok(
            bhandle,
        )) ==> r == Ok::<i32, Trap>(status::BADF) && final(session)@ == old(session)@,
        stream == 0 && old(session)@.resp_handle_ok(whandle) && old(session)@.body_handle_ok(bhandle)
            ==> r == Ok::<i32, Trap>(status::OK) && final(session)@ == (SessionView {
            responses: old(session)@.responses.update(whandle as int, None),
            bodies: old(session)@.bodies.update(bhandle as int, None),
            response: Some(
                (
                    old(session)@.responses[whandle as int].unwrap(),
                    old(session)@.bodies[bhandle as int].unwrap(),
                ),
            ),
            ..old(session)@
        }),
        old(session)@.wf() ==> final(session)@.wf(),
{
    if stream != 0 {
        return Ok(status::UNSUPPORTED);
    }
    if whandle < 0 || (whandle as usize) >= session.responses.len() {
        return Ok(status::BADF);
    }
    if bhandle < 0 || (bhandle as usize) >= session.bodies.len() {
        return Ok(status::BADF);
    }
    let is_live = session.responses[whandle as usize].is_some() && session.bodies[bhandle
        as usize].is_some();
    if !is_live {
        return Ok(status::BADF);
    }
    let wslot = vec_index_mut(&mut session.responses, whandle as usize);
    let parts = match wslot.take() {
        Some(p) => p,
        None => {
            return Ok(status::BADF);
        },
    };
    let bslot = vec_index_mut(&mut session.bodies, bhandle as usize);
    let body = match bslot.take() {
        Some(b) => b,
        None => {
            return Ok(status::BADF);
        },
    };
    session.response = Some(crate::session::FinalResponse { parts, body });
    proof {
        assert(session@ =~~= (SessionView {
            responses: old(session)@.responses.update(whandle as int, None),
            bodies: old(session)@.bodies.update(bhandle as int, None),
            response: Some(
                (
                    old(session)@.responses[whandle as int].unwrap(),
                    old(session)@.bodies[bhandle as int].unwrap(),
                ),
            ),
            ..old(session)@
        }));
    }
    Ok(status::OK)
}

/// Writes the status code of the response at `resp_handle` through
/// `status_out`. A bad handle is reported with the bad-handle status and
/// changes nothing.
pub fn status_get(session: &mut Session, mem: &mut Memory, resp_handle: i32, status_out: i32) -> (r:
    Result<i32, Trap>)
    ensures
        final(session)@ == old(session)@,
        !old(session)@.resp_handle_ok(resp_handle) ==> r == Ok::<i32, Trap>(status::BADF)
            && final(mem)@ == old(mem)@,
        old(session)@.resp_handle_ok(resp_handle) ==> {
            let write_ok = 0 <= status_out && status_out + 4 <= old(mem)@.len();
            &&& (write_ok ==> r == Ok::<i32, Trap>(status::OK) && final(mem)@ == spec_store_i32(
                old(mem)@,
                status_out as int,
                old(session)@.responses[resp_handle as int].unwrap().status as i32,
            ))
            &&& (!write_ok ==> r == Err::<i32, Trap>(Trap::MemoryWrite) && final(mem)@ == old(mem)@)
        },
{
    if resp_handle < 0 || (resp_handle as usize) >= session.responses.len() {
        return Ok(status::BADF);
    }
    let msize = mem.size();
    match &session.responses[resp_handle as usize] {
        Some(resp) => {
            if status_out < 0 || msize < 4 || (status_out as usize) > msize - 4 {
                return Err(Trap::MemoryWrite);
            }
            let w = mem.write_i32(status_out, resp.status as i32);
            proof {
                assert(w is Ok);
            }
            Ok(status::OK)
        },
        None => Ok(status::BADF),
    }
}

/// Sets the status code of the response at `resp_handle`. A code outside 100
/// through 999 is reported with the parse-failure status; a bad handle with
/// the bad-handle status; neither changes anything.
pub fn status_set(session: &mut Session, resp_handle: i32, status_code: i32) -> (r: Result<i32, Trap>)
    ensures
        r is Ok,
        !old(session)@.resp_handle_ok(resp_handle) ==> r == Ok::<i32, Trap>(status::BADF)
            && final(session)@ == old(session)@,
        old(session)@.resp_handle_ok(resp_handle) && !(100 <= status_code <= 999) ==> r == Ok::<
            i32,
            Trap,
        >(status::HTTPPARSE) && final(session)@ == old(session)@,
        old(session)@.resp_handle_ok(resp_handle) && 100 <= status_code <= 999 ==> r == Ok::<
            i32,
            Trap,
        >(status::OK) && final(session)@ == old(session)@.with_responses(
            old(session)@.responses.update(
                resp_handle as int,
                Some(
                    (RespPartsView {
                        status: status_code as u16,
                        ..old(session)@.responses[resp_handle as int].unwrap()
                    }),
                ),
            ),
        ),
        old(session)@.wf() ==> final(session)@.wf(),
{
    if resp_handle < 0 || (resp_handle as usize) >= session.responses.len() {
        return Ok(status::BADF);
    }
    let is_live = session.responses[resp_handle as usize].is_some();
    if !is_live {
        return Ok(status::BADF);
    }
    if status_code < 100 || status_code > 999 {
        return Ok(status::HTTPPARSE);
    }
    let checked = match crate::parse::parse_status(status_code as u16) {
        Some(c) => c,
        None => {
            return Ok(status::HTTPPARSE);
        },
    };
    let slot = vec_index_mut(&mut session.responses, resp_handle as usize);
    match slot {
        Some(resp) => {
            resp.status = checked;
        },
        None => {
            return Ok(status::BADF);
        },
    }
    proof {
        assert(session@ =~~= old(session)@.with_responses(
            old(session)@.responses.update(
                resp_handle as int,
                Some(
                    (RespPartsView {
                        status: status_code as u16,
                        ..old(session)@.responses[resp_handle as int].unwrap()
                    }),
                ),
            ),
        ));
    }
    Ok(status::OK)
}

/// Writes the 32-bit version code of the response at `resp_handle` through
/// `version_out`. A bad handle is reported with the bad-handle status and
/// changes nothing.
pub fn version_get(session: &mut Session, mem: &mut Memory, resp_handle: i32, version_out: i32) -> (r:
    Result<i32, Trap>)
    ensures
        final(session)@ == old(session)@,
        !old(session)@.resp_handle_ok(resp_handle) ==> r == Ok::<i32, Trap>(status::BADF)
            && final(mem)@ == old(mem)@,
        old(session)@.resp_handle_ok(resp_handle) ==> {
            let write_ok = 0 <= version_out && version_out + 4 <= old(mem)@.len();
            &&& (write_ok ==> r == Ok::<i32, Trap>(status::OK) && final(mem)@ == spec_store_u32(
                old(mem)@,
                version_out as int,
                old(session)@.responses[resp_handle as int].unwrap().version.spec_code(),
            ))
            &&& (!write_ok ==> r == Err::<i32, Trap>(Trap::MemoryWrite) && final(mem)@ == old(mem)@)
        },
{
    if resp_handle < 0 || (resp_handle as usize) >= session.responses.len() {
        return Ok(status::BADF);
    }
    let msize = mem.size();
    match &session.responses[resp_handle as usize] {
        Some(resp) => {
            if version_out < 0 || msize < 4 || (version_out as usize) > msize - 4 {
                return Err(Trap::MemoryWrite);
            }
            let w = mem.write_u32(version_out, resp.version.as_u32());
            proof {
                assert(w is Ok);
            }
            Ok(status::OK)
        },
        None => Ok(status::BADF),
    }
}

/// Sets the version of the response at `resp_handle` from a 32-bit code. An
/// unknown code traps; a bad handle is reported with the bad-handle status;
/// neither changes anything.
pub fn version_set(session: &mut Session, resp_handle: i32, version: i32) -> (r: Result<i32, Trap>)
    ensures
        !old(session)@.resp_handle_ok(resp_handle) ==> r == Ok::<i32, Trap>(status::BADF)
            && final(session)@ == old(session)@,
        old(session)@.resp_handle_ok(resp_handle) && !(0 <= version <= 4) ==> r == Err::<i32, Trap>(
            Trap::InvalidVersion,
        ) && final(session)@ == old(session)@,
        old(session)@.resp_handle_ok(resp_handle) && 0 <= version <= 4 ==> ({
            &&& r == Ok::<i32, Trap>(status::OK)
            &&& (final(session)@.responses[resp_handle as int] matches Some(p) && (
            p.version.spec_code() == version && p == (RespPartsView {
                version: p.version,
                ..old(session)@.responses[resp_handle as int].unwrap()
            })))
            &&& final(session)@ == old(session)@.with_responses(
                old(session)@.responses.update(
                    resp_handle as int,
                    final(session)@.responses[resp_handle as int],
                ),
            )
        }),
        old(session)@.wf() ==> final(session)@.wf(),
{
    if resp_handle < 0 || (resp_handle as usize) >= session.responses.len() {
        return Ok(status::BADF);
    }
    let is_live = session.responses[resp_handle as usize].is_some();
    if !is_live {
        return Ok(status::BADF);
    }
    if version < 0 {
        return Err(Trap::InvalidVersion);
    }
    let v = match HttpVersion::from_u32(version as u32) {
        Some(v) => v,
        None => {
            return Err(Trap::InvalidVersion);
        },
    };
    let slot = vec_index_mut(&mut session.responses, resp_handle as usize);
    match slot {
        Some(resp) => {
            resp.version = v;
        },
        None => {
            return Ok(status::BADF);
        },
    }
    proof {
        assert(session@ =~~= old(session)@.with_responses(
            old(session)@.responses.update(
                resp_handle as int,
                session@.responses[resp_handle as int],
            ),
        ));
    }
    Ok(status::OK)
}

/// Enumerates the header names of the response at `resp_handle`, sorted
/// byte-wise ascending: one enumeration step at `cursor`. A bad handle is
/// reported with the bad-handle status and changes nothing.
pub fn header_names_get(
    session: &mut Session,
    mem: &mut Memory,
    resp_handle: i32,
    addr: i32,
    maxlen: i32,
    cursor: i32,
    ending_cursor_out: i32,
    nwritten_out: i32,
) -> (r: Result<i32, Trap>)
    requires
        old(mem)@.len() <= 0x7fffffff,
    ensures
        final(session)@ == old(session)@,
        !old(session)@.resp_handle_ok(resp_handle) ==> r == Ok::<i32, Trap>(status::BADF)
            && final(mem)@ == old(mem)@,
        old(session)@.resp_handle_ok(resp_handle) ==> {
            let names = spec_sorted_names(
                old(session)@.responses[resp_handle as int].unwrap().headers,
            );
            &&& (r is Ok <==> spec_cursor_writes_ok(
                old(mem)@,
                names,
                addr,
                cursor,
                ending_cursor_out,
                nwritten_out,
            ))
            &&& (r matches Ok(st) ==> st == status::OK && final(mem)@ == spec_cursor_mem(
                old(mem)@,
                names,
                addr,
                cursor,
                ending_cursor_out,
                nwritten_out,
            ))
            &&& (r matches Err(t) ==> t == Trap::MemoryWrite && final(mem)@ == old(mem)@)
        },
{
    let _ = maxlen;
    if resp_handle < 0 || (resp_handle as usize) >= session.responses.len() {
        return Ok(status::BADF);
    }
    match &session.responses[resp_handle as usize] {
        Some(resp) => {
            let names = resp.headers.sorted_names();
            cursor_write(mem, &names, addr, cursor, ending_cursor_out, nwritten_out)
        },
        None => Ok(status::BADF),
    }
}

/// Enumerates the values of one header of the response at `resp_handle`,
/// sorted byte-wise ascending: one enumeration step at `cursor`. The header
/// name is read from `(name_addr, name_size)`; a name that is not a header
/// name has no values. A bad handle is reported with the bad-handle status
/// and changes nothing; a name that is not UTF-8 traps.
pub fn header_values_get(
    session: &mut Session,
    mem: &mut Memory,
    resp_handle: i32,
    name_addr: i32,
    name_size: i32,
    addr: i32,
    maxlen: i32,
    cursor: i32,
    ending_cursor_out: i32,
    nwritten_out: i32,
) -> (r: Result<i32, Trap>)
    requires
        old(mem)@.len() <= 0x7fffffff,
    ensures
        final(session)@ == old(session)@,
        !old(session)@.resp_handle_ok(resp_handle) ==> r == Ok::<i32, Trap>(status::BADF)
            && final(mem)@ == old(mem)@,
        old(session)@.resp_handle_ok(resp_handle) ==> ({
            let raw = old(mem)@.subrange(
                name_addr as int,
                name_addr + spec_read_len(old(mem)@.len() as int, name_addr as int, name_size as int),
            );
            let read_ok = 0 <= name_addr <= old(mem)@.len() && 0 <= name_size;
            &&& (!read_ok ==> r == Err::<i32, Trap>(Trap::MemoryRead) && final(mem)@ == old(mem)@)
            &&& (read_ok && !valid_utf8(raw) ==> r == Err::<i32, Trap>(Trap::InvalidUtf8)
                && final(mem)@ == old(mem)@)
            &&& (read_ok && valid_utf8(raw) ==> {
                let values = if header_name_ok(raw) {
                    spec_sorted_values(
                        old(session)@.responses[resp_handle as int].unwrap().headers,
                        lower_bytes(raw),
                    )
                } else {
                    Seq::<Seq<u8>>::empty()
                };
                &&& (r is Ok <==> spec_cursor_writes_ok(
                    old(mem)@,
                    values,
                    addr,
                    cursor,
                    ending_cursor_out,
                    nwritten_out,
                ))
                &&& (r matches Ok(st) ==> st == status::OK && final(mem)@ == spec_cursor_mem(
                    old(mem)@,
                    values,
                    addr,
                    cursor,
                    ending_cursor_out,
                    nwritten_out,
                ))
                &&& (r matches Err(t) ==> t == Trap::MemoryWrite && final(mem)@ == old(mem)@)
            })
        }),
{
    let _ = maxlen;
    if resp_handle < 0 || (resp_handle as usize) >= session.responses.len() {
        return Ok(status::BADF);
    }
    let msize = mem.size();
    match &session.responses[resp_handle as usize] {
        Some(resp) => {
            if name_addr < 0 || name_size < 0 || (name_addr as usize) > msize {
                return Err(Trap::MemoryRead);
            }
            let (_, raw) = match mem.read_bytes(name_addr, name_size) {
                Ok(v) => v,
                Err(t) => {
                    return Err(t);
                },
            };
            if crate::parse::utf8_to_string(raw.as_slice()).is_none() {
                return Err(Trap::InvalidUtf8);
            }
            let values: Vec<Vec<u8>> = match crate::parse::parse_header_name(raw.as_slice()) {
                Some(name) => resp.headers.values_of(&name),
                None => Vec::new(),
            };
            proof {
                if !header_name_ok(raw@) {
                    assert(crate::bytelex::views_of(values@) =~= Seq::<Seq<u8>>::empty());
                }
            }
            cursor_write(mem, &values, addr, cursor, ending_cursor_out, nwritten_out)
        },
        None => Ok(status::BADF),
    }
}

/// Appends one header to the response at `resp_handle`: the name is read from
/// `(name_addr, name_size)` and normalized to lowercase; the value is read
/// NUL-terminated from `(values_addr, values_size)`, so one byte less than
/// `values_size` is read. A bad handle is reported with the bad-handle status;
/// an invalid name or value traps; nothing is changed in either case.
pub fn header_values_set(
    session: &mut Session,
    mem: &mut Memory,
    resp_handle: i32,
    name_addr: i32,
    name_size: i32,
    values_addr: i32,
    values_size: i32,
) -> (r: Result<i32, Trap>)
    requires
        old(mem)@.len() <= 0x7fffffff,
    ensures
        final(mem)@ == old(mem)@,
        !old(session)@.resp_handle_ok(resp_handle) ==> r == Ok::<i32, Trap>(status::BADF)
            && final(session)@ == old(session)@,
        old(session)@.resp_handle_ok(resp_handle) ==> ({
            let rawname = old(mem)@.subrange(
                name_addr as int,
                name_addr + spec_read_len(old(mem)@.len() as int, name_addr as int, name_size as int),
            );
            let rawvalue = old(mem)@.subrange(
                values_addr as int,
                values_addr + spec_read_len(
                    old(mem)@.len() as int,
                    values_addr as int,
                    values_size - 1,
                ),
            );
            let name_read_ok = 0 <= name_addr <= old(mem)@.len() && 0 <= name_size;
            let value_read_ok = 0 <= values_addr <= old(mem)@.len() && 1 <= values_size;
            &&& (!name_read_ok ==> r == Err::<i32, Trap>(Trap::MemoryRead) && final(session)@ == old(
                session,
            )@)
            &&& (name_read_ok && !header_name_ok(rawname) ==> r == Err::<i32, Trap>(
                Trap::InvalidHeaderName,
            ) && final(session)@ == old(session)@)
            &&& (name_read_ok && header_name_ok(rawname) && !value_read_ok ==> r == Err::<i32, Trap>(
                Trap::MemoryRead,
            ) && final(session)@ == old(session)@)
            &&& (name_read_ok && header_name_ok(rawname) && value_read_ok && !valid_value(rawvalue)
                ==> r == Err::<i32, Trap>(Trap::InvalidHeaderValue) && final(session)@ == old(session)@)
            &&& (name_read_ok && header_name_ok(rawname) && value_read_ok && valid_value(rawvalue)
                ==> r == Ok::<i32, Trap>(status::OK) && final(session)@ == old(session)@.with_responses(
                old(session)@.responses.update(
                    resp_handle as int,
                    Some(
                        (RespPartsView {
                            headers: old(session)@.responses[resp_handle as int].unwrap().headers.push(
                                (lower_bytes(rawname), rawvalue),
                            ),
                            ..old(session)@.responses[resp_handle as int].unwrap()
                        }),
                    ),
                ),
            ))
        }),
        old(session)@.wf() ==> final(session)@.wf(),
{
    if resp_handle < 0 || (resp_handle as usize) >= session.responses.len() {
        return Ok(status::BADF);
    }
    let is_live = session.responses[resp_handle as usize].is_some();
    if !is_live {
        return Ok(status::BADF);
    }
    let msize = mem.size();
    if name_addr < 0 || name_size < 0 || (name_addr as usize) > msize {
        return Err(Trap::MemoryRead);
    }
    let (_, rawname) = match mem.read_bytes(name_addr, name_size) {
        Ok(v) => v,
        Err(t) => {
            return Err(t);
        },
    };
    let name = match crate::parse::parse_header_name(rawname.as_slice()) {
        Some(n) => n,
        None => {
            return Err(Trap::InvalidHeaderName);
        },
    };
    if values_addr < 0 || values_size < 1 || (values_addr as usize) > msize {
        return Err(Trap::MemoryRead);
    }
    let (_, rawvalue) = match mem.read_bytes(values_addr, values_size - 1) {
        Ok(v) => v,
        Err(t) => {
            return Err(t);
        },
    };
    let value = match crate::parse::parse_header_value(rawvalue.as_slice()) {
        Some(v) => v,
        None => {
            return Err(Trap::InvalidHeaderValue);
        },
    };
    proof {
        lemma_name_ok_lower(rawname@);
    }
    let slot = vec_index_mut(&mut session.responses, resp_handle as usize);
    match slot {
        Some(resp) => {
            resp.headers.append(name, value);
        },
        None => {
            return Ok(status::BADF);
        },
    }
    proof {
        assert(session@ =~~= old(session)@.with_responses(
            old(session)@.responses.update(
                resp_handle as int,
                Some(
                    (RespPartsView {
                        headers: old(session)@.responses[resp_handle as int].unwrap().headers.push(
                            (
                                lower_bytes(
                                    old(mem)@.subrange(
                                        name_addr as int,
                                        name_addr + spec_read_len(
                                            old(mem)@.len() as int,
                                            name_addr as int,
                                            name_size as int,
                                        ),
                                    ),
                                ),
                                old(mem)@.subrange(
                                    values_addr as int,
                                    values_addr + spec_read_len(
                                        old(mem)@.len() as int,
                                        values_addr as int,
                                        values_size - 1,
                                    ),
                                ),
                            ),
                        ),
                        ..old(session)@.responses[resp_handle as int].unwrap()
                    }),
                ),
            ),
        ));
    }
    Ok(status::OK)
}

} // verus!
