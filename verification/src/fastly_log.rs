//! The `fastly_log` host calls: register a named endpoint and write a
//! message through it.
//!
//! Printing is the embedder's side: `write` validates the handle, decodes the
//! message, reports its length to the guest, and hands the message back for
//! the embedder to print through the endpoint.

use crate::memory::{spec_read_len, spec_store_i32, Memory};
use crate::session::{Endpoint, Session};
use crate::status::{self, Trap};
use vstd::prelude::*;
use vstd::utf8::{decode_utf8, valid_utf8};

verus! {

/// Appends an endpoint with the name at `(name_addr, name_len)` to the
/// session and writes the new handle — the table length before the append —
/// through `endpoint_handle_out`. A name that is not UTF-8 traps.
pub fn endpoint_get(
    session: &mut Session,
    mem: &mut Memory,
    name_addr: i32,
    name_len: i32,
    endpoint_handle_out: i32,
) -> (r: Result<i32, Trap>)
    requires
        old(session)@.endpoints.len() < 0x7fffffff,
    ensures
        ({
            let raw = old(mem)@.subrange(
                name_addr as int,
                name_addr + spec_read_len(old(mem)@.len() as int, name_addr as int, name_len as int),
            );
            let read_ok = 0 <= name_addr <= old(mem)@.len() && 0 <= name_len;
            let write_ok = 0 <= endpoint_handle_out && endpoint_handle_out + 4 <= old(mem)@.len();
            &&& (!read_ok ==> r == Err::<i32, Trap>(Trap::MemoryRead) && final(session)@ == old(session)@
                && final(mem)@ == old(mem)@)
            &&& (read_ok && !valid_utf8(raw) ==> r == Err::<i32, Trap>(Trap::InvalidUtf8)
                && final(session)@ == old(session)@ && final(mem)@ == old(mem)@)
            &&& (read_ok && valid_utf8(raw) && !write_ok ==> r == Err::<i32, Trap>(Trap::MemoryWrite)
                && final(session)@ == old(session)@ && final(mem)@ == old(mem)@)
            &&& (read_ok && valid_utf8(raw) && write_ok ==> r == Ok::<i32, Trap>(status::OK)
                && final(session)@ == old(session)@.with_endpoints(
                old(session)@.endpoints.push(decode_utf8(raw)),
            ) && final(mem)@ == spec_store_i32(
                old(mem)@,
                endpoint_handle_out as int,
                old(session)@.endpoints.len() as i32,
            ))
        }),
        old(session)@.wf() ==> final(session)@.wf(),
{
    let msize = mem.size();
    if name_addr < 0 || name_len < 0 || (name_addr as usize) > msize {
        return Err(Trap::MemoryRead);
    }
    let (_, raw) = match mem.read_bytes(name_addr, name_len) {
        Ok(v) => v,
        Err(t) => {
            return Err(t);
        },
    };
    let name = match crate::parse::utf8_to_string(raw.as_slice()) {
        Some(s) => s,
        None => {
            return Err(Trap::InvalidUtf8);
        },
    };
    if endpoint_handle_out < 0 || msize < 4 || (endpoint_handle_out as usize) > msize - 4 {
        return Err(Trap::MemoryWrite);
    }
    let index = session.endpoints.len();
    session.endpoints.push(Endpoint(name));
    let w = mem.write_i32(endpoint_handle_out, index as i32);
    proof {
        assert(w is Ok);
        assert(session@ =~~= old(session)@.with_endpoints(
            old(session)@.endpoints.push(
                decode_utf8(
                    old(mem)@.subrange(
                        name_addr as int,
                        name_addr + spec_read_len(
                            old(mem)@.len() as int,
                            name_addr as int,
                            name_len as int,
                        ),
                    ),
                ),
            ),
        ));
    }
    Ok(status::OK)
}

/// Reads the message at `(msg_addr, msg_len)`, writes its byte length through
/// `nwritten_out`, and returns the message beside the status for the embedder
/// to print through the endpoint at `endpoint_handle`. A bad handle is
/// reported with the bad-handle status and changes nothing; a message that is
/// not UTF-8 traps.
pub fn write(
    session: &mut Session,
    mem: &mut Memory,
    endpoint_handle: i32,
    msg_addr: i32,
    msg_len: i32,
    nwritten_out: i32,
) -> (r: Result<(i32, Option<String>), Trap>)
    requires
        old(mem)@.len() <= 0x7fffffff,
    ensures
        final(session)@ == old(session)@,
        !old(session)@.endpoint_handle_ok(endpoint_handle) ==> r == Ok::<(i32, Option<String>), Trap>(
            (status::BADF, None),
        ) && final(mem)@ == old(mem)@,
        old(session)@.endpoint_handle_ok(endpoint_handle) ==> ({
            let n = spec_read_len(old(mem)@.len() as int, msg_addr as int, msg_len as int);
            let raw = old(mem)@.subrange(msg_addr as int, msg_addr + n);
            let read_ok = 0 <= msg_addr <= old(mem)@.len() && 0 <= msg_len;
            let write_ok = 0 <= nwritten_out && nwritten_out + 4 <= old(mem)@.len();
            &&& (!read_ok ==> r == Err::<(i32, Option<String>), Trap>(Trap::MemoryRead) && final(mem)@
                == old(mem)@)
            &&& (read_ok && !valid_utf8(raw) ==> r == Err::<(i32, Option<String>), Trap>(
                Trap::InvalidUtf8,
            ) && final(mem)@ == old(mem)@)
            &&& (read_ok && valid_utf8(raw) && !write_ok ==> r == Err::<(i32, Option<String>), Trap>(
                Trap::MemoryWrite,
            ) && final(mem)@ == old(mem)@)
            &&& (read_ok && valid_utf8(raw) && write_ok ==> {
                &&& r matches Ok((st, msg)) && (st == status::OK && (msg matches Some(m) && m@
                    == decode_utf8(raw)))
                &&& final(mem)@ == spec_store_i32(old(mem)@, nwritten_out as int, n as i32)
            })
        }),
{
    if endpoint_handle < 0 || (endpoint_handle as usize) >= session.endpoints.len() {
        return Ok((status::BADF, None));
    }
    let msize = mem.size();
    if msg_addr < 0 || msg_len < 0 || (msg_addr as usize) > msize {
        return Err(Trap::MemoryRead);
    }
    let (n, raw) = match mem.read_bytes(msg_addr, msg_len) {
        Ok(v) => v,
        Err(t) => {
            return Err(t);
        },
    };
    let message = match crate::parse::utf8_to_string(raw.as_slice()) {
        Some(s) => s,
        None => {
            return Err(Trap::InvalidUtf8);
        },
    };
    if nwritten_out < 0 || msize < 4 || (nwritten_out as usize) > msize - 4 {
        return Err(Trap::MemoryWrite);
    }
    let w = mem.write_i32(nwritten_out, n as i32);
    proof {
        assert(w is Ok);
    }
    Ok((status::OK, Some(message)))
}

} // verus!
