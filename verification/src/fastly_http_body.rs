//! The `fastly_http_body` host calls: allocate, write, read, append, close.
//!
//! Every call reports a bad handle with the bad-handle status and leaves the
//! session and the guest memory untouched; a call changes state only when it
//! returns the success status.

use crate::memory::{spec_read_len, spec_store_u32, spec_write_bytes, spec_write_len, Memory};
use crate::session::Session;
use crate::status::{self, Trap};
use vstd::prelude::*;
use vstd::std_specs::vec::vec_index_mut;

verus! {

/// Closes a body handle: bodies live for the whole session, so this only
/// acknowledges the call.
pub fn close(handle: i32) -> (r: i32)
    ensures
        r == status::OK,
{
    let _ = handle;
    status::OK
}

/// Appends an empty body to the body table and writes the new handle — the
/// table length before the append — through `handle_out`.
pub fn new(session: &mut Session, mem: &mut Memory, handle_out: i32) -> (r: Result<i32, Trap>)
    requires
        old(session)@.bodies.len() < 0x7fffffff,
    ensures
        r matches Ok(st) ==> st == status::OK,
        r is Ok <==> 0 <= handle_out && handle_out + 4 <= old(mem)@.len(),
        r is Ok ==> final(session)@ == old(session)@.with_bodies(
            old(session)@.bodies.push(Some(Seq::<u8>::empty())),
        ),
        r is Ok ==> final(mem)@ == spec_store_u32(
            old(mem)@,
            handle_out as int,
            old(session)@.bodies.len() as u32,
        ),
        r matches Err(t) ==> t == Trap::MemoryWrite && final(session)@ == old(session)@
            && final(mem)@ == old(mem)@,
        old(session)@.wf() ==> final(session)@.wf(),
{
    let msize = mem.size();
    if handle_out < 0 || msize < 4 || (handle_out as usize) > msize - 4 {
        return Err(Trap::MemoryWrite);
    }
    let index = session.bodies.len();
    session.bodies.push(Some(Vec::new()));
    let w = mem.write_u32(handle_out, index as u32);
    proof {
        assert(w is Ok);
        assert(session@ =~~= old(session)@.with_bodies(
            old(session)@.bodies.push(Some(Seq::<u8>::empty())),
        ));
    }
    Ok(status::OK)
}

/// Reads `size` bytes at `addr` from guest memory, appends them to the body
/// at `handle`, and writes the count read through `nwritten_out`. A bad
/// handle is reported with the bad-handle status and changes nothing.
pub fn write(
    session: &mut Session,
    mem: &mut Memory,
    handle: i32,
    addr: i32,
    size: i32,
    body_end: i32,
    nwritten_out: i32,
) -> (r: Result<i32, Trap>)
    requires
        old(mem)@.len() <= 0x7fffffff,
    ensures
        !old(session)@.body_handle_ok(handle) ==> r == Ok::<i32, Trap>(status::BADF) && final(session)@ == old(session)@ && final(mem)@ == old(mem)@,
        old(session)@.body_handle_ok(handle) ==> {
            let n = spec_read_len(old(mem)@.len() as int, addr as int, size as int);
            let data = old(mem)@.subrange(addr as int, addr + n);
            let read_ok = 0 <= addr <= old(mem)@.len() && 0 <= size;
            let write_ok = 0 <= nwritten_out && nwritten_out + 4 <= old(mem)@.len();
            let updated = old(session)@.with_bodies(
                old(session)@.bodies.update(
                    handle as int,
                    Some(old(session)@.bodies[handle as int].unwrap() + data),
                ),
            );
            &&& (!read_ok ==> r == Err::<i32, Trap>(Trap::MemoryRead) && final(session)@ == old(session)@ && final(mem)@ == old(mem)@)
            &&& (read_ok && !write_ok ==> r == Err::<i32, Trap>(Trap::MemoryWrite) && final(session)@ == old(session)@ && final(mem)@ == old(mem)@)
            &&& (read_ok && write_ok ==> r == Ok::<i32, Trap>(status::OK) && final(session)@
                == updated && final(mem)@ == spec_store_u32(old(mem)@, nwritten_out as int, n as u32))
        },
        old(session)@.wf() ==> final(session)@.wf(),
{
    let _ = body_end;
    if handle < 0 || (handle as usize) >= session.bodies.len() {
        return Ok(status::BADF);
    }
    let is_live = session.bodies[handle as usize].is_some();
    if !is_live {
        return Ok(status::BADF);
    }
    let msize = mem.size();
    if addr < 0 || size < 0 || (addr as usize) > msize {
        return Err(Trap::MemoryRead);
    }
    if nwritten_out < 0 || msize < 4 || (nwritten_out as usize) > msize - 4 {
        return Err(Trap::MemoryWrite);
    }
    let (n, data) = match mem.read_bytes(addr, size) {
        Ok(v) => v,
        Err(t) => {
            return Err(t);
        },
    };
    let slot = vec_index_mut(&mut session.bodies, handle as usize);
    match slot {
        Some(b) => {
            b.extend_from_slice(data.as_slice());
        },
        None => {
            return Ok(status::BADF);
        },
    }
    let w = mem.write_u32(nwritten_out, n as u32);
    proof {
        assert(w is Ok);
        assert(session@ =~~= old(session)@.with_bodies(
            old(session)@.bodies.update(
                handle as int,
                Some(
                    old(session)@.bodies[handle as int].unwrap() + old(mem)@.subrange(
                        addr as int,
                        addr + spec_read_len(old(mem)@.len() as int, addr as int, size as int),
                    ),
                ),
            ),
        ));
    }
    Ok(status::OK)
}

/// Writes the body at `body_handle` into guest memory at `buf`, bounded by
/// the end of memory, and writes the count through `nread_out`. A bad handle
/// is reported with the bad-handle status and changes nothing.
pub fn read(
    session: &mut Session,
    mem: &mut Memory,
    body_handle: i32,
    buf: i32,
    buf_len: i32,
    nread_out: i32,
) -> (r: Result<i32, Trap>)
    requires
        old(mem)@.len() <= 0x7fffffff,
    ensures
        !old(session)@.body_handle_ok(body_handle) ==> r == Ok::<i32, Trap>(status::BADF) && final(session)@ == old(session)@ && final(mem)@ == old(mem)@,
        final(session)@ == old(session)@,
        old(session)@.body_handle_ok(body_handle) ==> {
            let body = old(session)@.bodies[body_handle as int].unwrap();
            let n = spec_write_len(old(mem)@.len() as int, buf as int, body.len() as int);
            let write_ok = 0 <= buf <= old(mem)@.len() && 0 <= nread_out && nread_out + 4 <= old(mem)@.len();
            &&& (!write_ok ==> r == Err::<i32, Trap>(Trap::MemoryWrite) && final(mem)@ == old(mem)@)
            &&& (write_ok ==> r == Ok::<i32, Trap>(status::OK) && final(mem)@ == spec_store_u32(
                spec_write_bytes(old(mem)@, buf as int, body),
                nread_out as int,
                n as u32,
            ))
        },
{
    let _ = buf_len;
    if body_handle < 0 || (body_handle as usize) >= session.bodies.len() {
        return Ok(status::BADF);
    }
    let msize = mem.size();
    match &session.bodies[body_handle as usize] {
        Some(body) => {
            if buf < 0 || (buf as usize) > msize {
                return Err(Trap::MemoryWrite);
            }
            if nread_out < 0 || msize < 4 || (nread_out as usize) > msize - 4 {
                return Err(Trap::MemoryWrite);
            }
            let written = match mem.write_bytes(buf, body.as_slice()) {
                Ok(n) => n,
                Err(t) => {
                    return Err(t);
                },
            };
            let w = mem.write_u32(nread_out, written as u32);
            proof {
                assert(w is Ok);
            }
            Ok(status::OK)
        },
        None => Ok(status::BADF),
    }
}

/// Appends a copy of the body at `src_handle` to the body at `dst_handle`;
/// the source stays usable. A bad handle on either side is reported with the
/// bad-handle status and changes nothing.
pub fn append(session: &mut Session, dst_handle: i32, src_handle: i32) -> (r: Result<i32, Trap>)
    ensures
        (!old(session)@.body_handle_ok(src_handle) || !old(session)@.body_handle_ok(dst_handle))
            ==> r == Ok::<i32, Trap>(status::BADF) && final(session)@ == old(session)@,
        old(session)@.body_handle_ok(src_handle) && old(session)@.body_handle_ok(dst_handle) ==> r
            == Ok::<i32, Trap>(status::OK) && final(session)@ == old(session)@.with_bodies(
            old(session)@.bodies.update(
                dst_handle as int,
                Some(
                    old(session)@.bodies[dst_handle as int].unwrap()
                        + old(session)@.bodies[src_handle as int].unwrap(),
                ),
            ),
        ),
        r is Ok,
        old(session)@.wf() ==> final(session)@.wf(),
{
    if src_handle < 0 || (src_handle as usize) >= session.bodies.len() {
        return Ok(status::BADF);
    }
    let src = match &session.bodies[src_handle as usize] {
        Some(b) => vstd::slice::slice_to_vec(b.as_slice()),
        None => {
            return Ok(status::BADF);
        },
    };
    if dst_handle < 0 || (dst_handle as usize) >= session.bodies.len() {
        return Ok(status::BADF);
    }
    let slot = vec_index_mut(&mut session.bodies, dst_handle as usize);
    match slot {
        Some(b) => {
            b.extend_from_slice(src.as_slice());
        },
        None => {
            return Ok(status::BADF);
        },
    }
    proof {
        assert(session@ =~~= old(session)@.with_bodies(
            old(session)@.bodies.update(
                dst_handle as int,
                Some(
                    old(session)@.bodies[dst_handle as int].unwrap()
                        + old(session)@.bodies[src_handle as int].unwrap(),
                ),
            ),
        ));
    }
    Ok(status::OK)
}

} // verus!
