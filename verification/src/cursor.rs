//! Cursor-driven enumeration: the guest passes a position, the host writes
//! one item followed by a single NUL byte and hands back the next position,
//! with `-1` signalling the end.

use crate::memory::{spec_store_i32, spec_write_bytes, spec_write_len, Memory};
use crate::status::{self, Trap};
use vstd::prelude::*;

verus! {

/// The item an enumeration of `items` yields at `cursor`: none when the
/// cursor lies outside the list (in particular after the end, or negative).
pub open spec fn spec_cursor_item(items: Seq<Seq<u8>>, cursor: i32) -> Option<Seq<u8>> {
    if 0 <= cursor < items.len() {
        Some(items[cursor as int])
    } else {
        None
    }
}

/// The cursor handed back with the item at `cursor`: the next position, or
/// `-1` when no item follows.
pub open spec fn spec_cursor_next(items: Seq<Seq<u8>>, cursor: i32) -> i32 {
    if 0 <= cursor < 0x7fffffff && cursor + 1 < items.len() {
        (cursor + 1) as i32
    } else {
        (-1) as i32
    }
}

/// The guest memory after an enumeration step over `items` at `cursor`:
/// item bytes and a NUL at `addr` and the two out-slots filled, or only the
/// out-slots, with `nwritten` zero, past the end.
pub open spec fn spec_cursor_mem(
    m: Seq<u8>,
    items: Seq<Seq<u8>>,
    addr: i32,
    cursor: i32,
    ending_cursor_out: i32,
    nwritten_out: i32,
) -> Seq<u8> {
    match spec_cursor_item(items, cursor) {
        Some(item) => {
            let payload = item.push(0u8);
            let nw = spec_write_len(m.len() as int, addr as int, payload.len() as int);
            spec_store_i32(
                spec_store_i32(
                    spec_write_bytes(m, addr as int, payload),
                    nwritten_out as int,
                    nw as i32,
                ),
                ending_cursor_out as int,
                spec_cursor_next(items, cursor),
            )
        },
        None => spec_store_i32(spec_store_i32(m, nwritten_out as int, 0), ending_cursor_out as int, (-1) as i32),
    }
}

/// Whether all the writes of an enumeration step land inside the memory.
pub open spec fn spec_cursor_writes_ok(
    m: Seq<u8>,
    items: Seq<Seq<u8>>,
    addr: i32,
    cursor: i32,
    ending_cursor_out: i32,
    nwritten_out: i32,
) -> bool {
    &&& (spec_cursor_item(items, cursor) is Some ==> 0 <= addr <= m.len())
    &&& 0 <= nwritten_out && nwritten_out + 4 <= m.len()
    &&& 0 <= ending_cursor_out && ending_cursor_out + 4 <= m.len()
}

/// One enumeration step: writes the item at `cursor` followed by one NUL byte
/// to `addr` and the count of bytes written and the next cursor through the
/// two out-pointers; past the end it writes a zero count and `-1`. Traps when
/// a write lands outside the memory.
pub fn cursor_write(
    mem: &mut Memory,
    items: &Vec<Vec<u8>>,
    addr: i32,
    cursor: i32,
    ending_cursor_out: i32,
    nwritten_out: i32,
) -> (r: Result<i32, Trap>)
    requires
        old(mem)@.len() <= 0x7fffffff,
    ensures
        r matches Ok(st) ==> st == status::OK,
        r is Ok <==> spec_cursor_writes_ok(
            old(mem)@,
            crate::bytelex::views_of(items@),
            addr,
            cursor,
            ending_cursor_out,
            nwritten_out,
        ),
        r is Ok ==> final(mem)@ == spec_cursor_mem(
            old(mem)@,
            crate::bytelex::views_of(items@),
            addr,
            cursor,
            ending_cursor_out,
            nwritten_out,
        ),
        r matches Err(t) ==> t == Trap::MemoryWrite && final(mem)@ == old(mem)@,
        final(mem)@.len() == old(mem)@.len(),
{
    let ghost its = crate::bytelex::views_of(items@);
    let msize = mem.size();
    if nwritten_out < 0 || msize < 4 || (nwritten_out as usize) > msize - 4 {
        return Err(Trap::MemoryWrite);
    }
    if ending_cursor_out < 0 || (ending_cursor_out as usize) > msize - 4 {
        return Err(Trap::MemoryWrite);
    }
    if cursor >= 0 && (cursor as usize) < items.len() {
        if addr < 0 || (addr as usize) > msize {
            return Err(Trap::MemoryWrite);
        }
        let item = &items[cursor as usize];
        proof {
            assert(its[cursor as int] == item@);
        }
        let mut payload: Vec<u8> = Vec::new();
        let mut i: usize = 0;
        while i < item.len()
            invariant
                i <= item@.len(),
                payload@ == item@.take(i as int),
            decreases item@.len() - i,
        {
            payload.push(item[i]);
            assert(payload@ =~= item@.take(i + 1));
            i = i + 1;
        }
        proof {
            assert(item@.take(item@.len() as int) =~= item@);
        }
        payload.push(0);
        let written = match mem.write_bytes(addr, payload.as_slice()) {
            Ok(n) => n,
            Err(_) => {
                return Err(Trap::MemoryWrite);
            },
        };
        if mem.write_i32(nwritten_out, written as i32).is_err() {
            return Err(Trap::MemoryWrite);
        }
        let next: i32 = if cursor < 0x7fffffff && (cursor as usize) + 1 < items.len() {
            cursor + 1
        } else {
            -1
        };
        if mem.write_i32(ending_cursor_out, next).is_err() {
            return Err(Trap::MemoryWrite);
        }
        proof {
            assert(payload@ == its[cursor as int].push(0u8));
        }
        Ok(status::OK)
    } else {
        if mem.write_i32(nwritten_out, 0).is_err() {
            return Err(Trap::MemoryWrite);
        }
        if mem.write_i32(ending_cursor_out, -1).is_err() {
            return Err(Trap::MemoryWrite);
        }
        Ok(status::OK)
    }
}

/// The items an enumeration walk started at `cursor` still yields, following
/// the handed-back cursor until the end marker.
pub open spec fn spec_cursor_walk(items: Seq<Seq<u8>>, cursor: int) -> Seq<Seq<u8>>
    decreases items.len() - cursor when 0 <= cursor <= items.len()
{
    if cursor < 0 || cursor >= items.len() {
        Seq::empty()
    } else {
        seq![items[cursor]] + spec_cursor_walk(items, cursor + 1)
    }
}

/// A walk from any position yields exactly the items from that position on.
pub proof fn lemma_cursor_walk_suffix(items: Seq<Seq<u8>>, cursor: int)
    requires
        0 <= cursor <= items.len(),
    ensures
        spec_cursor_walk(items, cursor) == items.skip(cursor),
    decreases items.len() - cursor,
{
    if cursor >= items.len() {
        assert(spec_cursor_walk(items, cursor) =~= items.skip(cursor));
    } else {
        lemma_cursor_walk_suffix(items, cursor + 1);
        assert(seq![items[cursor]] + items.skip(cursor + 1) =~= items.skip(cursor));
    }
}

/// Restarting an enumeration from position zero yields every item exactly
/// once, in order, and the end marker comes exactly when the items have run
/// out: the walk from zero is the item list itself.
pub proof fn lemma_cursor_walk_restart(items: Seq<Seq<u8>>)
    ensures
        spec_cursor_walk(items, 0) == items,
        forall|c: i32| c >= items.len() || c < 0 ==> #[trigger] spec_cursor_item(
            items,
            c,
        ) is None,
{
    lemma_cursor_walk_suffix(items, 0);
    assert(items.skip(0) =~= items);
}

} // verus!
