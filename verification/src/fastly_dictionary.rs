//! The `fastly_dictionary` host calls: open a named dictionary into the
//! session, and look a key up through its handle.

use crate::dictionary::{spec_dict_lookup, Dictionary, DictionaryView};
use crate::memory::{spec_read_len, spec_store_i32, spec_write_bytes, spec_write_len, Memory};
use crate::session::Session;
use crate::status::{self, Trap};
use vstd::prelude::*;
use vstd::string::StrSliceExecFns;
use vstd::utf8::{decode_utf8, valid_utf8};

verus! {

/// The index of the first configured dictionary with the given name.
pub open spec fn spec_find_dict(tables: Seq<DictionaryView>, name: Seq<char>) -> Option<int>
    decreases tables.len(),
{
    if tables.len() == 0 {
        None
    } else if tables[0].name == name {
        Some(0int)
    } else {
        match spec_find_dict(tables.drop_first(), name) {
            Some(i) => Some(i + 1),
            None => None,
        }
    }
}

/// A first match at `i` decides the lookup.
pub proof fn lemma_find_dict_at(tables: Seq<DictionaryView>, name: Seq<char>, i: int)
    requires
        0 <= i < tables.len(),
        tables[i].name == name,
        forall|k: int| 0 <= k < i ==> #[trigger] tables[k].name != name,
    ensures
        spec_find_dict(tables, name) == Some(i),
    decreases i,
{
    if i == 0 {
    } else {
        let t1 = tables.drop_first();
        assert(t1[i - 1].name == name);
        assert forall|k: int| 0 <= k < i - 1 implies #[trigger] t1[k].name != name by {
            assert(t1[k] == tables[k + 1]);
        }
        lemma_find_dict_at(t1, name, i - 1);
    }
}

/// No match anywhere decides the lookup.
pub proof fn lemma_find_dict_none(tables: Seq<DictionaryView>, name: Seq<char>)
    requires
        forall|k: int| 0 <= k < tables.len() ==> #[trigger] tables[k].name != name,
    ensures
        spec_find_dict(tables, name) is None,
    decreases tables.len(),
{
    if tables.len() > 0 {
        let t1 = tables.drop_first();
        assert forall|k: int| 0 <= k < t1.len() implies #[trigger] t1[k].name != name by {
            assert(t1[k] == tables[k + 1]);
        }
        lemma_find_dict_none(t1, name);
    }
}

/// The element-wise views of a dictionary table.
pub open spec fn dict_views(tables: Seq<Dictionary>) -> Seq<DictionaryView> {
    Seq::new(tables.len(), |i: int| tables[i]@)
}

/// Opens the configured dictionary named by the bytes at `(addr, len)`: a
/// snapshot of it is appended to the session's dictionary table and the new
/// handle is written through `dict_out`. An unknown name is reported with the
/// invalid-argument status; a name that is not UTF-8 traps.
pub fn open(
    session: &mut Session,
    mem: &mut Memory,
    tables: &Vec<Dictionary>,
    addr: i32,
    len: i32,
    dict_out: i32,
) -> (r: Result<i32, Trap>)
    requires
        old(session)@.dictionaries.len() < 0x7fffffff,
    ensures
        ({
            let raw = old(mem)@.subrange(
                addr as int,
                addr + spec_read_len(old(mem)@.len() as int, addr as int, len as int),
            );
            let read_ok = 0 <= addr <= old(mem)@.len() && 0 <= len;
            let write_ok = 0 <= dict_out && dict_out + 4 <= old(mem)@.len();
            &&& (!read_ok ==> r == Err::<i32, Trap>(Trap::MemoryRead) && final(session)@ == old(session)@
                && final(mem)@ == old(mem)@)
            &&& (read_ok && !valid_utf8(raw) ==> r == Err::<i32, Trap>(Trap::InvalidUtf8) && final(session)@ == old(session)@ && final(mem)@ == old(mem)@)
            &&& (read_ok && valid_utf8(raw) ==> {
                let name = decode_utf8(raw);
                match spec_find_dict(dict_views(tables@), name) {
                    Some(i) => {
                        &&& (write_ok ==> r == Ok::<i32, Trap>(status::OK) && final(session)@ == old(session)@.with_dictionaries(
                            old(session)@.dictionaries.push(dict_views(tables@)[i]),
                        ) && final(mem)@ == spec_store_i32(
                            old(mem)@,
                            dict_out as int,
                            old(session)@.dictionaries.len() as i32,
                        ))
                        &&& (!write_ok ==> r == Err::<i32, Trap>(Trap::MemoryWrite) && final(session)@
                            == old(session)@ && final(mem)@ == old(mem)@)
                    },
                    None => r == Ok::<i32, Trap>(status::INVAL) && final(session)@ == old(session)@
                        && final(mem)@ == old(mem)@,
                }
            })
        }),
        old(session)@.wf() ==> final(session)@.wf(),
{
    let msize = mem.size();
    if addr < 0 || len < 0 || (addr as usize) > msize {
        return Err(Trap::MemoryRead);
    }
    let (_, raw) = match mem.read_bytes(addr, len) {
        Ok(v) => v,
        Err(t) => {
            return Err(t);
        },
    };
    let name = match crate::parse::utf8_to_string(raw.as_slice()) {
        Some(s) => s,
        None => {
            return Err(Trap::InvalidUtf8);
        },
    };
    let ghost rawv = old(mem)@.subrange(
        addr as int,
        addr + spec_read_len(old(mem)@.len() as int, addr as int, len as int),
    );
    let mut i: usize = 0;
    while i < tables.len()
        invariant
            i <= tables@.len(),
            session@ == old(session)@,
            mem@ == old(mem)@,
            msize == mem@.len(),
            old(session)@.dictionaries.len() < 0x7fffffff,
            0 <= addr <= old(mem)@.len(),
            0 <= len,
            rawv == old(mem)@.subrange(
                addr as int,
                addr + spec_read_len(old(mem)@.len() as int, addr as int, len as int),
            ),
            valid_utf8(rawv),
            name@ == decode_utf8(rawv),
            forall|k: int| 0 <= k < i ==> #[trigger] dict_views(tables@)[k].name != name@,
        decreases tables@.len() - i,
    {
        let t = &tables[i];
        if t.name == name {
            proof {
                lemma_find_dict_at(dict_views(tables@), name@, i as int);
            }
            if dict_out < 0 || msize < 4 || (dict_out as usize) > msize - 4 {
                return Err(Trap::MemoryWrite);
            }
            let index = session.dictionaries.len();
            session.dictionaries.push(t.duplicate());
            let w = mem.write_i32(dict_out, index as i32);
            proof {
                assert(w is Ok);
                assert(session@ =~~= old(session)@.with_dictionaries(
                    old(session)@.dictionaries.push(dict_views(tables@)[i as int]),
                ));
            }
            return Ok(status::OK);
        }
        i = i + 1;
    }
    proof {
        lemma_find_dict_none(dict_views(tables@), name@);
    }
    Ok(status::INVAL)
}

/// Looks the key at `(key_addr, key_len)` up in the dictionary at
/// `dict_handle`. A hit writes the value, truncated to `value_max_len` and
/// bounded by the end of memory, and its length through `nwritten`; a miss
/// writes a zero length. A bad handle is reported with the bad-handle status
/// and changes nothing; a key that is not UTF-8 traps.
pub fn get(
    session: &mut Session,
    mem: &mut Memory,
    dict_handle: i32,
    key_addr: i32,
    key_len: i32,
    value_addr: i32,
    value_max_len: i32,
    nwritten: i32,
) -> (r: Result<i32, Trap>)
    requires
        old(mem)@.len() <= 0x7fffffff,
    ensures
        final(session)@ == old(session)@,
        !old(session)@.dict_handle_ok(dict_handle) ==> r == Ok::<i32, Trap>(status::BADF)
            && final(mem)@ == old(mem)@,
        old(session)@.dict_handle_ok(dict_handle) ==> ({
            let raw = old(mem)@.subrange(
                key_addr as int,
                key_addr + spec_read_len(old(mem)@.len() as int, key_addr as int, key_len as int),
            );
            let read_ok = 0 <= key_addr <= old(mem)@.len() && 0 <= key_len;
            let write_ok = 0 <= nwritten && nwritten + 4 <= old(mem)@.len();
            &&& (!read_ok ==> r == Err::<i32, Trap>(Trap::MemoryRead) && final(mem)@ == old(mem)@)
            &&& (read_ok && !valid_utf8(raw) ==> r == Err::<i32, Trap>(Trap::InvalidUtf8)
                && final(mem)@ == old(mem)@)
            &&& (read_ok && valid_utf8(raw) && !write_ok ==> r == Err::<i32, Trap>(Trap::MemoryWrite)
                && final(mem)@ == old(mem)@)
            &&& (read_ok && valid_utf8(raw) && write_ok ==> {
                let key = decode_utf8(raw);
                match spec_dict_lookup(
                    old(session)@.dictionaries[dict_handle as int].entries,
                    key,
                ) {
                    Some(value) => {
                        let vb = vstd::utf8::encode_utf8(value);
                        let want: int = if value_max_len < 0 {
                            0
                        } else if vb.len() <= value_max_len {
                            vb.len() as int
                        } else {
                            value_max_len as int
                        };
                        let n = spec_write_len(old(mem)@.len() as int, value_addr as int, want);
                        &&& (0 <= value_addr <= old(mem)@.len() ==> r == Ok::<i32, Trap>(status::OK)
                            && final(mem)@ == spec_store_i32(
                            spec_write_bytes(old(mem)@, value_addr as int, vb.take(want)),
                            nwritten as int,
                            n as i32,
                        ))
                        &&& (!(0 <= value_addr <= old(mem)@.len()) ==> r == Err::<i32, Trap>(
                            Trap::MemoryWrite,
                        ) && final(mem)@ == old(mem)@)
                    },
                    None => r == Ok::<i32, Trap>(status::OK) && final(mem)@ == spec_store_i32(
                        old(mem)@,
                        nwritten as int,
                        0,
                    ),
                }
            })
        }),
{
    if dict_handle < 0 || (dict_handle as usize) >= session.dictionaries.len() {
        return Ok(status::BADF);
    }
    let msize = mem.size();
    if key_addr < 0 || key_len < 0 || (key_addr as usize) > msize {
        return Err(Trap::MemoryRead);
    }
    let (_, raw) = match mem.read_bytes(key_addr, key_len) {
        Ok(v) => v,
        Err(t) => {
            return Err(t);
        },
    };
    let key = match crate::parse::utf8_to_string(raw.as_slice()) {
        Some(s) => s,
        None => {
            return Err(Trap::InvalidUtf8);
        },
    };
    if nwritten < 0 || msize < 4 || (nwritten as usize) > msize - 4 {
        return Err(Trap::MemoryWrite);
    }
    let dict = &session.dictionaries[dict_handle as usize];
    match dict.get(&key) {
        Some(value) => {
            if value_addr < 0 || (value_addr as usize) > msize {
                return Err(Trap::MemoryWrite);
            }
            let vb = value.as_str().as_bytes_vec();
            let want: usize = if value_max_len < 0 {
                0
            } else if vb.len() <= value_max_len as usize {
                vb.len()
            } else {
                value_max_len as usize
            };
            let mut head: Vec<u8> = Vec::new();
            let mut i: usize = 0;
            while i < want
                invariant
                    i <= want,
                    want <= vb@.len(),
                    head@ == vb@.take(i as int),
                decreases want - i,
            {
                head.push(vb[i]);
                assert(head@ =~= vb@.take(i + 1));
                i = i + 1;
            }
            let written = match mem.write_bytes(value_addr, head.as_slice()) {
                Ok(n) => n,
                Err(t) => {
                    return Err(t);
                },
            };
            let w = mem.write_i32(nwritten, written as i32);
            proof {
                assert(w is Ok);
            }
            Ok(status::OK)
        },
        None => {
            let w = mem.write_i32(nwritten, 0);
            proof {
                assert(w is Ok);
            }
            Ok(status::OK)
        },
    }
}

} // verus!
