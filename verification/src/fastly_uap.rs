//! The `fastly_uap` host call: parse a user-agent string into product family,
//! major, minor and patch fields.
//!
//! The rule list is data: a small product table in the format the user-agent
//! parsing library reads. Matching is the library's; the call writes whatever
//! fields the match produced back into guest memory.

use crate::memory::{spec_read_len, spec_store_i32, spec_write_bytes, spec_write_len, Memory};
use crate::status::{self, Trap};
use vstd::prelude::*;
use vstd::string::StrSliceExecFns;
use vstd::utf8::{decode_utf8, encode_utf8, valid_utf8};

verus! {

/// The product rules handed to the user-agent parsing library: one generic
/// `name/major.minor.patch` pattern.
pub const UAP_RULES: &'static str = "user_agent_parsers:\n  - regex: '(\\w+)/(\\d+)\\.(\\d+)(?:\\.(\\d+))?'\n";

/// The view of an optional product field.
pub open spec fn opt_text(o: Option<String>) -> Option<Seq<char>> {
    match o {
        Some(s) => Some(s@),
        None => None,
    }
}

/// What the user-agent parser's product match returns for a string: family,
/// major, minor and patch, each possibly absent.
pub uninterp spec fn ua_product_of(s: Seq<char>) -> (
    Option<Seq<char>>,
    Option<Seq<char>>,
    Option<Seq<char>>,
    Option<Seq<char>>,
);

/// Relies on user-agent-parser's `UserAgentParser::from_str` and
/// `parse_product` over the fixed rule list above: the product fields depend
/// on the user-agent string alone, named `ua_product_of`.
#[verifier::external_body]
fn parse_product(ua: &str) -> (r: (Option<String>, Option<String>, Option<String>, Option<String>))
    ensures
        (opt_text(r.0), opt_text(r.1), opt_text(r.2), opt_text(r.3)) == ua_product_of(ua@),
{
    let parser = user_agent_parser::UserAgentParser::from_str(UAP_RULES).expect("fixed rules");
    let p = parser.parse_product(ua);
    (
        p.name.map(|v| v.into_owned()),
        p.major.map(|v| v.into_owned()),
        p.minor.map(|v| v.into_owned()),
        p.patch.map(|v| v.into_owned()),
    )
}

/// The guest memory after one product field is delivered: the field's bytes
/// at `pos`, bounded by the end of memory, and the count written through
/// `written_out`. An absent field is the empty string: no bytes land at
/// `pos`, and a zero count is written through `written_out`.
pub open spec fn spec_field_mem(m: Seq<u8>, field: Option<Seq<char>>, pos: i32, written_out: i32) -> Seq<
    u8,
> {
    match field {
        Some(text) => {
            let b = encode_utf8(text);
            let n = spec_write_len(m.len() as int, pos as int, b.len() as int);
            spec_store_i32(spec_write_bytes(m, pos as int, b), written_out as int, n as i32)
        },
        None => spec_store_i32(m, written_out as int, 0),
    }
}

/// Whether the writes delivering one product field land inside the memory:
/// the count slot is always written, the buffer only when the field is
/// present.
pub open spec fn spec_field_ok(mlen: int, field: Option<Seq<char>>, pos: i32, written_out: i32) -> bool {
    &&& 0 <= written_out && written_out + 4 <= mlen
    &&& (field is Some ==> 0 <= pos <= mlen)
}

/// Parses the user-agent string at `(user_agent, user_agent_max_len)` and
/// writes each product field — family, major, minor, patch — to its position
/// with its byte count through its out-pointer; an absent field is delivered
/// as the empty string with a zero count, so every out-pointer is written
/// before the call succeeds. A string that is not UTF-8 traps.
pub fn parse(
    mem: &mut Memory,
    user_agent: i32,
    user_agent_max_len: i32,
    family_pos: i32,
    family_max_len: i32,
    family_written: i32,
    major_pos: i32,
    major_max_len: i32,
    major_written: i32,
    minor_pos: i32,
    minor_max_len: i32,
    minor_written: i32,
    patch_pos: i32,
    patch_max_len: i32,
    patch_written: i32,
) -> (r: Result<i32, Trap>)
    requires
        old(mem)@.len() <= 0x7fffffff,
    ensures
        ({
            let raw = old(mem)@.subrange(
                user_agent as int,
                user_agent + spec_read_len(
                    old(mem)@.len() as int,
                    user_agent as int,
                    user_agent_max_len as int,
                ),
            );
            let read_ok = 0 <= user_agent <= old(mem)@.len() && 0 <= user_agent_max_len;
            &&& (!read_ok ==> r == Err::<i32, Trap>(Trap::MemoryRead) && final(mem)@ == old(mem)@)
            &&& (read_ok && !valid_utf8(raw) ==> r == Err::<i32, Trap>(Trap::InvalidUtf8)
                && final(mem)@ == old(mem)@)
            &&& (read_ok && valid_utf8(raw) ==> ({
                let (family, major, minor, patch) = ua_product_of(decode_utf8(raw));
                let mlen = old(mem)@.len() as int;
                let fields_ok = spec_field_ok(mlen, family, family_pos, family_written)
                    && spec_field_ok(mlen, major, major_pos, major_written) && spec_field_ok(
                    mlen,
                    minor,
                    minor_pos,
                    minor_written,
                ) && spec_field_ok(mlen, patch, patch_pos, patch_written);
                &&& (!fields_ok ==> r == Err::<i32, Trap>(Trap::MemoryWrite) && final(mem)@ == old(
                    mem,
                )@)
                &&& (fields_ok ==> r == Ok::<i32, Trap>(status::OK) && final(mem)@ == spec_field_mem(
                    spec_field_mem(
                        spec_field_mem(
                            spec_field_mem(old(mem)@, family, family_pos, family_written),
                            major,
                            major_pos,
                            major_written,
                        ),
                        minor,
                        minor_pos,
                        minor_written,
                    ),
                    patch,
                    patch_pos,
                    patch_written,
                ))
            }))
        }),
{
    let _ = (family_max_len, major_max_len, minor_max_len, patch_max_len);
    let msize = mem.size();
    if user_agent < 0 || user_agent_max_len < 0 || (user_agent as usize) > msize {
        return Err(Trap::MemoryRead);
    }
    let (_, raw) = match mem.read_bytes(user_agent, user_agent_max_len) {
        Ok(v) => v,
        Err(t) => {
            return Err(t);
        },
    };
    let ua = match crate::parse::utf8_to_string(raw.as_slice()) {
        Some(s) => s,
        None => {
            return Err(Trap::InvalidUtf8);
        },
    };
    let (family, major, minor, patch) = parse_product(ua.as_str());
    if !field_writes_ok(msize, &family, family_pos, family_written) {
        return Err(Trap::MemoryWrite);
    }
    if !field_writes_ok(msize, &major, major_pos, major_written) {
        return Err(Trap::MemoryWrite);
    }
    if !field_writes_ok(msize, &minor, minor_pos, minor_written) {
        return Err(Trap::MemoryWrite);
    }
    if !field_writes_ok(msize, &patch, patch_pos, patch_written) {
        return Err(Trap::MemoryWrite);
    }
    write_field(mem, &family, family_pos, family_written);
    write_field(mem, &major, major_pos, major_written);
    write_field(mem, &minor, minor_pos, minor_written);
    write_field(mem, &patch, patch_pos, patch_written);
    Ok(status::OK)
}

/// Whether the writes delivering one field will land inside the memory.
fn field_writes_ok(msize: usize, field: &Option<String>, pos: i32, written_out: i32) -> (r: bool)
    ensures
        r == spec_field_ok(msize as int, opt_text(*field), pos, written_out),
{
    let count_ok = written_out >= 0 && msize >= 4 && (written_out as usize) <= msize - 4;
    match field {
        Some(_) => count_ok && pos >= 0 && (pos as usize) <= msize,
        None => count_ok,
    }
}

/// Delivers one product field into guest memory.
fn write_field(mem: &mut Memory, field: &Option<String>, pos: i32, written_out: i32)
    requires
        old(mem)@.len() <= 0x7fffffff,
        spec_field_ok(old(mem)@.len() as int, opt_text(*field), pos, written_out),
    ensures
        final(mem)@ == spec_field_mem(old(mem)@, opt_text(*field), pos, written_out),
        final(mem)@.len() == old(mem)@.len(),
{
    match field {
        Some(text) => {
            let bytes = text.as_str().as_bytes_vec();
            let written = match mem.write_bytes(pos, bytes.as_slice()) {
                Ok(n) => n,
                Err(_) => {
                    proof {
                        assert(false);
                    }
                    return ;
                },
            };
            let w = mem.write_i32(written_out, written as i32);
            proof {
                assert(w is Ok);
            }
        },
        None => {
            let w = mem.write_i32(written_out, 0);
            proof {
                assert(w is Ok);
            }
        },
    }
}

} // verus!
