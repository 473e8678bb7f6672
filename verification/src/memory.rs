//! Guest linear memory and the little-endian codec on it.
//!
//! The guest's linear memory is modelled as a flat byte vector. All integer
//! marshalling of the host-call ABI is little-endian. Byte writes are bounded
//! by the end of memory and report how many bytes were written; byte reads may
//! come up short at the end of memory. Out-of-range offsets trap.

use crate::status::Trap;
use vstd::bytes::{spec_u32_from_le_bytes, spec_u32_to_le_bytes, u32_from_le_bytes, u32_to_le_bytes};
use vstd::prelude::*;

verus! {

/// A guest's linear memory: a flat, fixed-length byte buffer.
pub struct Memory {
    data: Vec<u8>,
}

/// How many of the `amount` bytes requested at `offset` a read of a buffer of
/// length `len` yields: short reads happen at the end of memory.
pub open spec fn spec_read_len(len: int, offset: int, amount: int) -> int {
    if amount <= len - offset {
        amount
    } else {
        len - offset
    }
}

/// How many bytes of `bs` a bounded write at `offset` into a buffer of length
/// `len` stores.
pub open spec fn spec_write_len(len: int, offset: int, bs: int) -> int {
    if bs <= len - offset {
        bs
    } else {
        len - offset
    }
}

/// The buffer `m` after a bounded write of `bs` at `offset`.
pub open spec fn spec_write_bytes(m: Seq<u8>, offset: int, bs: Seq<u8>) -> Seq<u8> {
    let n = spec_write_len(m.len() as int, offset, bs.len() as int);
    m.take(offset) + bs.take(n) + m.skip(offset + n)
}

/// The buffer `m` with the four little-endian bytes of `v` stored at
/// `offset`.
pub open spec fn spec_store_u32(m: Seq<u8>, offset: int, v: u32) -> Seq<u8> {
    m.take(offset) + spec_u32_to_le_bytes(v) + m.skip(offset + 4)
}

/// The buffer `m` with the four little-endian bytes of the signed `v` stored
/// at `offset`.
pub open spec fn spec_store_i32(m: Seq<u8>, offset: int, v: i32) -> Seq<u8> {
    m.take(offset) + spec_i32_to_le_bytes(v) + m.skip(offset + 4)
}

/// The little-endian bytes of a signed 32-bit value: those of its unsigned
/// reinterpretation.
pub open spec fn spec_i32_to_le_bytes(x: i32) -> Seq<u8> {
    spec_u32_to_le_bytes(x as u32)
}

/// The signed 32-bit value read from four little-endian bytes.
pub open spec fn spec_i32_from_le_bytes(s: Seq<u8>) -> i32 {
    spec_u32_from_le_bytes(s) as i32
}

impl View for Memory {
    type V = Seq<u8>;

    closed spec fn view(&self) -> Seq<u8> {
        self.data@
    }
}

impl Memory {
    /// Wraps a byte buffer as a guest memory.
    pub fn new(data: Vec<u8>) -> (r: Memory)
        ensures
            r@ == data@,
    {
        Memory { data }
    }

    /// The length of the memory in bytes.
    pub fn size(&self) -> (r: usize)
        ensures
            r == self@.len(),
    {
        self.data.len()
    }

    /// The whole memory, for an embedder that copies it back to the engine.
    pub fn bytes(&self) -> (r: &Vec<u8>)
        ensures
            r@ == self@,
    {
        &self.data
    }

    /// Reads up to `amount` bytes starting at `offset`, coming up short only
    /// at the end of memory; returns the count read and the bytes. Traps when
    /// `offset` lies outside the memory or a count is negative.
    pub fn read_bytes(&self, offset: i32, amount: i32) -> (r: Result<(usize, Vec<u8>), Trap>)
        ensures
            r is Ok <==> 0 <= offset <= self@.len() && 0 <= amount,
            r matches Ok((n, bs)) ==> {
                &&& n == spec_read_len(self@.len() as int, offset as int, amount as int)
                &&& bs@ == self@.subrange(offset as int, offset + n)
            },
            r matches Err(t) ==> t == Trap::MemoryRead,
    {
        if offset < 0 || amount < 0 || offset as usize > self.data.len() {
            return Err(Trap::MemoryRead);
        }
        let start = offset as usize;
        let n: usize = if (amount as usize) <= self.data.len() - start {
            amount as usize
        } else {
            self.data.len() - start
        };
        let mut bs: Vec<u8> = Vec::new();
        let mut i: usize = 0;
        while i < n
            invariant
                i <= n,
                start + n <= self.data.len(),
                bs@ == self@.subrange(start as int, start + i),
            decreases n - i,
        {
            bs.push(self.data[start + i]);
            assert(bs@ == self@.subrange(start as int, start + i + 1));
            i = i + 1;
        }
        Ok((n, bs))
    }

    /// Writes `bytes` starting at `offset`, bounded by the end of memory;
    /// returns how many bytes were written. Traps when `offset` lies outside
    /// the memory.
    pub fn write_bytes(&mut self, offset: i32, bytes: &[u8]) -> (r: Result<usize, Trap>)
        ensures
            r is Ok <==> 0 <= offset <= old(self)@.len(),
            r matches Ok(n) ==> {
                &&& n == spec_write_len(old(self)@.len() as int, offset as int, bytes@.len() as int)
                &&& final(self)@ == spec_write_bytes(old(self)@, offset as int, bytes@)
                &&& final(self)@.len() == old(self)@.len()
            },
            r matches Err(t) ==> t == Trap::MemoryWrite && final(self)@ == old(self)@,
    {
        if offset < 0 || offset as usize > self.data.len() {
            return Err(Trap::MemoryWrite);
        }
        let start = offset as usize;
        let n: usize = if bytes.len() <= self.data.len() - start {
            bytes.len()
        } else {
            self.data.len() - start
        };
        let mut i: usize = 0;
        while i < n
            invariant
                i <= n,
                start + n <= self.data.len(),
                n == spec_write_len(old(self)@.len() as int, start as int, bytes@.len() as int),
                n <= bytes@.len(),
                self@.len() == old(self)@.len(),
                self@ == old(self)@.take(start as int) + bytes@.take(i as int) + old(self)@.skip(
                    start + i,
                ),
            decreases n - i,
        {
            let slot = vstd::std_specs::vec::vec_index_mut(&mut self.data, start + i);
            *slot = bytes[i];
            assert(self@ == old(self)@.take(start as int) + bytes@.take(i + 1) + old(self)@.skip(
                start + i + 1,
            ));
            i = i + 1;
        }
        assert(self@ == spec_write_bytes(old(self)@, start as int, bytes@));
        Ok(n)
    }

    /// Writes the four little-endian bytes of `value` at `offset`. Traps when
    /// the four bytes do not fit.
    pub fn write_u32(&mut self, offset: i32, value: u32) -> (r: Result<(), Trap>)
        ensures
            r is Ok <==> 0 <= offset && offset + 4 <= old(self)@.len(),
            r is Ok ==> final(self)@ == spec_store_u32(old(self)@, offset as int, value),
            r is Ok ==> final(self)@.len() == old(self)@.len(),
            r matches Err(t) ==> t == Trap::MemoryWrite && final(self)@ == old(self)@,
    {
        if offset < 0 || self.data.len() < 4 || offset as usize > self.data.len() - 4 {
            return Err(Trap::MemoryWrite);
        }
        let bs = u32_to_le_bytes(value);
        let r = self.write_bytes(offset, bs.as_slice());
        assert(r matches Ok(n) && n == 4);
        assert(self@ == old(self)@.take(offset as int) + spec_u32_to_le_bytes(value) + old(
            self,
        )@.skip(offset + 4)) by {
            assert(spec_u32_to_le_bytes(value).take(4) == spec_u32_to_le_bytes(value));
        }
        Ok(())
    }

    /// Writes the four little-endian bytes of the signed `value` at `offset`.
    /// Traps when the four bytes do not fit.
    pub fn write_i32(&mut self, offset: i32, value: i32) -> (r: Result<(), Trap>)
        ensures
            r is Ok <==> 0 <= offset && offset + 4 <= old(self)@.len(),
            r is Ok ==> final(self)@ == spec_store_i32(old(self)@, offset as int, value),
            r is Ok ==> final(self)@.len() == old(self)@.len(),
            r matches Err(t) ==> t == Trap::MemoryWrite && final(self)@ == old(self)@,
    {
        self.write_u32(offset, value as u32)
    }

    /// Reads the unsigned 32-bit value stored little-endian at `offset`.
    /// Traps when four bytes are not available there.
    pub fn read_u32(&self, offset: i32) -> (r: Result<u32, Trap>)
        ensures
            r is Ok <==> 0 <= offset && offset + 4 <= self@.len(),
            r matches Ok(v) ==> v == spec_u32_from_le_bytes(self@.subrange(offset as int, offset + 4)),
            r matches Err(t) ==> t == Trap::MemoryRead,
    {
        if offset < 0 || self.data.len() < 4 || offset as usize > self.data.len() - 4 {
            return Err(Trap::MemoryRead);
        }
        let r = self.read_bytes(offset, 4);
        match r {
            Ok((_, bs)) => Ok(u32_from_le_bytes(bs.as_slice())),
            Err(t) => Err(t),
        }
    }

    /// Reads the signed 32-bit value stored little-endian at `offset`. Traps
    /// when four bytes are not available there.
    pub fn read_i32(&self, offset: i32) -> (r: Result<i32, Trap>)
        ensures
            r is Ok <==> 0 <= offset && offset + 4 <= self@.len(),
            r matches Ok(v) ==> v == spec_i32_from_le_bytes(self@.subrange(offset as int, offset + 4)),
            r matches Err(t) ==> t == Trap::MemoryRead,
    {
        match self.read_u32(offset) {
            Ok(v) => Ok(v as i32),
            Err(t) => Err(t),
        }
    }
}

/// A 32-bit value written little-endian reads back unchanged.
pub proof fn lemma_u32_le_round_trip(value: u32)
    ensures
        spec_u32_from_le_bytes(spec_u32_to_le_bytes(value)) == value,
{
    vstd::bytes::lemma_auto_spec_u32_to_from_le_bytes();
    assert(spec_u32_to_le_bytes(value).len() == 4);
}

/// A signed 32-bit value written little-endian reads back unchanged.
pub proof fn lemma_i32_le_round_trip(value: i32)
    ensures
        spec_i32_from_le_bytes(spec_i32_to_le_bytes(value)) == value,
{
    vstd::bytes::lemma_auto_spec_u32_to_from_le_bytes();
    assert(spec_u32_to_le_bytes(value as u32).len() == 4);
    assert((value as u32) as i32 == value) by (bit_vector);
}

/// Writing a 32-bit integer at an offset and reading four bytes back from the
/// same offset yields the value written: the little-endian round trip holds
/// at every in-range offset of every memory.
pub proof fn lemma_memory_u32_round_trip(m0: Seq<u8>, m1: Seq<u8>, offset: int, value: u32)
    requires
        0 <= offset,
        offset + 4 <= m0.len(),
        m1 == m0.take(offset) + spec_u32_to_le_bytes(value) + m0.skip(offset + 4),
    ensures
        spec_u32_from_le_bytes(m1.subrange(offset, offset + 4)) == value,
{
    vstd::bytes::lemma_auto_spec_u32_to_from_le_bytes();
    assert(spec_u32_to_le_bytes(value).len() == 4);
    assert(m1.subrange(offset, offset + 4) == spec_u32_to_le_bytes(value));
}

} // verus!
