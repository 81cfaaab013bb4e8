//! Writing and reading the little-endian words that bytecode is made of.
use vstd::prelude::*;
use vstd::bytes::*;

use crate::ids::Reg;

verus! {

broadcast use vstd::seq_lib::group_seq_properties;

/// The two bytes of `v`, least significant first.
pub open spec fn le16(v: u16) -> Seq<u8> {
    spec_u16_to_le_bytes(v)
}

/// The four bytes of `v`, least significant first.
pub open spec fn le32(v: u32) -> Seq<u8> {
    spec_u32_to_le_bytes(v)
}

/// The eight bytes of `v`'s two's complement, least significant first.
pub open spec fn le64(v: i64) -> Seq<u8> {
    spec_u64_to_le_bytes(v as u64)
}

/// The `u16` whose little-endian bytes start `s`.
pub open spec fn read16(s: Seq<u8>) -> u16 {
    spec_u16_from_le_bytes(s.take(2))
}

/// The `u32` whose little-endian bytes start `s`.
pub open spec fn read32(s: Seq<u8>) -> u32 {
    spec_u32_from_le_bytes(s.take(4))
}

/// The `i64` whose little-endian two's complement bytes start `s`.
pub open spec fn read64(s: Seq<u8>) -> i64 {
    spec_u64_from_le_bytes(s.take(8)) as i64
}

/// The bytes of a register: its index as a `u16`.
pub open spec fn reg_bytes(r: Reg) -> Seq<u8> {
    le16(r.0 as u16)
}

/// Each write grows an encoder by its width: two bytes for a `u16` or a register, four for a
/// `u32`, eight for an `i64` or a float's bits (a `u8` is one byte, pushed as it is).
pub proof fn lemma_write_widths(a: u16, b: u32, c: i64, r: Reg)
    ensures
        le16(a).len() == 2,
        reg_bytes(r).len() == 2,
        le32(b).len() == 4,
        le64(c).len() == 8,
{
    lemma_words_roundtrip(a, b, c, Seq::empty());
    lemma_words_roundtrip(r.0 as u16, b, c, Seq::empty());
}

/// Reading back a little-endian word gives the word written, whatever follows it.
pub proof fn lemma_words_roundtrip(a: u16, b: u32, c: i64, rest: Seq<u8>)
    ensures
        le16(a).len() == 2,
        le32(b).len() == 4,
        le64(c).len() == 8,
        read16(le16(a) + rest) == a,
        read32(le32(b) + rest) == b,
        read64(le64(c) + rest) == c,
{
    lemma_auto_spec_u16_to_from_le_bytes();
    lemma_auto_spec_u32_to_from_le_bytes();
    lemma_auto_spec_u64_to_from_le_bytes();
    assert((le16(a) + rest).take(2) =~= le16(a));
    assert((le32(b) + rest).take(4) =~= le32(b));
    assert((le64(c) + rest).take(8) =~= le64(c));
    let u = c as u64;
    assert((u as i64) == c) by (bit_vector)
        requires
            u == c as u64,
    ;
}

/// Appends the bytes of compiled code.
pub struct Encoder(Vec<u8>);

impl View for Encoder {
    type V = Seq<u8>;

    closed spec fn view(&self) -> Seq<u8> {
        self.0@
    }
}

impl Encoder {
    pub fn new() -> (e: Self)
        ensures
            e@ == Seq::<u8>::empty(),
    {
        Encoder(Vec::new())
    }

    /// How many bytes have been written.
    pub fn len(&self) -> (n: usize)
        ensures
            n == self@.len(),
    {
        self.0.len()
    }

    /// The bytes written.
    pub fn finish(self) -> (bytes: Vec<u8>)
        ensures
            bytes@ == self@,
    {
        self.0
    }

    pub fn u8(&mut self, v: u8)
        ensures
            final(self)@ == old(self)@.push(v),
    {
        self.0.push(v);
    }

    fn extend(&mut self, bytes: Vec<u8>)
        ensures
            final(self)@ == old(self)@ + bytes@,
    {
        let mut i: usize = 0;
        while i < bytes.len()
            invariant
                i <= bytes@.len(),
                self@ == old(self)@ + bytes@.take(i as int),
            decreases bytes@.len() - i,
        {
            self.0.push(bytes[i]);
            assert(bytes@.take(i + 1) =~= bytes@.take(i as int).push(bytes@[i as int]));
            i += 1;
        }
        assert(bytes@.take(i as int) =~= bytes@);
    }

    /// A register, as its index in two bytes. The index has to fit a `u16`.
    pub fn reg(&mut self, v: Reg)
        requires
            v.0 <= u16::MAX,
        ensures
            final(self)@ == old(self)@ + reg_bytes(v),
    {
        self.u16(v.0 as u16);
    }

    pub fn u16(&mut self, v: u16)
        ensures
            final(self)@ == old(self)@ + le16(v),
    {
        self.extend(u16_to_le_bytes(v));
    }

    pub fn u32(&mut self, v: u32)
        ensures
            final(self)@ == old(self)@ + le32(v),
    {
        self.extend(u32_to_le_bytes(v));
    }

    pub fn i64(&mut self, v: i64)
        ensures
            final(self)@ == old(self)@ + le64(v),
    {
        self.extend(u64_to_le_bytes(v as u64));
    }

    /// Writes a float, given by its bits, in the float's little-endian byte order.
    pub fn float_bits(&mut self, bits: u64)
        ensures
            final(self)@ == old(self)@ + le64(bits as i64),
    {
        assert((bits as i64) as u64 == bits) by (bit_vector);
        self.extend(u64_to_le_bytes(bits));
    }
}

/// Reads compiled code from `bytes`, starting at `ip`.
pub struct Decoder {
    pub bytes: Vec<u8>,
    pub ip: usize,
}

impl Decoder {
    /// The bytes from `ip` on.
    pub open spec fn rest(&self) -> Seq<u8> {
        self.bytes@.skip(self.ip as int)
    }

    fn take(&self, at: usize, n: usize) -> (v: Vec<u8>)
        requires
            at + n <= self.bytes.len(),
        ensures
            v@ == self.bytes@.subrange(at as int, at + n),
    {
        let mut v: Vec<u8> = Vec::new();
        let mut i: usize = 0;
        while i < n
            invariant
                i <= n,
                at + n <= self.bytes.len(),
                v@ == self.bytes@.subrange(at as int, at + i),
            decreases n - i,
        {
            v.push(self.bytes[at + i]);
            assert(self.bytes@.subrange(at as int, at + i + 1) =~= self.bytes@.subrange(
                at as int,
                at + i,
            ).push(self.bytes@[at + i]));
            i += 1;
        }
        v
    }

    pub fn u8(&mut self) -> (v: u8)
        requires
            old(self).ip < old(self).bytes.len(),
        ensures
            v == old(self).rest()[0],
            final(self).bytes == old(self).bytes,
            final(self).ip == old(self).ip + 1,
    {
        let v = self.bytes[self.ip];
        self.ip += 1;
        v
    }

    pub fn u16(&mut self) -> (v: u16)
        requires
            old(self).ip + 2 <= old(self).bytes.len(),
        ensures
            v == read16(old(self).rest()),
            final(self).bytes == old(self).bytes,
            final(self).ip == old(self).ip + 2,
    {
        let w = self.take(self.ip, 2);
        assert(w@ =~= self.rest().take(2));
        let v = u16_from_le_bytes(w.as_slice());
        self.ip += 2;
        v
    }

    pub fn u32(&mut self) -> (v: u32)
        requires
            old(self).ip + 4 <= old(self).bytes.len(),
        ensures
            v == read32(old(self).rest()),
            final(self).bytes == old(self).bytes,
            final(self).ip == old(self).ip + 4,
    {
        let v = self.peek_u32(self.ip);
        self.ip += 4;
        v
    }

    /// The `u32` at `at`, leaving `ip` where it is.
    pub fn peek_u32(&self, at: usize) -> (v: u32)
        requires
            at + 4 <= self.bytes.len(),
        ensures
            v == read32(self.bytes@.skip(at as int)),
    {
        let w = self.take(at, 4);
        assert(w@ =~= self.bytes@.skip(at as int).take(4));
        u32_from_le_bytes(w.as_slice())
    }

    pub fn i64(&mut self) -> (v: i64)
        requires
            old(self).ip + 8 <= old(self).bytes.len(),
        ensures
            v == read64(old(self).rest()),
            final(self).bytes == old(self).bytes,
            final(self).ip == old(self).ip + 8,
    {
        let w = self.take(self.ip, 8);
        assert(w@ =~= self.rest().take(8));
        let v = u64_from_le_bytes(w.as_slice());
        self.ip += 8;
        v as i64
    }

    /// Reads a float written by [`Encoder::float_bits`], as its bits.
    pub fn float_bits(&mut self) -> (bits: u64)
        requires
            old(self).ip + 8 <= old(self).bytes.len(),
        ensures
            bits == read64(old(self).rest()) as u64,
            final(self).bytes == old(self).bytes,
            final(self).ip == old(self).ip + 8,
    {
        let w = self.take(self.ip, 8);
        assert(w@ =~= self.rest().take(8));
        let v = u64_from_le_bytes(w.as_slice());
        assert((v as i64) as u64 == v) by (bit_vector);
        self.ip += 8;
        v
    }
}

} // verus!
