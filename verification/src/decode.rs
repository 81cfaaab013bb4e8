//! Reading one operand value at the decoder's position, for each type the VM reads.
use vstd::prelude::*;

use crate::constant::{parse_const, Constant};
use crate::field::{parse_part, parse_reg, parse_target, BlockTarget, OpFormatPart};
use crate::ids::{AdtId, BodyId, NativeId, Reg, StrId};
use crate::op::{opcode_byte, OpCode};
use crate::ops::{
    access_kind_of_byte, bin_op_of_byte, unary_op_of_byte, AccessKind, BinOp, UnaryOp,
};
use crate::wire::{read32, Decoder};

verus! {

/// A value that can be read from bytecode at the decoder's position.
pub trait Decode: Sized {
    /// Whether a value of this type can be read from the start of `s`.
    spec fn readable(s: Seq<u8>) -> bool;

    /// Whether reading from the start of `s` gives `v` and takes `n` bytes.
    spec fn decodes(s: Seq<u8>, v: Self, n: nat) -> bool;

    /// Reads a value and moves the decoder past it.
    fn decode(decoder: &mut Decoder) -> (v: Self)
        requires
            old(decoder).ip <= old(decoder).bytes.len(),
            Self::readable(old(decoder).rest()),
        ensures
            final(decoder).bytes == old(decoder).bytes,
            old(decoder).ip <= final(decoder).ip <= final(decoder).bytes.len(),
            Self::decodes(old(decoder).rest(), v, (final(decoder).ip - old(decoder).ip) as nat),
    ;
}

impl Decode for bool {
    /// One byte.
    open spec fn readable(s: Seq<u8>) -> bool {
        s.len() >= 1
    }

    /// A byte other than zero is true.
    open spec fn decodes(s: Seq<u8>, v: bool, n: nat) -> bool {
        v == (s[0] != 0) && n == 1
    }

    fn decode(decoder: &mut Decoder) -> (v: bool) {
        decoder.u8() != 0
    }
}

impl Decode for OpCode {
    open spec fn readable(s: Seq<u8>) -> bool {
        s.len() >= 1 && s[0] < OpCode::COUNT
    }

    open spec fn decodes(s: Seq<u8>, v: OpCode, n: nat) -> bool {
        opcode_byte(v) == s[0] && n == 1
    }

    fn decode(decoder: &mut Decoder) -> (v: OpCode) {
        match OpCode::from_byte(decoder.u8()) {
            Some(c) => c,
            None => {
                assert(false);
                OpCode::Panic
            },
        }
    }
}

impl Decode for BinOp {
    open spec fn readable(s: Seq<u8>) -> bool {
        s.len() >= 1 && bin_op_of_byte(s[0]) is Some
    }

    open spec fn decodes(s: Seq<u8>, v: BinOp, n: nat) -> bool {
        bin_op_of_byte(s[0]) == Some(v) && n == 1
    }

    fn decode(decoder: &mut Decoder) -> (v: BinOp) {
        match BinOp::from_byte(decoder.u8()) {
            Some(b) => b,
            None => {
                assert(false);
                BinOp::Add
            },
        }
    }
}

impl Decode for UnaryOp {
    open spec fn readable(s: Seq<u8>) -> bool {
        s.len() >= 1 && unary_op_of_byte(s[0]) is Some
    }

    open spec fn decodes(s: Seq<u8>, v: UnaryOp, n: nat) -> bool {
        unary_op_of_byte(s[0]) == Some(v) && n == 1
    }

    fn decode(decoder: &mut Decoder) -> (v: UnaryOp) {
        match UnaryOp::from_byte(decoder.u8()) {
            Some(u) => u,
            None => {
                assert(false);
                UnaryOp::Not
            },
        }
    }
}

impl Decode for AccessKind {
    open spec fn readable(s: Seq<u8>) -> bool {
        s.len() >= 1 && access_kind_of_byte(s[0]) is Some
    }

    open spec fn decodes(s: Seq<u8>, v: AccessKind, n: nat) -> bool {
        access_kind_of_byte(s[0]) == Some(v) && n == 1
    }

    fn decode(decoder: &mut Decoder) -> (v: AccessKind) {
        match AccessKind::from_byte(decoder.u8()) {
            Some(a) => a,
            None => {
                assert(false);
                AccessKind::Direct
            },
        }
    }
}

impl Decode for Constant {
    open spec fn readable(s: Seq<u8>) -> bool {
        parse_const(s) is Some
    }

    open spec fn decodes(s: Seq<u8>, v: Constant, n: nat) -> bool {
        parse_const(s) == Some((v.model(), n))
    }

    fn decode(decoder: &mut Decoder) -> (v: Constant) {
        match Constant::try_decode(decoder) {
            Some(c) => c,
            None => {
                assert(false);
                Constant::Null
            },
        }
    }
}

impl Decode for Reg {
    /// Two bytes, little-endian.
    open spec fn readable(s: Seq<u8>) -> bool {
        parse_reg(s) is Some
    }

    open spec fn decodes(s: Seq<u8>, v: Reg, n: nat) -> bool {
        parse_reg(s) == Some((v, n))
    }

    fn decode(decoder: &mut Decoder) -> (v: Reg) {
        Reg(decoder.u16() as u32)
    }
}

impl Decode for BodyId {
    /// Four bytes, little-endian.
    open spec fn readable(s: Seq<u8>) -> bool {
        s.len() >= 4
    }

    open spec fn decodes(s: Seq<u8>, v: BodyId, n: nat) -> bool {
        v.0 == read32(s) && n == 4
    }

    fn decode(decoder: &mut Decoder) -> (v: BodyId) {
        BodyId(decoder.u32())
    }
}

impl Decode for AdtId {
    /// Four bytes, little-endian.
    open spec fn readable(s: Seq<u8>) -> bool {
        s.len() >= 4
    }

    open spec fn decodes(s: Seq<u8>, v: AdtId, n: nat) -> bool {
        v.0 == read32(s) && n == 4
    }

    fn decode(decoder: &mut Decoder) -> (v: AdtId) {
        AdtId(decoder.u32())
    }
}

impl Decode for NativeId {
    /// Four bytes, little-endian.
    open spec fn readable(s: Seq<u8>) -> bool {
        s.len() >= 4
    }

    open spec fn decodes(s: Seq<u8>, v: NativeId, n: nat) -> bool {
        v.0 == read32(s) && n == 4
    }

    fn decode(decoder: &mut Decoder) -> (v: NativeId) {
        NativeId(decoder.u32())
    }
}

impl Decode for BlockTarget {
    /// A byte offset, in four bytes.
    open spec fn readable(s: Seq<u8>) -> bool {
        parse_target(s) is Some
    }

    open spec fn decodes(s: Seq<u8>, v: BlockTarget, n: nat) -> bool {
        parse_target(s) == Some((v, n))
    }

    fn decode(decoder: &mut Decoder) -> (v: BlockTarget) {
        BlockTarget::ByteOffset(decoder.u32() as usize)
    }
}

impl Decode for OpFormatPart {
    /// A tag byte, then a string id in four bytes or a register in two.
    open spec fn readable(s: Seq<u8>) -> bool {
        parse_part(s) is Some
    }

    open spec fn decodes(s: Seq<u8>, v: OpFormatPart, n: nat) -> bool {
        parse_part(s) == Some((v, n))
    }

    fn decode(decoder: &mut Decoder) -> (v: OpFormatPart) {
        let ghost s = decoder.rest();
        let tag = decoder.u8();
        assert(decoder.rest() =~= s.skip(1));
        if tag == 0 {
            OpFormatPart::Literal(StrId(decoder.u32()))
        } else {
            OpFormatPart::Value(Reg(decoder.u16() as u32))
        }
    }
}

} // verus!
