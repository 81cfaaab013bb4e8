//! The operands of a bytecode op, one kind of wire encoding each.
use vstd::prelude::*;

use crate::constant::{
    const_bytes, const_wf, lemma_const_roundtrip, lemma_parse_const_len, parse_const, prefixed,
    ConstValue, Constant,
};
use crate::ids::{Reg, StrId};
use crate::list::{flat, lemma_flat_push, lemma_list_len, lemma_list_roundtrip, lemma_list_step, parse_list};
use crate::ops::{
    access_kind_byte, access_kind_of_byte, bin_op_byte, bin_op_of_byte, lemma_access_kind_byte_roundtrip,
    lemma_bin_op_byte_roundtrip, lemma_unary_op_byte_roundtrip, unary_op_byte, unary_op_of_byte,
    AccessKind, BinOp, UnaryOp,
};
use crate::wire::{le16, le32, le64, lemma_words_roundtrip, read16, read32, read64, reg_bytes, Decoder, Encoder};

verus! {

broadcast use vstd::seq_lib::group_seq_properties;

/// Where a jump lands: a block of the IR while a body is compiled, a byte offset in the
/// finished program.
#[derive(Debug, Clone, Copy, PartialEq, Eq, Structural)]
pub enum BlockTarget {
    Block(crate::ids::BlockId),
    ByteOffset(usize),
}

/// A piece of a format string: literal text, or a register whose value is shown.
#[derive(Debug, Clone, Copy, PartialEq, Eq, Structural)]
pub enum OpFormatPart {
    Literal(StrId),
    Value(Reg),
}

/// The wire tag of each kind of [`OpFormatPart`].
#[derive(Debug, Clone, Copy, PartialEq, Eq, Structural)]
pub enum OpFormatPartCode {
    Literal,
    Value,
}

/// How an operand is written.
#[derive(Debug, Clone, Copy, PartialEq, Eq, Structural)]
pub enum WireKind {
    Reg,
    Word,
    Imm,
    Access,
    Bin,
    Unary,
    Regs,
    Jump,
    Konst,
    Parts,
    Flag,
    Table,
}

/// The value of an operand.
pub enum WireField {
    Reg(Reg),
    Word(u32),
    Imm(i64),
    Access(AccessKind),
    Bin(BinOp),
    Unary(UnaryOp),
    Regs(Seq<Reg>),
    Jump(BlockTarget),
    Konst(ConstValue),
    Parts(Seq<OpFormatPart>),
    Flag(bool),
    Table(Seq<BlockTarget>),
}

/// An operand, as the encoder writes it and the decoder reads it.
pub enum Field {
    Reg(Reg),
    Word(u32),
    Imm(i64),
    Access(AccessKind),
    Bin(BinOp),
    Unary(UnaryOp),
    Regs(Vec<Reg>),
    Jump(BlockTarget),
    Konst(Constant),
    Parts(Vec<OpFormatPart>),
    Flag(bool),
    Table(Vec<BlockTarget>),
}

impl View for Field {
    type V = WireField;

    open spec fn view(&self) -> WireField {
        match self {
            Field::Reg(r) => WireField::Reg(*r),
            Field::Word(w) => WireField::Word(*w),
            Field::Imm(v) => WireField::Imm(*v),
            Field::Access(a) => WireField::Access(*a),
            Field::Bin(b) => WireField::Bin(*b),
            Field::Unary(u) => WireField::Unary(*u),
            Field::Regs(v) => WireField::Regs(v@),
            Field::Jump(t) => WireField::Jump(*t),
            Field::Konst(c) => WireField::Konst(c.model()),
            Field::Parts(v) => WireField::Parts(v@),
            Field::Flag(b) => WireField::Flag(*b),
            Field::Table(v) => WireField::Table(v@),
        }
    }
}

pub open spec fn field_kind(f: WireField) -> WireKind {
    match f {
        WireField::Reg(_) => WireKind::Reg,
        WireField::Word(_) => WireKind::Word,
        WireField::Imm(_) => WireKind::Imm,
        WireField::Access(_) => WireKind::Access,
        WireField::Bin(_) => WireKind::Bin,
        WireField::Unary(_) => WireKind::Unary,
        WireField::Regs(_) => WireKind::Regs,
        WireField::Jump(_) => WireKind::Jump,
        WireField::Konst(_) => WireKind::Konst,
        WireField::Parts(_) => WireKind::Parts,
        WireField::Flag(_) => WireKind::Flag,
        WireField::Table(_) => WireKind::Table,
    }
}

/// A resolved jump target: its byte offset in four bytes.
pub open spec fn target_bytes(t: BlockTarget) -> Seq<u8> {
    match t {
        BlockTarget::ByteOffset(off) => le32(off as u32),
        BlockTarget::Block(_) => Seq::empty(),
    }
}

/// A format part: its tag, then a string id in four bytes or a register in two.
pub open spec fn part_bytes(p: OpFormatPart) -> Seq<u8> {
    match p {
        OpFormatPart::Literal(s) => seq![0u8] + le32(s.0),
        OpFormatPart::Value(r) => seq![1u8] + reg_bytes(r),
    }
}

pub open spec fn regs_bytes(rs: Seq<Reg>) -> Seq<u8> {
    flat(rs, |r: Reg| reg_bytes(r))
}

pub open spec fn targets_bytes(ts: Seq<BlockTarget>) -> Seq<u8> {
    flat(ts, |t: BlockTarget| target_bytes(t))
}

pub open spec fn parts_bytes(ps: Seq<OpFormatPart>) -> Seq<u8> {
    flat(ps, |p: OpFormatPart| part_bytes(p))
}

/// The bytes of an operand. A register list carries its length in one byte, a format string
/// and a jump table theirs in two.
pub open spec fn field_bytes(f: WireField) -> Seq<u8> {
    match f {
        WireField::Reg(r) => reg_bytes(r),
        WireField::Word(w) => le32(w),
        WireField::Imm(v) => le64(v),
        WireField::Access(a) => seq![access_kind_byte(a)],
        WireField::Bin(b) => seq![bin_op_byte(b)],
        WireField::Unary(u) => seq![unary_op_byte(u)],
        WireField::Regs(rs) => seq![rs.len() as u8] + regs_bytes(rs),
        WireField::Jump(t) => target_bytes(t),
        WireField::Konst(c) => const_bytes(c),
        WireField::Parts(ps) => le16(ps.len() as u16) + parts_bytes(ps),
        WireField::Flag(b) => seq![if b { 1u8 } else { 0u8 }],
        WireField::Table(ts) => le16(ts.len() as u16) + targets_bytes(ts),
    }
}

pub open spec fn reg_wf(r: Reg) -> bool {
    r.0 <= u16::MAX
}

pub open spec fn target_wf(t: BlockTarget) -> bool {
    match t {
        BlockTarget::ByteOffset(off) => off <= u32::MAX,
        BlockTarget::Block(_) => false,
    }
}

pub open spec fn part_wf(p: OpFormatPart) -> bool {
    match p {
        OpFormatPart::Literal(_) => true,
        OpFormatPart::Value(r) => reg_wf(r),
    }
}

pub open spec fn regs_wf(rs: Seq<Reg>) -> bool {
    forall|i: int| 0 <= i < rs.len() ==> reg_wf(#[trigger] rs[i])
}

pub open spec fn parts_wf(ps: Seq<OpFormatPart>) -> bool {
    forall|i: int| 0 <= i < ps.len() ==> part_wf(#[trigger] ps[i])
}

pub open spec fn targets_wf(ts: Seq<BlockTarget>) -> bool {
    forall|i: int| 0 <= i < ts.len() ==> target_wf(#[trigger] ts[i])
}

/// What the encoder needs to write an operand: registers fit two bytes, jump targets are
/// resolved to offsets that fit four, and a format string or a jump table has at most
/// `u16::MAX` entries. (A longer register list is written with its length cut to one byte.)
pub open spec fn field_encodable(f: WireField) -> bool {
    match f {
        WireField::Reg(r) => reg_wf(r),
        WireField::Regs(rs) => regs_wf(rs),
        WireField::Jump(t) => target_wf(t),
        WireField::Parts(ps) => ps.len() <= u16::MAX && parts_wf(ps),
        WireField::Table(ts) => ts.len() <= u16::MAX && targets_wf(ts),
        _ => true,
    }
}

/// An operand that reads back as itself: encodable, a register list of at most 255, and every
/// array constant with a length that fits four bytes.
pub open spec fn field_wf(f: WireField) -> bool {
    &&& field_encodable(f)
    &&& match f {
        WireField::Regs(rs) => rs.len() <= 255,
        WireField::Konst(c) => const_wf(c),
        _ => true,
    }
}

pub open spec fn parse_reg(s: Seq<u8>) -> Option<(Reg, nat)> {
    if s.len() >= 2 {
        Some((Reg(read16(s) as u32), 2))
    } else {
        None
    }
}

pub open spec fn parse_target(s: Seq<u8>) -> Option<(BlockTarget, nat)> {
    if s.len() >= 4 {
        Some((BlockTarget::ByteOffset(read32(s) as usize), 4))
    } else {
        None
    }
}

pub open spec fn parse_part(s: Seq<u8>) -> Option<(OpFormatPart, nat)> {
    if s.len() >= 1 && s[0] == 0 && s.len() >= 5 {
        Some((OpFormatPart::Literal(StrId(read32(s.skip(1)))), 5))
    } else if s.len() >= 1 && s[0] == 1 && s.len() >= 3 {
        Some((OpFormatPart::Value(Reg(read16(s.skip(1)) as u32)), 3))
    } else {
        None
    }
}

pub open spec fn parse_regs(n: nat, s: Seq<u8>) -> Option<(Seq<Reg>, nat)> {
    parse_list(n, s, |b: Seq<u8>| parse_reg(b))
}

pub open spec fn parse_targets(n: nat, s: Seq<u8>) -> Option<(Seq<BlockTarget>, nat)> {
    parse_list(n, s, |b: Seq<u8>| parse_target(b))
}

pub open spec fn parse_parts(n: nat, s: Seq<u8>) -> Option<(Seq<OpFormatPart>, nat)> {
    parse_list(n, s, |b: Seq<u8>| parse_part(b))
}

/// `r`'s items, `k` bytes after the `extra` bytes in front of them, as the operand `wrap` makes.
pub open spec fn wrap_list<T>(
    r: Option<(Seq<T>, nat)>,
    extra: nat,
    wrap: spec_fn(Seq<T>) -> WireField,
) -> Option<(WireField, nat)> {
    match r {
        Some((xs, k)) => Some((wrap(xs), extra + k)),
        None => None,
    }
}

/// Reads an operand of kind `k` from the start of `s`: its value and how many bytes it took.
pub open spec fn parse_field(k: WireKind, s: Seq<u8>) -> Option<(WireField, nat)> {
    match k {
        WireKind::Reg => match parse_reg(s) {
            Some((r, n)) => Some((WireField::Reg(r), n)),
            None => None,
        },
        WireKind::Word => if s.len() >= 4 {
            Some((WireField::Word(read32(s)), 4))
        } else {
            None
        },
        WireKind::Imm => if s.len() >= 8 {
            Some((WireField::Imm(read64(s)), 8))
        } else {
            None
        },
        WireKind::Access => if s.len() >= 1 && access_kind_of_byte(s[0]) is Some {
            Some((WireField::Access(access_kind_of_byte(s[0])->0), 1))
        } else {
            None
        },
        WireKind::Bin => if s.len() >= 1 && bin_op_of_byte(s[0]) is Some {
            Some((WireField::Bin(bin_op_of_byte(s[0])->0), 1))
        } else {
            None
        },
        WireKind::Unary => if s.len() >= 1 && unary_op_of_byte(s[0]) is Some {
            Some((WireField::Unary(unary_op_of_byte(s[0])->0), 1))
        } else {
            None
        },
        WireKind::Regs => if s.len() >= 1 {
            wrap_list(parse_regs(s[0] as nat, s.skip(1)), 1, |rs: Seq<Reg>| WireField::Regs(rs))
        } else {
            None
        },
        WireKind::Jump => match parse_target(s) {
            Some((t, n)) => Some((WireField::Jump(t), n)),
            None => None,
        },
        WireKind::Konst => match parse_const(s) {
            Some((c, n)) => Some((WireField::Konst(c), n)),
            None => None,
        },
        WireKind::Parts => if s.len() >= 2 {
            wrap_list(
                parse_parts(read16(s) as nat, s.skip(2)),
                2,
                |ps: Seq<OpFormatPart>| WireField::Parts(ps),
            )
        } else {
            None
        },
        WireKind::Flag => if s.len() >= 1 {
            Some((WireField::Flag(s[0] != 0), 1))
        } else {
            None
        },
        WireKind::Table => if s.len() >= 2 {
            wrap_list(
                parse_targets(read16(s) as nat, s.skip(2)),
                2,
                |ts: Seq<BlockTarget>| WireField::Table(ts),
            )
        } else {
            None
        },
    }
}

/// A well-formed operand reads back as itself from its bytes, whatever follows them.
pub proof fn lemma_field_roundtrip(f: WireField, rest: Seq<u8>)
    requires
        field_wf(f),
    ensures
        parse_field(field_kind(f), field_bytes(f) + rest) == Some((f, field_bytes(f).len())),
{
    let s = field_bytes(f) + rest;
    match f {
        WireField::Reg(r) => {
            lemma_words_roundtrip(r.0 as u16, 0, 0, rest);
        },
        WireField::Word(w) => {
            lemma_words_roundtrip(0, w, 0, rest);
        },
        WireField::Imm(v) => {
            lemma_words_roundtrip(0, 0, v, rest);
        },
        WireField::Access(a) => {
            lemma_access_kind_byte_roundtrip(a);
        },
        WireField::Bin(b) => {
            lemma_bin_op_byte_roundtrip(b);
        },
        WireField::Unary(u) => {
            lemma_unary_op_byte_roundtrip(u);
        },
        WireField::Regs(rs) => {
            assert(s.skip(1) =~= regs_bytes(rs) + rest);
            let f_ = |r: Reg| reg_bytes(r);
            let p_ = |b: Seq<u8>| parse_reg(b);
            assert forall|i: int, r: Seq<u8>| 0 <= i < rs.len() implies #[trigger] p_(f_(rs[i]) + r)
                == Some((rs[i], f_(rs[i]).len())) by {
                assert(reg_wf(rs[i]));
                lemma_words_roundtrip(rs[i].0 as u16, 0, 0, r);
            }
            lemma_list_roundtrip(rs, rest, f_, p_);
        },
        WireField::Jump(t) => {
            if let BlockTarget::ByteOffset(off) = t {
                lemma_words_roundtrip(0, off as u32, 0, rest);
            }
        },
        WireField::Konst(c) => {
            lemma_const_roundtrip(c, rest);
        },
        WireField::Parts(ps) => {
            lemma_words_roundtrip(ps.len() as u16, 0, 0, parts_bytes(ps) + rest);
            assert(s =~= le16(ps.len() as u16) + (parts_bytes(ps) + rest));
            assert(s.skip(2) =~= parts_bytes(ps) + rest);
            let f_ = |p: OpFormatPart| part_bytes(p);
            let p_ = |b: Seq<u8>| parse_part(b);
            assert forall|i: int, r: Seq<u8>| 0 <= i < ps.len() implies #[trigger] p_(f_(ps[i]) + r)
                == Some((ps[i], f_(ps[i]).len())) by {
                assert(part_wf(ps[i]));
                let b = f_(ps[i]) + r;
                match ps[i] {
                    OpFormatPart::Literal(id) => {
                        lemma_words_roundtrip(0, id.0, 0, r);
                        assert(b.skip(1) =~= le32(id.0) + r);
                    },
                    OpFormatPart::Value(reg) => {
                        lemma_words_roundtrip(reg.0 as u16, 0, 0, r);
                        assert(b.skip(1) =~= le16(reg.0 as u16) + r);
                    },
                }
            }
            lemma_list_roundtrip(ps, rest, f_, p_);
        },
        WireField::Flag(b) => {
        },
        WireField::Table(ts) => {
            lemma_words_roundtrip(ts.len() as u16, 0, 0, targets_bytes(ts) + rest);
            assert(s =~= le16(ts.len() as u16) + (targets_bytes(ts) + rest));
            assert(s.skip(2) =~= targets_bytes(ts) + rest);
            let f_ = |t: BlockTarget| target_bytes(t);
            let p_ = |b: Seq<u8>| parse_target(b);
            assert forall|i: int, r: Seq<u8>| 0 <= i < ts.len() implies #[trigger] p_(f_(ts[i]) + r)
                == Some((ts[i], f_(ts[i]).len())) by {
                assert(target_wf(ts[i]));
                if let BlockTarget::ByteOffset(off) = ts[i] {
                    lemma_words_roundtrip(0, off as u32, 0, r);
                }
            }
            lemma_list_roundtrip(ts, rest, f_, p_);
        },
    }
}

pub proof fn lemma_fixed_lens(rs: Seq<Reg>, ts: Seq<BlockTarget>)
    requires
        targets_wf(ts),
    ensures
        regs_bytes(rs).len() == 2 * rs.len(),
        targets_bytes(ts).len() == 4 * ts.len(),
    decreases rs.len() + ts.len(),
{
    if rs.len() > 0 {
        lemma_words_roundtrip(rs[0].0 as u16, 0, 0, Seq::empty());
        lemma_fixed_lens(rs.drop_first(), ts);
    } else if ts.len() > 0 {
        assert(target_wf(ts[0]));
        if let BlockTarget::ByteOffset(off) = ts[0] {
            lemma_words_roundtrip(0, off as u32, 0, Seq::empty());
        }
        assert forall|i: int| 0 <= i < ts.drop_first().len() implies target_wf(
            #[trigger] ts.drop_first()[i],
        ) by {
            assert(ts.drop_first()[i] == ts[i + 1]);
        }
        lemma_fixed_lens(rs, ts.drop_first());
    }
}

pub proof fn lemma_part_len(p: OpFormatPart)
    ensures
        part_bytes(p).len() == (match p {
            OpFormatPart::Literal(_) => 5nat,
            OpFormatPart::Value(_) => 3nat,
        }),
{
    lemma_words_roundtrip(
        match p {
            OpFormatPart::Value(r) => r.0 as u16,
            _ => 0,
        },
        match p {
            OpFormatPart::Literal(id) => id.0,
            _ => 0,
        },
        0,
        Seq::empty(),
    );
}

pub proof fn lemma_parts_prefix(ps: Seq<OpFormatPart>, i: int)
    requires
        0 <= i <= ps.len(),
    ensures
        parts_bytes(ps.take(i)).len() <= parts_bytes(ps).len(),
    decreases ps.len() - i,
{
    if i < ps.len() {
        lemma_parts_prefix(ps, i + 1);
        lemma_flat_push(ps.take(i), ps[i], |p: OpFormatPart| part_bytes(p));
        assert(ps.take(i + 1) =~= ps.take(i).push(ps[i]));
    }
}

/// Writes an operand.
pub fn encode_field(f: &Field, e: &mut Encoder)
    requires
        field_encodable(f@),
    ensures
        final(e)@ == old(e)@ + field_bytes(f@),
{
    match f {
        Field::Reg(r) => e.reg(*r),
        Field::Word(w) => e.u32(*w),
        Field::Imm(v) => e.i64(*v),
        Field::Access(a) => e.u8(a.to_byte()),
        Field::Bin(b) => e.u8(b.to_byte()),
        Field::Unary(u) => e.u8(u.to_byte()),
        Field::Regs(v) => {
            e.u8(v.len() as u8);
            let ghost start = e@;
            let mut i: usize = 0;
            while i < v.len()
                invariant
                    i <= v@.len(),
                    regs_wf(v@),
                    e@ == start + regs_bytes(v@.take(i as int)),
                decreases v@.len() - i,
            {
                proof {
                    lemma_flat_push(v@.take(i as int), v@[i as int], |r: Reg| reg_bytes(r));
                    assert(v@.take(i + 1) =~= v@.take(i as int).push(v@[i as int]));
                }
                e.reg(v[i]);
                i += 1;
            }
            assert(v@.take(i as int) =~= v@);
        },
        Field::Jump(t) => match t {
            BlockTarget::ByteOffset(off) => e.u32(*off as u32),
            BlockTarget::Block(_) => {
                assert(false);
            },
        },
        Field::Konst(c) => {
            e.u8(crate::constant::constant_discriminant(c));
            c.encode(e);
        },
        Field::Parts(v) => {
            e.u16(v.len() as u16);
            let ghost start = e@;
            let mut i: usize = 0;
            while i < v.len()
                invariant
                    i <= v@.len(),
                    parts_wf(v@),
                    e@ == start + parts_bytes(v@.take(i as int)),
                decreases v@.len() - i,
            {
                proof {
                    lemma_flat_push(v@.take(i as int), v@[i as int], |p: OpFormatPart| part_bytes(p));
                    assert(v@.take(i + 1) =~= v@.take(i as int).push(v@[i as int]));
                }
                let ghost before = e@;
                match v[i] {
                    OpFormatPart::Literal(id) => {
                        e.u8(0);
                        e.u32(id.0);
                    },
                    OpFormatPart::Value(r) => {
                        e.u8(1);
                        e.reg(r);
                    },
                }
                assert(e@ =~= before + part_bytes(v@[i as int]));
                i += 1;
            }
            assert(v@.take(i as int) =~= v@);
        },
        Field::Flag(b) => e.u8(if *b { 1 } else { 0 }),
        Field::Table(v) => {
            e.u16(v.len() as u16);
            let ghost start = e@;
            let mut i: usize = 0;
            while i < v.len()
                invariant
                    i <= v@.len(),
                    targets_wf(v@),
                    e@ == start + targets_bytes(v@.take(i as int)),
                decreases v@.len() - i,
            {
                proof {
                    lemma_flat_push(v@.take(i as int), v@[i as int], |t: BlockTarget| target_bytes(t));
                    assert(v@.take(i + 1) =~= v@.take(i as int).push(v@[i as int]));
                }
                match v[i] {
                    BlockTarget::ByteOffset(off) => e.u32(off as u32),
                    BlockTarget::Block(_) => {
                        assert(target_wf(v@[i as int]));
                    },
                }
                i += 1;
            }
            assert(v@.take(i as int) =~= v@);
        },
    }
}

/// How many bytes an operand takes.
pub fn field_len(f: &Field) -> (n: usize)
    requires
        field_encodable(f@),
        field_bytes(f@).len() <= usize::MAX,
    ensures
        n == field_bytes(f@).len(),
{
    proof {
        lemma_words_roundtrip(0, 0, 0, Seq::empty());
    }
    match f {
        Field::Reg(r) => {
            proof {
                lemma_words_roundtrip(r.0 as u16, 0, 0, Seq::empty());
            }
            2
        },
        Field::Word(w) => {
            proof {
                lemma_words_roundtrip(0, *w, 0, Seq::empty());
            }
            4
        },
        Field::Imm(v) => {
            proof {
                lemma_words_roundtrip(0, 0, *v, Seq::empty());
            }
            8
        },
        Field::Access(_) | Field::Bin(_) | Field::Unary(_) | Field::Flag(_) => 1,
        Field::Regs(v) => {
            proof {
                lemma_fixed_lens(v@, Seq::empty());
            }
            1 + v.len() * 2
        },
        Field::Jump(t) => {
            proof {
                if let BlockTarget::ByteOffset(off) = *t {
                    lemma_words_roundtrip(0, off as u32, 0, Seq::empty());
                }
            }
            4
        },
        Field::Konst(c) => 1 + c.byte_len(),
        Field::Parts(v) => {
            proof {
                lemma_words_roundtrip(v@.len() as u16, 0, 0, Seq::empty());
                lemma_parts_prefix(v@, 0);
            }
            let mut total: usize = 2;
            let mut i: usize = 0;
            while i < v.len()
                invariant
                    i <= v@.len(),
                    field_bytes(f@).len() <= usize::MAX,
                    field_bytes(f@).len() == 2 + parts_bytes(v@).len(),
                    total == 2 + parts_bytes(v@.take(i as int)).len(),
                decreases v@.len() - i,
            {
                proof {
                    lemma_flat_push(v@.take(i as int), v@[i as int], |p: OpFormatPart| part_bytes(p));
                    assert(v@.take(i + 1) =~= v@.take(i as int).push(v@[i as int]));
                    lemma_parts_prefix(v@, i + 1);
                    lemma_part_len(v@[i as int]);
                }
                total = total + match v[i] {
                    OpFormatPart::Literal(_) => 5,
                    OpFormatPart::Value(_) => 3,
                };
                i += 1;
            }
            assert(v@.take(i as int) =~= v@);
            total
        },
        Field::Table(v) => {
            proof {
                lemma_words_roundtrip(v@.len() as u16, 0, 0, Seq::empty());
                lemma_fixed_lens(Seq::empty(), v@);
            }
            2 + v.len() * 4
        },
    }
}

/// What reading a list gave, against what the spec parser says of the bytes it started at.
pub open spec fn list_read<T>(r: Option<Seq<T>>, p: Option<(Seq<T>, nat)>, ip0: usize, ip1: usize) -> bool {
    match (r, p) {
        (Some(xs), Some((ys, n))) => xs == ys && ip1 == ip0 + n,
        (None, None) => true,
        _ => false,
    }
}

pub open spec fn opt_view<T>(v: Option<Vec<T>>) -> Option<Seq<T>> {
    match v {
        Some(v) => Some(v@),
        None => None,
    }
}

fn decode_regs(d: &mut Decoder, n: u16) -> (r: Option<Vec<Reg>>)
    requires
        old(d).ip <= old(d).bytes.len(),
    ensures
        final(d).bytes == old(d).bytes,
        final(d).ip <= final(d).bytes.len(),
        list_read(opt_view(r), parse_regs(n as nat, old(d).rest()), old(d).ip, final(d).ip),
{
    let ghost s0 = d.rest();
    let ghost start = d.ip;
    let mut out: Vec<Reg> = Vec::new();
    let mut i: u16 = 0;
    while i < n
        invariant
            d.bytes == old(d).bytes,
            start == old(d).ip,
            start <= d.ip <= d.bytes.len(),
            i <= n,
            s0 == d.bytes@.skip(start as int),
            parse_regs(n as nat, s0) == prefixed(
                out@,
                (d.ip - start) as nat,
                parse_regs((n - i) as nat, d.rest()),
            ),
        decreases n - i,
    {
        let ghost before = d.rest();
        if d.bytes.len() - d.ip < 2 {
            assert(parse_regs((n - i) as nat, before) is None);
            return None;
        }
        let r = Reg(d.u16() as u32);
        proof {
            lemma_list_step(
                (n - i) as nat,
                before,
                |b: Seq<u8>| parse_reg(b),
                out@,
                (d.ip - 2 - start) as nat,
                r,
                2,
            );
            assert(d.rest() =~= before.skip(2));
        }
        out.push(r);
        i += 1;
    }
    assert(out@ + Seq::<Reg>::empty() =~= out@);
    Some(out)
}

fn decode_targets(d: &mut Decoder, n: u16) -> (r: Option<Vec<BlockTarget>>)
    requires
        old(d).ip <= old(d).bytes.len(),
    ensures
        final(d).bytes == old(d).bytes,
        final(d).ip <= final(d).bytes.len(),
        list_read(opt_view(r), parse_targets(n as nat, old(d).rest()), old(d).ip, final(d).ip),
{
    let ghost s0 = d.rest();
    let ghost start = d.ip;
    let mut out: Vec<BlockTarget> = Vec::new();
    let mut i: u16 = 0;
    while i < n
        invariant
            d.bytes == old(d).bytes,
            start == old(d).ip,
            start <= d.ip <= d.bytes.len(),
            i <= n,
            s0 == d.bytes@.skip(start as int),
            parse_targets(n as nat, s0) == prefixed(
                out@,
                (d.ip - start) as nat,
                parse_targets((n - i) as nat, d.rest()),
            ),
        decreases n - i,
    {
        let ghost before = d.rest();
        if d.bytes.len() - d.ip < 4 {
            assert(parse_targets((n - i) as nat, before) is None);
            return None;
        }
        let t = BlockTarget::ByteOffset(d.u32() as usize);
        proof {
            lemma_list_step(
                (n - i) as nat,
                before,
                |b: Seq<u8>| parse_target(b),
                out@,
                (d.ip - 4 - start) as nat,
                t,
                4,
            );
            assert(d.rest() =~= before.skip(4));
        }
        out.push(t);
        i += 1;
    }
    assert(out@ + Seq::<BlockTarget>::empty() =~= out@);
    Some(out)
}

fn decode_part(d: &mut Decoder) -> (r: Option<OpFormatPart>)
    requires
        old(d).ip <= old(d).bytes.len(),
    ensures
        final(d).bytes == old(d).bytes,
        final(d).ip <= final(d).bytes.len(),
        match (r, parse_part(old(d).rest())) {
            (Some(p), Some((q, n))) => p == q && final(d).ip == old(d).ip + n,
            (None, None) => true,
            _ => false,
        },
{
    let ghost s = d.rest();
    if d.bytes.len() - d.ip < 1 {
        return None;
    }
    let tag = d.u8();
    assert(d.rest() =~= s.skip(1));
    let left = d.bytes.len() - d.ip;
    if tag == 0 && left >= 4 {
        Some(OpFormatPart::Literal(StrId(d.u32())))
    } else if tag == 1 && left >= 2 {
        Some(OpFormatPart::Value(Reg(d.u16() as u32)))
    } else {
        None
    }
}

fn decode_parts(d: &mut Decoder, n: u16) -> (r: Option<Vec<OpFormatPart>>)
    requires
        old(d).ip <= old(d).bytes.len(),
    ensures
        final(d).bytes == old(d).bytes,
        final(d).ip <= final(d).bytes.len(),
        list_read(opt_view(r), parse_parts(n as nat, old(d).rest()), old(d).ip, final(d).ip),
{
    let ghost s0 = d.rest();
    let ghost start = d.ip;
    let mut out: Vec<OpFormatPart> = Vec::new();
    let mut i: u16 = 0;
    while i < n
        invariant
            d.bytes == old(d).bytes,
            start == old(d).ip,
            start <= d.ip <= d.bytes.len(),
            i <= n,
            s0 == d.bytes@.skip(start as int),
            parse_parts(n as nat, s0) == prefixed(
                out@,
                (d.ip - start) as nat,
                parse_parts((n - i) as nat, d.rest()),
            ),
        decreases n - i,
    {
        let ghost before = d.rest();
        let ghost ip0 = d.ip;
        match decode_part(d) {
            Some(part) => {
                proof {
                    let j = (d.ip - ip0) as nat;
                    lemma_list_step(
                        (n - i) as nat,
                        before,
                        |b: Seq<u8>| parse_part(b),
                        out@,
                        (ip0 - start) as nat,
                        part,
                        j,
                    );
                    assert(d.rest() =~= before.skip(j as int));
                }
                out.push(part);
                i += 1;
            },
            None => {
                assert(parse_parts((n - i) as nat, before) is None);
                return None;
            },
        }
    }
    assert(out@ + Seq::<OpFormatPart>::empty() =~= out@);
    Some(out)
}

/// What reading an operand gave, against what [`parse_field`] says of the bytes it started at.
pub open spec fn field_read(r: Option<Field>, p: Option<(WireField, nat)>, ip0: usize, ip1: usize) -> bool {
    match (r, p) {
        (Some(f), Some((g, n))) => f@ == g && ip1 == ip0 + n,
        (None, None) => true,
        _ => false,
    }
}

/// Reads an operand of kind `k` at the decoder's position: `None` when the bytes there aren't
/// one.
pub fn decode_field(d: &mut Decoder, k: WireKind) -> (r: Option<Field>)
    requires
        old(d).ip <= old(d).bytes.len(),
    ensures
        final(d).bytes == old(d).bytes,
        final(d).ip <= final(d).bytes.len(),
        field_read(r, parse_field(k, old(d).rest()), old(d).ip, final(d).ip),
{
    let ghost s = d.rest();
    let left = d.bytes.len() - d.ip;
    match k {
        WireKind::Reg => {
            if left < 2 {
                return None;
            }
            Some(Field::Reg(Reg(d.u16() as u32)))
        },
        WireKind::Word => {
            if left < 4 {
                return None;
            }
            Some(Field::Word(d.u32()))
        },
        WireKind::Imm => {
            if left < 8 {
                return None;
            }
            Some(Field::Imm(d.i64()))
        },
        WireKind::Access => {
            if left < 1 {
                return None;
            }
            match AccessKind::from_byte(d.u8()) {
                Some(a) => Some(Field::Access(a)),
                None => None,
            }
        },
        WireKind::Bin => {
            if left < 1 {
                return None;
            }
            match BinOp::from_byte(d.u8()) {
                Some(b) => Some(Field::Bin(b)),
                None => None,
            }
        },
        WireKind::Unary => {
            if left < 1 {
                return None;
            }
            match UnaryOp::from_byte(d.u8()) {
                Some(u) => Some(Field::Unary(u)),
                None => None,
            }
        },
        WireKind::Flag => {
            if left < 1 {
                return None;
            }
            Some(Field::Flag(d.u8() != 0))
        },
        WireKind::Jump => {
            if left < 4 {
                return None;
            }
            Some(Field::Jump(BlockTarget::ByteOffset(d.u32() as usize)))
        },
        WireKind::Konst => {
            match Constant::try_decode(d) {
                Some(c) => Some(Field::Konst(c)),
                None => None,
            }
        },
        WireKind::Regs => {
            if left < 1 {
                return None;
            }
            let n = d.u8();
            assert(d.rest() =~= s.skip(1));
            match decode_regs(d, n as u16) {
                Some(v) => Some(Field::Regs(v)),
                None => None,
            }
        },
        WireKind::Table => {
            if left < 2 {
                return None;
            }
            let n = d.u16();
            assert(d.rest() =~= s.skip(2));
            match decode_targets(d, n) {
                Some(v) => Some(Field::Table(v)),
                None => None,
            }
        },
        WireKind::Parts => {
            if left < 2 {
                return None;
            }
            let n = d.u16();
            assert(d.rest() =~= s.skip(2));
            match decode_parts(d, n) {
                Some(v) => Some(Field::Parts(v)),
                None => None,
            }
        },
    }
}

/// The values of a sequence of operands.
pub open spec fn views(fs: Seq<Field>) -> Seq<WireField> {
    fs.map_values(|f: Field| f@)
}

/// The kinds of a sequence of operand values.
pub open spec fn kinds(fs: Seq<WireField>) -> Seq<WireKind> {
    fs.map_values(|f: WireField| field_kind(f))
}

pub fn copy_regs(v: &Vec<Reg>) -> (c: Vec<Reg>)
    ensures
        c@ == v@,
{
    let mut out: Vec<Reg> = Vec::new();
    let mut i: usize = 0;
    while i < v.len()
        invariant
            i <= v@.len(),
            out@ == v@.take(i as int),
        decreases v@.len() - i,
    {
        out.push(v[i]);
        assert(v@.take(i + 1) =~= v@.take(i as int).push(v@[i as int]));
        i += 1;
    }
    assert(v@.take(i as int) =~= v@);
    out
}

pub fn copy_targets(v: &Vec<BlockTarget>) -> (c: Vec<BlockTarget>)
    ensures
        c@ == v@,
{
    let mut out: Vec<BlockTarget> = Vec::new();
    let mut i: usize = 0;
    while i < v.len()
        invariant
            i <= v@.len(),
            out@ == v@.take(i as int),
        decreases v@.len() - i,
    {
        out.push(v[i]);
        assert(v@.take(i + 1) =~= v@.take(i as int).push(v@[i as int]));
        i += 1;
    }
    assert(v@.take(i as int) =~= v@);
    out
}

pub fn copy_parts(v: &Vec<OpFormatPart>) -> (c: Vec<OpFormatPart>)
    ensures
        c@ == v@,
{
    let mut out: Vec<OpFormatPart> = Vec::new();
    let mut i: usize = 0;
    while i < v.len()
        invariant
            i <= v@.len(),
            out@ == v@.take(i as int),
        decreases v@.len() - i,
    {
        out.push(v[i]);
        assert(v@.take(i + 1) =~= v@.take(i as int).push(v@[i as int]));
        i += 1;
    }
    assert(v@.take(i as int) =~= v@);
    out
}

pub fn reg_at(fs: &Vec<Field>, i: usize) -> (r: Reg)
    requires
        i < fs@.len(),
        fs@[i as int]@ is Reg,
    ensures
        fs@[i as int]@ == WireField::Reg(r),
{
    match &fs[i] {
        Field::Reg(r) => *r,
        _ => {
            assert(false);
            Reg(0)
        },
    }
}

pub fn word_at(fs: &Vec<Field>, i: usize) -> (w: u32)
    requires
        i < fs@.len(),
        fs@[i as int]@ is Word,
    ensures
        fs@[i as int]@ == WireField::Word(w),
{
    match &fs[i] {
        Field::Word(w) => *w,
        _ => {
            assert(false);
            0
        },
    }
}

pub fn imm_at(fs: &Vec<Field>, i: usize) -> (v: i64)
    requires
        i < fs@.len(),
        fs@[i as int]@ is Imm,
    ensures
        fs@[i as int]@ == WireField::Imm(v),
{
    match &fs[i] {
        Field::Imm(v) => *v,
        _ => {
            assert(false);
            0
        },
    }
}

pub fn access_at(fs: &Vec<Field>, i: usize) -> (a: AccessKind)
    requires
        i < fs@.len(),
        fs@[i as int]@ is Access,
    ensures
        fs@[i as int]@ == WireField::Access(a),
{
    match &fs[i] {
        Field::Access(a) => *a,
        _ => {
            assert(false);
            AccessKind::Direct
        },
    }
}

pub fn bin_at(fs: &Vec<Field>, i: usize) -> (b: BinOp)
    requires
        i < fs@.len(),
        fs@[i as int]@ is Bin,
    ensures
        fs@[i as int]@ == WireField::Bin(b),
{
    match &fs[i] {
        Field::Bin(b) => *b,
        _ => {
            assert(false);
            BinOp::Add
        },
    }
}

pub fn unary_at(fs: &Vec<Field>, i: usize) -> (u: UnaryOp)
    requires
        i < fs@.len(),
        fs@[i as int]@ is Unary,
    ensures
        fs@[i as int]@ == WireField::Unary(u),
{
    match &fs[i] {
        Field::Unary(u) => *u,
        _ => {
            assert(false);
            UnaryOp::Not
        },
    }
}

pub fn jump_at(fs: &Vec<Field>, i: usize) -> (t: BlockTarget)
    requires
        i < fs@.len(),
        fs@[i as int]@ is Jump,
    ensures
        fs@[i as int]@ == WireField::Jump(t),
{
    match &fs[i] {
        Field::Jump(t) => *t,
        _ => {
            assert(false);
            BlockTarget::ByteOffset(0)
        },
    }
}

pub fn flag_at(fs: &Vec<Field>, i: usize) -> (b: bool)
    requires
        i < fs@.len(),
        fs@[i as int]@ is Flag,
    ensures
        fs@[i as int]@ == WireField::Flag(b),
{
    match &fs[i] {
        Field::Flag(b) => *b,
        _ => {
            assert(false);
            false
        },
    }
}

pub fn take_regs(fs: &mut Vec<Field>) -> (v: Vec<Reg>)
    requires
        old(fs)@.len() > 0,
        old(fs)@.last()@ is Regs,
    ensures
        old(fs)@.last()@ == WireField::Regs(v@),
        final(fs)@ == old(fs)@.drop_last(),
{
    match fs.pop() {
        Some(Field::Regs(v)) => v,
        _ => {
            assert(false);
            Vec::new()
        },
    }
}

pub fn take_table(fs: &mut Vec<Field>) -> (v: Vec<BlockTarget>)
    requires
        old(fs)@.len() > 0,
        old(fs)@.last()@ is Table,
    ensures
        old(fs)@.last()@ == WireField::Table(v@),
        final(fs)@ == old(fs)@.drop_last(),
{
    match fs.pop() {
        Some(Field::Table(v)) => v,
        _ => {
            assert(false);
            Vec::new()
        },
    }
}

pub fn take_parts(fs: &mut Vec<Field>) -> (v: Vec<OpFormatPart>)
    requires
        old(fs)@.len() > 0,
        old(fs)@.last()@ is Parts,
    ensures
        old(fs)@.last()@ == WireField::Parts(v@),
        final(fs)@ == old(fs)@.drop_last(),
{
    match fs.pop() {
        Some(Field::Parts(v)) => v,
        _ => {
            assert(false);
            Vec::new()
        },
    }
}

pub fn take_konst(fs: &mut Vec<Field>) -> (c: Constant)
    requires
        old(fs)@.len() > 0,
        old(fs)@.last()@ is Konst,
    ensures
        old(fs)@.last()@ == WireField::Konst(c.model()),
        final(fs)@ == old(fs)@.drop_last(),
{
    match fs.pop() {
        Some(Field::Konst(c)) => c,
        _ => {
            assert(false);
            Constant::Null
        },
    }
}

} // verus!
