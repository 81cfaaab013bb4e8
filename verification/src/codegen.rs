//! Code generation for one body: the order blocks are laid out in, register choice, fusing a
//! comparison into the branch after it, and resolving jumps to byte offsets.
use vstd::prelude::*;

use crate::constant::{const_bytes, const_payload, Constant};
use crate::field::{field_bytes, parts_bytes, views, BlockTarget, Field, OpFormatPart, WireField, WireKind, kinds};
use crate::ids::{BlockId, Local, Location, Reg};
use crate::ir::{body_wf, operands, successors, Body, Inst};
use crate::ids::InstId;
use crate::op::{op_code, op_dst, op_is_comparison, op_model, op_operands, op_shape, lemma_op_shape, Op};
use crate::ops::{BinOp, OperandKind};
use crate::lower::{ir_meaning, is_comparison_op, machine_meaning, ArithOp, Meaning};

verus! {

broadcast use vstd::seq_lib::group_seq_properties;

/// How many bytes an operand takes, with a jump target counted at the four bytes it will take
/// once resolved.
pub open spec fn field_size(f: WireField) -> nat {
    match f {
        WireField::Reg(_) => 2,
        WireField::Word(_) => 4,
        WireField::Imm(_) => 8,
        WireField::Access(_) | WireField::Bin(_) | WireField::Unary(_) | WireField::Flag(_) => 1,
        WireField::Regs(rs) => 1 + 2 * rs.len(),
        WireField::Jump(_) => 4,
        WireField::Konst(c) => const_bytes(c).len(),
        WireField::Parts(ps) => 2 + parts_bytes(ps).len(),
        WireField::Table(ts) => 2 + 4 * ts.len(),
    }
}

/// The sizes of a sequence of operands, added up.
pub open spec fn fields_size(fs: Seq<WireField>) -> nat
    decreases fs.len(),
{
    if fs.len() == 0 {
        0
    } else {
        fields_size(fs.drop_last()) + field_size(fs.last())
    }
}

/// How many bytes an op takes once its jump targets are resolved: its code, then its operands.
pub open spec fn op_size(op: Op) -> nat {
    1 + fields_size(op_operands(op))
}

/// How many bytes a list of ops takes once its jump targets are resolved.
pub open spec fn code_len(ops: Seq<Op>) -> nat
    decreases ops.len(),
{
    if ops.len() == 0 {
        0
    } else {
        code_len(ops.drop_last()) + op_size(ops.last())
    }
}

/// Replacing a register operand by another keeps the operands' size.
proof fn lemma_fields_size_reg(fs: Seq<WireField>, i: int, r: Reg)
    requires
        0 <= i < fs.len(),
        fs[i] is Reg,
    ensures
        fields_size(fs.update(i, WireField::Reg(r))) == fields_size(fs),
    decreases fs.len(),
{
    let g = fs.update(i, WireField::Reg(r));
    if i < fs.len() - 1 {
        assert(g.drop_last() =~= fs.drop_last().update(i, WireField::Reg(r)));
        lemma_fields_size_reg(fs.drop_last(), i, r);
    } else {
        assert(g.drop_last() =~= fs.drop_last());
    }
}

/// Resolving jump targets keeps the operands' size.
proof fn lemma_fields_size_resolved(fs: Seq<WireField>, offsets: Seq<usize>)
    ensures
        fields_size(fs.map_values(|f: WireField| resolved_field(f, offsets))) == fields_size(fs),
    decreases fs.len(),
{
    let g = fs.map_values(|f: WireField| resolved_field(f, offsets));
    if fs.len() > 0 {
        assert(g.drop_last() =~= fs.drop_last().map_values(|f: WireField| resolved_field(f, offsets)));
        lemma_fields_size_resolved(fs.drop_last(), offsets);
        assert(field_size(g.last()) == field_size(fs.last()));
    }
}

/// Code that starts the same has the same length up to where it agrees.
proof fn lemma_code_len_sizes(a: Seq<Op>, b: Seq<Op>)
    requires
        a.len() == b.len(),
        forall|k: int| 0 <= k < a.len() ==> op_size(#[trigger] a[k]) == op_size(b[k]),
    ensures
        code_len(a) == code_len(b),
    decreases a.len(),
{
    if a.len() > 0 {
        lemma_code_len_sizes(a.drop_last(), b.drop_last());
    }
}

/// The size of one operand, or `None` when it would not fit a `usize`.
fn field_size_of(f: &Field) -> (n: Option<usize>)
    ensures
        match n {
            Some(k) => k == field_size(f@),
            None => field_size(f@) > usize::MAX,
        },
{
    match f {
        Field::Reg(_) => Some(2),
        Field::Word(_) => Some(4),
        Field::Imm(_) => Some(8),
        Field::Access(_) | Field::Bin(_) | Field::Unary(_) | Field::Flag(_) => Some(1),
        Field::Jump(_) => Some(4),
        Field::Regs(v) => match v.len().checked_mul(2) {
            Some(k) => k.checked_add(1),
            None => None,
        },
        Field::Table(v) => match v.len().checked_mul(4) {
            Some(k) => k.checked_add(2),
            None => None,
        },
        Field::Konst(c) => match c.checked_byte_len() {
            Some(k) => k.checked_add(1),
            None => None,
        },
        Field::Parts(v) => {
            let ghost f2 = f@;
            let mut total: usize = 2;
            let mut i: usize = 0;
            proof {
                crate::field::lemma_parts_prefix(v@, 0);
            }
            while i < v.len()
                invariant
                    i <= v@.len(),
                    f2 == WireField::Parts(v@),
                    f@ == f2,
                    total == 2 + parts_bytes(v@.take(i as int)).len(),
                decreases v@.len() - i,
            {
                proof {
                    crate::list::lemma_flat_push(v@.take(i as int), v@[i as int], |p: crate::field::OpFormatPart| crate::field::part_bytes(p));
                    assert(v@.take(i + 1) =~= v@.take(i as int).push(v@[i as int]));
                    crate::field::lemma_parts_prefix(v@, i + 1);
                    crate::field::lemma_part_len(v@[i as int]);
                }
                let k: usize = match v[i] {
                    crate::field::OpFormatPart::Literal(_) => 5,
                    crate::field::OpFormatPart::Value(_) => 3,
                };
                proof {
                    assert(parts_bytes(v@.take(i + 1)).len() == parts_bytes(v@.take(i as int)).len() + k);
                    assert(field_size(f2) == 2 + parts_bytes(v@).len());
                }
                total = match total.checked_add(k) {
                    Some(t) => t,
                    None => {
                        return None;
                    },
                };
                i += 1;
            }
            assert(v@.take(i as int) =~= v@);
            Some(total)
        },
    }
}

/// How many bytes an op takes (see [`op_size`]), or `None` when that would not fit a `usize`.
pub fn op_size_of(op: &Op) -> (n: Option<usize>)
    ensures
        match n {
            Some(k) => k == op_size(*op),
            None => op_size(*op) > usize::MAX,
        },
{
    let fields = op.operands();
    let ghost fs = op_operands(*op);
    let mut total: usize = 1;
    let mut i: usize = 0;
    assert(fs.take(0) =~= Seq::<WireField>::empty());
    while i < fields.len()
        invariant
            i <= fields@.len(),
            views(fields@) == fs,
            fs == op_operands(*op),
            total == 1 + fields_size(fs.take(i as int)),
        decreases fields@.len() - i,
    {
        proof {
            assert(fields@[i as int]@ == fs[i as int]);
            assert(fs.take(i + 1).drop_last() =~= fs.take(i as int));
        }
        let k = match field_size_of(&fields[i]) {
            Some(k) => k,
            None => {
                proof {
                    lemma_fields_size_prefix(fs, i + 1);
                }
                return None;
            },
        };
        total = match total.checked_add(k) {
            Some(t) => t,
            None => {
                proof {
                    lemma_fields_size_prefix(fs, i + 1);
                }
                return None;
            },
        };
        i += 1;
    }
    assert(fs.take(i as int) =~= fs);
    Some(total)
}

/// The sizes of the first `i` operands are no more than the sizes of all of them.
proof fn lemma_fields_size_prefix(fs: Seq<WireField>, i: int)
    requires
        0 <= i <= fs.len(),
    ensures
        fields_size(fs.take(i)) <= fields_size(fs),
    decreases fs.len() - i,
{
    if i < fs.len() {
        lemma_fields_size_prefix(fs, i + 1);
        assert(fs.take(i + 1).drop_last() =~= fs.take(i));
    } else {
        assert(fs.take(i) =~= fs);
    }
}

/// A comparison fused with the conditional jump after it into one compare-and-branch op that
/// jumps to `target` when the comparison is false.
pub open spec fn fused(cmp: Op, target: BlockTarget) -> Option<Op> {
    match cmp {
        Op::IntLt { left, right, .. } => Some(Op::BIntLt { target, left, right, is_true: false }),
        Op::IntLe { left, right, .. } => Some(Op::BIntLe { target, left, right, is_true: false }),
        Op::IntGt { left, right, .. } => Some(Op::BIntGt { target, left, right, is_true: false }),
        Op::IntGe { left, right, .. } => Some(Op::BIntGe { target, left, right, is_true: false }),
        Op::IntEq { left, right, .. } => Some(Op::BIntEq { target, left, right, is_true: false }),
        Op::IntNe { left, right, .. } => Some(Op::BIntNe { target, left, right, is_true: false }),
        Op::FloatLt { left, right, .. } => Some(Op::BFloatLt { target, left, right, is_true: false }),
        Op::FloatLe { left, right, .. } => Some(Op::BFloatLe { target, left, right, is_true: false }),
        Op::FloatGt { left, right, .. } => Some(Op::BFloatGt { target, left, right, is_true: false }),
        Op::FloatGe { left, right, .. } => Some(Op::BFloatGe { target, left, right, is_true: false }),
        Op::FloatEq { left, right, .. } => Some(Op::BFloatEq { target, left, right, is_true: false }),
        Op::FloatNe { left, right, .. } => Some(Op::BFloatNe { target, left, right, is_true: false }),
        Op::IntLtImm { left, val, .. } => Some(Op::BIntLtImm { target, left, val, is_true: false }),
        Op::IntLeImm { left, val, .. } => Some(Op::BIntLeImm { target, left, val, is_true: false }),
        Op::IntGtImm { left, val, .. } => Some(Op::BIntGtImm { target, left, val, is_true: false }),
        Op::IntGeImm { left, val, .. } => Some(Op::BIntGeImm { target, left, val, is_true: false }),
        Op::IntEqImm { left, val, .. } => Some(Op::BIntEqImm { target, left, val, is_true: false }),
        Op::IntNeImm { left, val, .. } => Some(Op::BIntNeImm { target, left, val, is_true: false }),
        Op::FloatLtImm { left, val, .. } => Some(Op::BFloatLtImm { target, left, val, is_true: false }),
        Op::FloatLeImm { left, val, .. } => Some(Op::BFloatLeImm { target, left, val, is_true: false }),
        Op::FloatGtImm { left, val, .. } => Some(Op::BFloatGtImm { target, left, val, is_true: false }),
        Op::FloatGeImm { left, val, .. } => Some(Op::BFloatGeImm { target, left, val, is_true: false }),
        Op::FloatEqImm { left, val, .. } => Some(Op::BFloatEqImm { target, left, val, is_true: false }),
        Op::FloatNeImm { left, val, .. } => Some(Op::BFloatNeImm { target, left, val, is_true: false }),
        _ => None,
    }
}

/// Fuses a comparison and the conditional jump after it (see [`fused`]).
pub fn fuse_branch(cmp: Op, target: BlockTarget) -> (op: Op)
    requires
        op_is_comparison(cmp),
    ensures
        fused(cmp, target) == Some(op),
{
    match cmp {
        Op::IntLt { left, right, .. } => (Op::BIntLt { target, left, right, is_true: false }),
        Op::IntLe { left, right, .. } => (Op::BIntLe { target, left, right, is_true: false }),
        Op::IntGt { left, right, .. } => (Op::BIntGt { target, left, right, is_true: false }),
        Op::IntGe { left, right, .. } => (Op::BIntGe { target, left, right, is_true: false }),
        Op::IntEq { left, right, .. } => (Op::BIntEq { target, left, right, is_true: false }),
        Op::IntNe { left, right, .. } => (Op::BIntNe { target, left, right, is_true: false }),
        Op::FloatLt { left, right, .. } => (Op::BFloatLt { target, left, right, is_true: false }),
        Op::FloatLe { left, right, .. } => (Op::BFloatLe { target, left, right, is_true: false }),
        Op::FloatGt { left, right, .. } => (Op::BFloatGt { target, left, right, is_true: false }),
        Op::FloatGe { left, right, .. } => (Op::BFloatGe { target, left, right, is_true: false }),
        Op::FloatEq { left, right, .. } => (Op::BFloatEq { target, left, right, is_true: false }),
        Op::FloatNe { left, right, .. } => (Op::BFloatNe { target, left, right, is_true: false }),
        Op::IntLtImm { left, val, .. } => (Op::BIntLtImm { target, left, val, is_true: false }),
        Op::IntLeImm { left, val, .. } => (Op::BIntLeImm { target, left, val, is_true: false }),
        Op::IntGtImm { left, val, .. } => (Op::BIntGtImm { target, left, val, is_true: false }),
        Op::IntGeImm { left, val, .. } => (Op::BIntGeImm { target, left, val, is_true: false }),
        Op::IntEqImm { left, val, .. } => (Op::BIntEqImm { target, left, val, is_true: false }),
        Op::IntNeImm { left, val, .. } => (Op::BIntNeImm { target, left, val, is_true: false }),
        Op::FloatLtImm { left, val, .. } => (Op::BFloatLtImm { target, left, val, is_true: false }),
        Op::FloatLeImm { left, val, .. } => (Op::BFloatLeImm { target, left, val, is_true: false }),
        Op::FloatGtImm { left, val, .. } => (Op::BFloatGtImm { target, left, val, is_true: false }),
        Op::FloatGeImm { left, val, .. } => (Op::BFloatGeImm { target, left, val, is_true: false }),
        Op::FloatEqImm { left, val, .. } => (Op::BFloatEqImm { target, left, val, is_true: false }),
        Op::FloatNeImm { left, val, .. } => (Op::BFloatNeImm { target, left, val, is_true: false }),
        _ => {
            assert(false);
            Op::Panic {}
        },
    }
}

/// The immediate form of an integer or float operation with a constant operand.
pub open spec fn imm_op(kind: OperandKind, op: BinOp, dst: Reg, left: Reg, val: i64) -> Option<Op> {
    match (kind, op) {
        (OperandKind::Int, BinOp::Add) => Some(Op::AddIntImm { dst, left, val }),
        (OperandKind::Int, BinOp::Sub) => Some(Op::SubIntImm { dst, left, val }),
        (OperandKind::Int, BinOp::Mult) => Some(Op::MultIntImm { dst, left, val }),
        (OperandKind::Int, BinOp::Mod) => Some(Op::ModIntImm { dst, left, val }),
        (OperandKind::Int, BinOp::LessThan) => Some(Op::IntLtImm { dst, left, val }),
        (OperandKind::Int, BinOp::LessEqual) => Some(Op::IntLeImm { dst, left, val }),
        (OperandKind::Int, BinOp::GreaterThan) => Some(Op::IntGtImm { dst, left, val }),
        (OperandKind::Int, BinOp::GreaterEqual) => Some(Op::IntGeImm { dst, left, val }),
        (OperandKind::Int, BinOp::Identity) => Some(Op::IntEqImm { dst, left, val }),
        (OperandKind::Int, BinOp::NotEqual) => Some(Op::IntNeImm { dst, left, val }),
        (OperandKind::Float, BinOp::Add) => Some(Op::AddFloatImm { dst, left, val }),
        (OperandKind::Float, BinOp::Sub) => Some(Op::SubFloatImm { dst, left, val }),
        (OperandKind::Float, BinOp::Mult) => Some(Op::MultFloatImm { dst, left, val }),
        (OperandKind::Float, BinOp::Mod) => Some(Op::ModFloatImm { dst, left, val }),
        (OperandKind::Float, BinOp::LessThan) => Some(Op::FloatLtImm { dst, left, val }),
        (OperandKind::Float, BinOp::LessEqual) => Some(Op::FloatLeImm { dst, left, val }),
        (OperandKind::Float, BinOp::GreaterThan) => Some(Op::FloatGtImm { dst, left, val }),
        (OperandKind::Float, BinOp::GreaterEqual) => Some(Op::FloatGeImm { dst, left, val }),
        (OperandKind::Float, BinOp::Identity) => Some(Op::FloatEqImm { dst, left, val }),
        (OperandKind::Float, BinOp::NotEqual) => Some(Op::FloatNeImm { dst, left, val }),
        _ => None,
    }
}

/// Builds the immediate form of an operation (see [`imm_op`]).
pub fn make_imm_op(kind: OperandKind, op: BinOp, dst: Reg, left: Reg, val: i64) -> (r: Option<Op>)
    ensures
        r == imm_op(kind, op, dst, left, val),
{
    match (kind, op) {
        (OperandKind::Int, BinOp::Add) => Some(Op::AddIntImm { dst, left, val }),
        (OperandKind::Int, BinOp::Sub) => Some(Op::SubIntImm { dst, left, val }),
        (OperandKind::Int, BinOp::Mult) => Some(Op::MultIntImm { dst, left, val }),
        (OperandKind::Int, BinOp::Mod) => Some(Op::ModIntImm { dst, left, val }),
        (OperandKind::Int, BinOp::LessThan) => Some(Op::IntLtImm { dst, left, val }),
        (OperandKind::Int, BinOp::LessEqual) => Some(Op::IntLeImm { dst, left, val }),
        (OperandKind::Int, BinOp::GreaterThan) => Some(Op::IntGtImm { dst, left, val }),
        (OperandKind::Int, BinOp::GreaterEqual) => Some(Op::IntGeImm { dst, left, val }),
        (OperandKind::Int, BinOp::Identity) => Some(Op::IntEqImm { dst, left, val }),
        (OperandKind::Int, BinOp::NotEqual) => Some(Op::IntNeImm { dst, left, val }),
        (OperandKind::Float, BinOp::Add) => Some(Op::AddFloatImm { dst, left, val }),
        (OperandKind::Float, BinOp::Sub) => Some(Op::SubFloatImm { dst, left, val }),
        (OperandKind::Float, BinOp::Mult) => Some(Op::MultFloatImm { dst, left, val }),
        (OperandKind::Float, BinOp::Mod) => Some(Op::ModFloatImm { dst, left, val }),
        (OperandKind::Float, BinOp::LessThan) => Some(Op::FloatLtImm { dst, left, val }),
        (OperandKind::Float, BinOp::LessEqual) => Some(Op::FloatLeImm { dst, left, val }),
        (OperandKind::Float, BinOp::GreaterThan) => Some(Op::FloatGtImm { dst, left, val }),
        (OperandKind::Float, BinOp::GreaterEqual) => Some(Op::FloatGeImm { dst, left, val }),
        (OperandKind::Float, BinOp::Identity) => Some(Op::FloatEqImm { dst, left, val }),
        (OperandKind::Float, BinOp::NotEqual) => Some(Op::FloatNeImm { dst, left, val }),
        _ => None,
    }
}

/// The right operand of a comparison: a register, or an immediate value.
pub enum Rhs {
    Reg(Reg),
    Imm(i64),
}

/// What an op with an immediate operand does: the register it writes, the register it reads as
/// its left operand, the immediate right operand, the operand type, and what it computes.
pub open spec fn imm_meaning(op: Op) -> Option<(Reg, Reg, i64, OperandKind, Meaning)> {
    let lt = Meaning::Test { less: true, equal: false, greater: false };
    let le = Meaning::Test { less: true, equal: true, greater: false };
    let gt = Meaning::Test { less: false, equal: false, greater: true };
    let ge = Meaning::Test { less: false, equal: true, greater: true };
    let eq = Meaning::Test { less: false, equal: true, greater: false };
    let ne = Meaning::Test { less: true, equal: false, greater: true };
    match op {
        Op::AddIntImm { dst, left, val } => Some((dst, left, val, OperandKind::Int, Meaning::Arith(ArithOp::Add))),
        Op::SubIntImm { dst, left, val } => Some((dst, left, val, OperandKind::Int, Meaning::Arith(ArithOp::Sub))),
        Op::MultIntImm { dst, left, val } => Some((dst, left, val, OperandKind::Int, Meaning::Arith(ArithOp::Mul))),
        Op::ModIntImm { dst, left, val } => Some((dst, left, val, OperandKind::Int, Meaning::Arith(ArithOp::Rem))),
        Op::IntLtImm { dst, left, val } => Some((dst, left, val, OperandKind::Int, lt)),
        Op::IntLeImm { dst, left, val } => Some((dst, left, val, OperandKind::Int, le)),
        Op::IntGtImm { dst, left, val } => Some((dst, left, val, OperandKind::Int, gt)),
        Op::IntGeImm { dst, left, val } => Some((dst, left, val, OperandKind::Int, ge)),
        Op::IntEqImm { dst, left, val } => Some((dst, left, val, OperandKind::Int, eq)),
        Op::IntNeImm { dst, left, val } => Some((dst, left, val, OperandKind::Int, ne)),
        Op::AddFloatImm { dst, left, val } => Some((dst, left, val, OperandKind::Float, Meaning::Arith(ArithOp::Add))),
        Op::SubFloatImm { dst, left, val } => Some((dst, left, val, OperandKind::Float, Meaning::Arith(ArithOp::Sub))),
        Op::MultFloatImm { dst, left, val } => Some((dst, left, val, OperandKind::Float, Meaning::Arith(ArithOp::Mul))),
        Op::ModFloatImm { dst, left, val } => Some((dst, left, val, OperandKind::Float, Meaning::Arith(ArithOp::Rem))),
        Op::FloatLtImm { dst, left, val } => Some((dst, left, val, OperandKind::Float, lt)),
        Op::FloatLeImm { dst, left, val } => Some((dst, left, val, OperandKind::Float, le)),
        Op::FloatGtImm { dst, left, val } => Some((dst, left, val, OperandKind::Float, gt)),
        Op::FloatGeImm { dst, left, val } => Some((dst, left, val, OperandKind::Float, ge)),
        Op::FloatEqImm { dst, left, val } => Some((dst, left, val, OperandKind::Float, eq)),
        Op::FloatNeImm { dst, left, val } => Some((dst, left, val, OperandKind::Float, ne)),
        _ => None,
    }
}

/// What a compare-and-branch op does: where it jumps, its left and right operands, their type,
/// the test it makes, and whether it jumps when the test holds (`true`) or when it fails.
pub open spec fn branch_meaning(op: Op) -> Option<(BlockTarget, Reg, Rhs, OperandKind, Meaning, bool)> {
    let lt = Meaning::Test { less: true, equal: false, greater: false };
    let le = Meaning::Test { less: true, equal: true, greater: false };
    let gt = Meaning::Test { less: false, equal: false, greater: true };
    let ge = Meaning::Test { less: false, equal: true, greater: true };
    let eq = Meaning::Test { less: false, equal: true, greater: false };
    let ne = Meaning::Test { less: true, equal: false, greater: true };
    match op {
        Op::BIntLt { target, left, right, is_true } => Some((target, left, Rhs::Reg(right), OperandKind::Int, lt, is_true)),
        Op::BIntLtImm { target, left, val, is_true } => Some((target, left, Rhs::Imm(val), OperandKind::Int, lt, is_true)),
        Op::BIntLe { target, left, right, is_true } => Some((target, left, Rhs::Reg(right), OperandKind::Int, le, is_true)),
        Op::BIntLeImm { target, left, val, is_true } => Some((target, left, Rhs::Imm(val), OperandKind::Int, le, is_true)),
        Op::BIntGt { target, left, right, is_true } => Some((target, left, Rhs::Reg(right), OperandKind::Int, gt, is_true)),
        Op::BIntGtImm { target, left, val, is_true } => Some((target, left, Rhs::Imm(val), OperandKind::Int, gt, is_true)),
        Op::BIntGe { target, left, right, is_true } => Some((target, left, Rhs::Reg(right), OperandKind::Int, ge, is_true)),
        Op::BIntGeImm { target, left, val, is_true } => Some((target, left, Rhs::Imm(val), OperandKind::Int, ge, is_true)),
        Op::BIntEq { target, left, right, is_true } => Some((target, left, Rhs::Reg(right), OperandKind::Int, eq, is_true)),
        Op::BIntEqImm { target, left, val, is_true } => Some((target, left, Rhs::Imm(val), OperandKind::Int, eq, is_true)),
        Op::BIntNe { target, left, right, is_true } => Some((target, left, Rhs::Reg(right), OperandKind::Int, ne, is_true)),
        Op::BIntNeImm { target, left, val, is_true } => Some((target, left, Rhs::Imm(val), OperandKind::Int, ne, is_true)),
        Op::BFloatLt { target, left, right, is_true } => Some((target, left, Rhs::Reg(right), OperandKind::Float, lt, is_true)),
        Op::BFloatLtImm { target, left, val, is_true } => Some((target, left, Rhs::Imm(val), OperandKind::Float, lt, is_true)),
        Op::BFloatLe { target, left, right, is_true } => Some((target, left, Rhs::Reg(right), OperandKind::Float, le, is_true)),
        Op::BFloatLeImm { target, left, val, is_true } => Some((target, left, Rhs::Imm(val), OperandKind::Float, le, is_true)),
        Op::BFloatGt { target, left, right, is_true } => Some((target, left, Rhs::Reg(right), OperandKind::Float, gt, is_true)),
        Op::BFloatGtImm { target, left, val, is_true } => Some((target, left, Rhs::Imm(val), OperandKind::Float, gt, is_true)),
        Op::BFloatGe { target, left, right, is_true } => Some((target, left, Rhs::Reg(right), OperandKind::Float, ge, is_true)),
        Op::BFloatGeImm { target, left, val, is_true } => Some((target, left, Rhs::Imm(val), OperandKind::Float, ge, is_true)),
        Op::BFloatEq { target, left, right, is_true } => Some((target, left, Rhs::Reg(right), OperandKind::Float, eq, is_true)),
        Op::BFloatEqImm { target, left, val, is_true } => Some((target, left, Rhs::Imm(val), OperandKind::Float, eq, is_true)),
        Op::BFloatNe { target, left, right, is_true } => Some((target, left, Rhs::Reg(right), OperandKind::Float, ne, is_true)),
        Op::BFloatNeImm { target, left, val, is_true } => Some((target, left, Rhs::Imm(val), OperandKind::Float, ne, is_true)),
        _ => None,
    }
}

/// The test a comparison op makes: its operands, their type and the test.
pub open spec fn test_of(op: Op) -> Option<(Reg, Rhs, OperandKind, Meaning)> {
    match machine_meaning(op) {
        Some((_, l, r, k, m)) => if m is Test { Some((l, Rhs::Reg(r), k, m)) } else { None },
        None => match imm_meaning(op) {
            Some((_, l, v, k, m)) => if m is Test { Some((l, Rhs::Imm(v), k, m)) } else { None },
            None => None,
        },
    }
}

/// The immediate form of an operation computes what the operation does: it writes `dst` from
/// `left` and the immediate `val`, works on the operation's operand type and computes the
/// operation's meaning. Integer and float comparisons, sums, differences, products and
/// remainders always have one.
pub proof fn lemma_imm_op_meaning(kind: OperandKind, op: BinOp, dst: Reg, left: Reg, val: i64)
    ensures
        imm_op(kind, op, dst, left, val) matches Some(o) ==> ir_meaning(op) is Some && imm_meaning(o) == Some(
            (dst, left, val, kind, ir_meaning(op)->0),
        ),
        (kind == OperandKind::Int || kind == OperandKind::Float) && (is_comparison_op(op) || op == BinOp::Add || op
            == BinOp::Sub || op == BinOp::Mult || op == BinOp::Mod) ==> imm_op(kind, op, dst, left, val) is Some,
{
}

/// Fusing a comparison with the conditional jump after it keeps the comparison's test, operands
/// and operand type, and jumps to the jump's target exactly when the test fails, as the jump did.
pub proof fn lemma_fused_meaning(cmp: Op, target: BlockTarget)
    ensures
        fused(cmp, target) matches Some(b) ==> test_of(cmp) matches Some((l, r, k, m)) && branch_meaning(b) == Some(
            (target, l, r, k, m, false),
        ),
        op_is_comparison(cmp) ==> fused(cmp, target) is Some,
{
}

/// Every jump target of `op` is a byte offset.
pub open spec fn targets_resolved(op: Op) -> bool {
    forall|k: int|
        0 <= k < op_operands(op).len() ==> match #[trigger] op_operands(op)[k] {
            WireField::Jump(t) => t is ByteOffset,
            WireField::Table(ts) => forall|j: int| 0 <= j < ts.len() ==> (#[trigger] ts[j]) is ByteOffset,
            _ => true,
        }
}

/// Every block target of `op` is below `n`.
pub open spec fn targets_below(op: Op, n: nat) -> bool {
    forall|k: int|
        0 <= k < op_operands(op).len() ==> match #[trigger] op_operands(op)[k] {
            WireField::Jump(t) => t matches BlockTarget::Block(b) ==> b.0 < n,
            WireField::Table(ts) => forall|j: int| 0 <= j < ts.len() ==> ((#[trigger] ts[j]) matches BlockTarget::Block(b) ==> b.0 < n),
            _ => true,
        }
}

/// A jump target resolved against the byte offset of each block.
pub open spec fn resolved(t: BlockTarget, offsets: Seq<usize>) -> BlockTarget {
    match t {
        BlockTarget::Block(b) => BlockTarget::ByteOffset(offsets[b.0 as int]),
        BlockTarget::ByteOffset(o) => BlockTarget::ByteOffset(o),
    }
}

/// An operand with its jump targets resolved.
pub open spec fn resolved_field(f: WireField, offsets: Seq<usize>) -> WireField {
    match f {
        WireField::Jump(t) => WireField::Jump(resolved(t, offsets)),
        WireField::Table(ts) => WireField::Table(ts.map_values(|t: BlockTarget| resolved(t, offsets))),
        other => other,
    }
}

/// Resolves one target.
fn resolve_target(t: BlockTarget, offsets: &Vec<usize>) -> (r: BlockTarget)
    requires
        t matches BlockTarget::Block(b) ==> b.0 < offsets@.len(),
    ensures
        r == resolved(t, offsets@),
{
    match t {
        BlockTarget::Block(b) => BlockTarget::ByteOffset(offsets[b.0 as usize]),
        BlockTarget::ByteOffset(o) => BlockTarget::ByteOffset(o),
    }
}

/// Resolves every jump target of `op` to the byte offset of its block.
pub fn resolve_targets(op: Op, offsets: &Vec<usize>) -> (r: Op)
    requires
        targets_below(op, offsets@.len()),
    ensures
        op_code(r) == op_code(op),
        op_operands(r) == op_operands(op).map_values(|f: WireField| resolved_field(f, offsets@)),
        targets_resolved(r),
{
    let code = op.discriminant();
    let fields = op.operands();
    let ghost fs = op_operands(op);
    let mut out: Vec<Field> = Vec::new();
    let mut i: usize = 0;
    let ghost all = fields@;
    while i < fields.len()
        invariant
            views(all) == fs,
            fs == op_operands(op),
            targets_below(op, offsets@.len()),
            i <= all.len(),
            fields@ == all,
            views(out@) == fs.take(i as int).map_values(|f: WireField| resolved_field(f, offsets@)),
        decreases fields@.len() - i,
    {
        proof {
            assert(all[i as int]@ == fs[i as int]);
        }
        let f = match &fields[i] {
            Field::Jump(t) => Field::Jump(resolve_target(*t, offsets)),
            Field::Table(ts) => {
                proof {
                    assert(fs[i as int] == WireField::Table(ts@));
                    let fk = op_operands(op)[i as int];
                    assert(fk == WireField::Table(ts@));
                }
                let mut v: Vec<BlockTarget> = Vec::new();
                let mut j: usize = 0;
                while j < ts.len()
                    invariant
                        j <= ts@.len(),
                        forall|jj: int| 0 <= jj < ts@.len() ==> ((#[trigger] ts@[jj]) matches BlockTarget::Block(b) ==> b.0 < offsets@.len()),
                        v@ == ts@.take(j as int).map_values(|t: BlockTarget| resolved(t, offsets@)),
                    decreases ts@.len() - j,
                {
                    v.push(resolve_target(ts[j], offsets));
                    assert(ts@.take(j + 1).map_values(|t: BlockTarget| resolved(t, offsets@)) =~= ts@.take(j as int).map_values(
                        |t: BlockTarget| resolved(t, offsets@),
                    ).push(resolved(ts@[j as int], offsets@)));
                    j += 1;
                }
                assert(ts@.take(j as int) =~= ts@);
                Field::Table(v)
            },
            Field::Reg(r) => Field::Reg(*r),
            Field::Word(w) => Field::Word(*w),
            Field::Imm(v) => Field::Imm(*v),
            Field::Access(a) => Field::Access(*a),
            Field::Bin(b) => Field::Bin(*b),
            Field::Unary(u) => Field::Unary(*u),
            Field::Flag(b) => Field::Flag(*b),
            Field::Regs(v) => Field::Regs(crate::field::copy_regs(v)),
            Field::Parts(v) => Field::Parts(crate::field::copy_parts(v)),
            Field::Konst(c) => Field::Konst(c.duplicate()),
        };
        proof {
            if let Field::Jump(t) = &fields[i as int] {
                let fk = op_operands(op)[i as int];
                assert(fk == WireField::Jump(*t));
            }
            assert(f@ == resolved_field(fs[i as int], offsets@));
        }
        let ghost before = views(out@);
        out.push(f);
        proof {
            assert(views(out@) =~= before.push(f@));
            assert(fs.take(i + 1).map_values(|f: WireField| resolved_field(f, offsets@)) =~= fs.take(i as int).map_values(
                |f: WireField| resolved_field(f, offsets@),
            ).push(resolved_field(fs[i as int], offsets@)));
        }
        i += 1;
    }
    proof {
        assert(fs.take(i as int) =~= fs);
        lemma_op_shape(op);
        assert(kinds(views(out@)) =~= kinds(fs));
    }
    let r = Op::assemble(code, out);
    proof {
        assert forall|k: int| 0 <= k < op_operands(r).len() implies match #[trigger] op_operands(r)[k] {
            WireField::Jump(t) => t is ByteOffset,
            WireField::Table(ts) => forall|j: int| 0 <= j < ts.len() ==> (#[trigger] ts[j]) is ByteOffset,
            _ => true,
        } by {
            assert(op_operands(r)[k] == resolved_field(fs[k], offsets@));
        }
    }
    r
}

/// The target of the last unconditional jump among the instructions `s` of `b`.
pub open spec fn last_jump(b: Body, s: Seq<InstId>) -> Option<BlockId>
    decreases s.len(),
{
    if s.len() == 0 {
        None
    } else {
        match b.instructions@[s.last().0 as int] {
            Inst::Jump { target } => Some(target),
            _ => last_jump(b, s.drop_last()),
        }
    }
}

/// Block `c` follows block `a` in the layout: a branch, loop step or switch arm of `a` names it,
/// or the last unconditional jump of `a` does.
pub open spec fn leads_to(b: Body, a: int, c: int) -> bool {
    let s = b.blocks@[a].stream@;
    ||| exists|k: int, j: int|
        #![trigger s[k], successors(b.instructions@[s[k].0 as int])[j]]
        0 <= k < s.len() && !(b.instructions@[s[k].0 as int] is Jump) && 0 <= j < successors(
            b.instructions@[s[k].0 as int],
        ).len() && successors(b.instructions@[s[k].0 as int])[j].0 == c
    ||| last_jump(b, s) matches Some(t) && t.0 == c
}

/// A walk from the entry block along [`leads_to`].
pub open spec fn is_layout_path(b: Body, p: Seq<int>) -> bool {
    &&& p.len() >= 1
    &&& p[0] == 0
    &&& forall|i: int| 0 <= i < p.len() ==> 0 <= #[trigger] p[i] < b.blocks@.len()
    &&& forall|i: int| 0 <= i < p.len() - 1 ==> leads_to(b, #[trigger] p[i], p[i + 1])
}

/// Block `c` is reached from the entry block along [`leads_to`].
pub open spec fn laid_reachable(b: Body, c: int) -> bool {
    exists|p: Seq<int>| #[trigger] is_layout_path(b, p) && p.last() == c
}

/// A branch, loop step or switch arm of block `a` names a block `a` leads to.
proof fn lemma_succ_leads(b: Body, a: int, k: int, j: int)
    requires
        0 <= a < b.blocks@.len(),
        0 <= k < b.blocks@[a].stream@.len(),
        !(b.instructions@[b.blocks@[a].stream@[k].0 as int] is Jump),
        0 <= j < successors(b.instructions@[b.blocks@[a].stream@[k].0 as int]).len(),
    ensures
        leads_to(b, a, successors(b.instructions@[b.blocks@[a].stream@[k].0 as int])[j].0 as int),
{
    let s = b.blocks@[a].stream@;
    assert(s[k] == b.blocks@[a].stream@[k]);
    let x = successors(b.instructions@[s[k].0 as int])[j];
    assert(0 <= k < s.len() && !(b.instructions@[s[k].0 as int] is Jump) && 0 <= j < successors(
        b.instructions@[s[k].0 as int],
    ).len() && successors(b.instructions@[s[k].0 as int])[j].0 == x.0);
}

/// A block a reached block leads to is reached too.
proof fn lemma_reach_step(b: Body, a: int, c: int)
    requires
        laid_reachable(b, a),
        leads_to(b, a, c),
        0 <= c < b.blocks@.len(),
    ensures
        laid_reachable(b, c),
{
    let p = choose|p: Seq<int>| #[trigger] is_layout_path(b, p) && p.last() == a;
    let q = p.push(c);
    assert(is_layout_path(b, q)) by {
        assert forall|i: int| 0 <= i < q.len() - 1 implies leads_to(b, #[trigger] q[i], q[i + 1]) by {
            if i < p.len() - 1 {
                assert(q[i] == p[i] && q[i + 1] == p[i + 1]);
            }
        }
        assert forall|i: int| 0 <= i < q.len() implies 0 <= #[trigger] q[i] < b.blocks@.len() by {
            if i < p.len() {
                assert(q[i] == p[i]);
            }
        }
    }
    assert(q.last() == c);
}

/// A set of blocks that holds the entry and everything its blocks lead to holds every block
/// reached from the entry.
proof fn lemma_closed_holds_reached(b: Body, placed: Seq<bool>, p: Seq<int>)
    requires
        placed.len() == b.blocks@.len(),
        placed[0],
        forall|a: int, c: int| 0 <= a < placed.len() && 0 <= c < placed.len() && #[trigger] placed[a] && leads_to(b, a, c) ==> #[trigger] placed[c],
        is_layout_path(b, p),
    ensures
        placed[p.last()],
    decreases p.len(),
{
    if p.len() > 1 {
        let q = p.drop_last();
        assert(is_layout_path(b, q)) by {
            assert forall|i: int| 0 <= i < q.len() - 1 implies leads_to(b, #[trigger] q[i], q[i + 1]) by {
                assert(q[i] == p[i] && q[i + 1] == p[i + 1]);
            }
        }
        lemma_closed_holds_reached(b, placed, q);
        assert(leads_to(b, p[p.len() - 2], p[p.len() - 1]));
        assert(placed[p[p.len() - 2]]);
    }
}

/// The order blocks are laid out in: a walk from the entry block that takes each block's
/// branches first and its unconditional jump last, so that jump's target comes right after it
/// where it can. Every block appears at most once, entry first.
pub fn block_order(body: &Body) -> (order: Vec<BlockId>)
    requires
        body_wf(*body),
    ensures
        order@.len() >= 1,
        order@[0] == BlockId(0),
        order@.no_duplicates(),
        forall|k: int| 0 <= k < order@.len() ==> (#[trigger] order@[k]).0 < body.blocks@.len(),
        forall|c: int| 0 <= c < body.blocks@.len() && laid_reachable(*body, c) ==> order@.contains(BlockId(c as u32)),
        forall|k: int| 0 <= k < order@.len() ==> laid_reachable(*body, (#[trigger] order@[k]).0 as int),
{
    let n = body.blocks.len();
    let mut placed: Vec<bool> = Vec::new();
    while placed.len() < n
        invariant
            placed@.len() <= n,
            forall|c: int| 0 <= c < placed@.len() ==> !placed@[c],
        decreases n - placed@.len(),
    {
        placed.push(false);
    }
    let mut order: Vec<BlockId> = Vec::new();
    let mut stack: Vec<BlockId> = vec![BlockId(0)];
    proof {
        assert(is_layout_path(*body, seq![0int]));
        assert(seq![0int].last() == 0);
    }
    while stack.len() > 0
        invariant
            body_wf(*body),
            n == body.blocks@.len(),
            placed@.len() == n,
            forall|k: int| 0 <= k < stack@.len() ==> (#[trigger] stack@[k]).0 < n,
            forall|k: int| 0 <= k < order@.len() ==> (#[trigger] order@[k]).0 < n && placed@[order@[k].0 as int],
            forall|c: int| 0 <= c < n && #[trigger] placed@[c] ==> order@.contains(BlockId(c as u32)),
            order@.no_duplicates(),
            order@.len() == 0 ==> stack@.len() == 1 && stack@[0] == BlockId(0),
            order@.len() > 0 ==> order@[0] == BlockId(0),
            placed@[0] || stack@.contains(BlockId(0)),
            forall|kk: int| 0 <= kk < stack@.len() ==> laid_reachable(*body, (#[trigger] stack@[kk]).0 as int),
            forall|kk: int| 0 <= kk < order@.len() ==> laid_reachable(*body, (#[trigger] order@[kk]).0 as int),
            forall|a: int, c: int|
                0 <= a < n && 0 <= c < n && placed@[a] && #[trigger] leads_to(*body, a, c) ==> placed@[c]
                    || stack@.contains(BlockId(c as u32)),
        decreases crate::clean::count_false(placed@), stack@.len(),
    {
        let ghost stack_before = stack@;
        let b = stack.pop().unwrap();
        proof {
            assert(stack_before == stack@.push(b));
            assert forall|x: BlockId| stack_before.contains(x) implies x == b || stack@.contains(x) by {
                let q = choose|q: int| 0 <= q < stack_before.len() && stack_before[q] == x;
                if q < stack@.len() {
                    assert(stack@[q] == x);
                }
            }
        }
        if placed[b.0 as usize] {
            proof {
                assert forall|a: int, c: int|
                    0 <= a < n && 0 <= c < n && placed@[a] && #[trigger] leads_to(*body, a, c) implies placed@[c]
                        || stack@.contains(BlockId(c as u32)) by {
                    if !placed@[c] {
                        assert(stack_before.contains(BlockId(c as u32)));
                    }
                }
            }
            continue;
        }
        proof {
            crate::clean::lemma_count_false_set(placed@, b.0 as int);
            assert(!order@.contains(b)) by {
                if order@.contains(b) {
                    let k = choose|k: int| 0 <= k < order@.len() && order@[k] == b;
                    assert(placed@[order@[k].0 as int]);
                }
            }
        }
        let ghost placed0 = placed@;
        placed.set(b.0 as usize, true);
        let ghost order0 = order@;
        order.push(b);
        proof {
            assert forall|i: int, j: int| 0 <= i < order@.len() && 0 <= j < order@.len() && i != j implies order@[i] != order@[j] by {
                if i < order0.len() && j < order0.len() {
                    assert(order@[i] == order0[i] && order@[j] == order0[j]);
                } else if i < order0.len() {
                    assert(order0.contains(order@[i]));
                } else if j < order0.len() {
                    assert(order0.contains(order@[j]));
                }
            }
            assert forall|c: int| 0 <= c < n && #[trigger] placed@[c] implies order@.contains(BlockId(c as u32)) by {
                if c == b.0 {
                    assert(order@[order@.len() - 1] == b);
                } else {
                    let k = choose|k: int| 0 <= k < order0.len() && order0[k] == BlockId(c as u32);
                    assert(order@[k] == order0[k]);
                }
            }
        }
        let s = &body.blocks[b.0 as usize].stream;
        let mut fallthrough: Option<BlockId> = None;
        let mut branches: Vec<BlockId> = Vec::new();
        let mut k: usize = 0;
        while k < s.len()
            invariant
                body_wf(*body),
                n == body.blocks@.len(),
                b.0 < n,
                *s == body.blocks@[b.0 as int].stream,
                k <= s@.len(),
                fallthrough matches Some(f) ==> f.0 < n,
                forall|j: int| 0 <= j < branches@.len() ==> (#[trigger] branches@[j]).0 < n,
                fallthrough == last_jump(*body, s@.take(k as int)),
                forall|q: int| 0 <= q < branches@.len() ==> leads_to(*body, b.0 as int, (#[trigger] branches@[q]).0 as int),
                forall|kk: int, j: int|
                    0 <= kk < k && !(body.instructions@[s@[kk].0 as int] is Jump) && 0 <= j < successors(
                        body.instructions@[s@[kk].0 as int],
                    ).len() ==> branches@.contains(#[trigger] successors(body.instructions@[s@[kk].0 as int])[j]),
            decreases s@.len() - k,
        {
            let ghost branches0 = branches@;
            let iid = s[k];
            let ghost succ = successors(body.instructions@[iid.0 as int]);
            match &body.instructions[iid.0 as usize] {
                Inst::Jump { target } => {
                    assert(succ[0] == *target);
                    fallthrough = Some(*target);
                },
                Inst::JumpIfFalse { target, .. } | Inst::ForNext { target, .. } => {
                    assert(succ[0] == *target);
                    proof {
                        lemma_succ_leads(*body, b.0 as int, k as int, 0);
                    }
                    branches.push(*target);
                    assert(branches@[branches@.len() - 1] == *target);
                    assert(succ.len() == 1);
                },
                Inst::Switch { table, default, .. } => {
                    let mut t: usize = 0;
                    while t < table.len()
                        invariant
                            t <= table@.len(),
                            succ == table@.push(*default),
                            forall|j: int| 0 <= j < succ.len() ==> (#[trigger] succ[j]).0 < n,
                            forall|j: int| 0 <= j < branches@.len() ==> (#[trigger] branches@[j]).0 < n,
                            branches0.len() <= branches@.len(),
                            forall|q: int| 0 <= q < branches0.len() ==> branches@[q] == branches0[q],
                            forall|tt: int| 0 <= tt < t ==> branches@.contains(#[trigger] table@[tt]),
                            forall|q: int| 0 <= q < branches@.len() ==> leads_to(*body, b.0 as int, (#[trigger] branches@[q]).0 as int),
                            b.0 < n,
                            n == body.blocks@.len(),
                            k < s@.len(),
                            *s == body.blocks@[b.0 as int].stream,
                            succ == successors(body.instructions@[s@[k as int].0 as int]),
                            !(body.instructions@[s@[k as int].0 as int] is Jump),
                        decreases table@.len() - t,
                    {
                        assert(succ[t as int] == table@[t as int]);
                        proof {
                            lemma_succ_leads(*body, b.0 as int, k as int, t as int);
                        }
                        let ghost before = branches@;
                        branches.push(table[t]);
                        proof {
                            assert(branches@[branches@.len() - 1] == table@[t as int]);
                            assert forall|tt: int| 0 <= tt < t + 1 implies branches@.contains(#[trigger] table@[tt]) by {
                                if tt < t {
                                    let q = choose|q: int| 0 <= q < before.len() && before[q] == table@[tt];
                                    assert(branches@[q] == table@[tt]);
                                }
                            }
                        }
                        t += 1;
                    }
                    assert(succ[table@.len() as int] == *default);
                    proof {
                        lemma_succ_leads(*body, b.0 as int, k as int, table@.len() as int);
                    }
                    let ghost before = branches@;
                    branches.push(*default);
                    proof {
                        assert(branches@[branches@.len() - 1] == *default);
                        assert forall|j: int| 0 <= j < succ.len() implies branches@.contains(#[trigger] succ[j]) by {
                            if j < table@.len() {
                                assert(succ[j] == table@[j]);
                                let q = choose|q: int| 0 <= q < before.len() && before[q] == table@[j];
                                assert(branches@[q] == table@[j]);
                            }
                        }
                    }
                },
                _ => {},
            }
            proof {
                assert(s@.take(k + 1).drop_last() =~= s@.take(k as int));
                assert(s@.take(k + 1).last() == iid);
                assert forall|kk: int, j: int|
                    0 <= kk < k + 1 && !(body.instructions@[s@[kk].0 as int] is Jump) && 0 <= j < successors(
                        body.instructions@[s@[kk].0 as int],
                    ).len() implies branches@.contains(#[trigger] successors(body.instructions@[s@[kk].0 as int])[j]) by {
                    let x = successors(body.instructions@[s@[kk].0 as int])[j];
                    if kk < k {
                        assert(branches0.contains(x));
                        let q = choose|q: int| 0 <= q < branches0.len() && branches0[q] == x;
                        assert(branches@[q] == x);
                    } else {
                        assert(succ[j] == x);
                    }
                }
            }
            k += 1;
        }
        proof {
            assert(s@.take(k as int) =~= s@);
        }
        let ghost stack1 = stack@;
        let mut j: usize = 0;
        while j < branches.len()
            invariant
                placed@.len() == n,
                forall|jj: int| 0 <= jj < branches@.len() ==> (#[trigger] branches@[jj]).0 < n,
                forall|kk: int| 0 <= kk < stack@.len() ==> (#[trigger] stack@[kk]).0 < n,
                j <= branches@.len(),
                forall|x: BlockId| stack1.contains(x) ==> stack@.contains(x),
                forall|jj: int| 0 <= jj < j ==> placed@[(#[trigger] branches@[jj]).0 as int] || stack@.contains(branches@[jj]),
                forall|q: int| 0 <= q < branches@.len() ==> leads_to(*body, b.0 as int, (#[trigger] branches@[q]).0 as int),
                forall|kk: int| 0 <= kk < stack@.len() ==> laid_reachable(*body, (#[trigger] stack@[kk]).0 as int),
                laid_reachable(*body, b.0 as int),
                b.0 < n,
                n == body.blocks@.len(),
            decreases branches@.len() - j,
        {
            let ghost stack2 = stack@;
            if !placed[branches[j].0 as usize] {
                proof {
                    assert(branches@[j as int].0 < n);
                    lemma_reach_step(*body, b.0 as int, branches@[j as int].0 as int);
                }
                stack.push(branches[j]);
                proof {
                    assert(stack@[stack@.len() - 1] == branches@[j as int]);
                    assert forall|x: BlockId| stack2.contains(x) implies stack@.contains(x) by {
                        let q = choose|q: int| 0 <= q < stack2.len() && stack2[q] == x;
                        assert(stack@[q] == x);
                    }
                }
            }
            j += 1;
        }
        let ghost stack3 = stack@;
        if let Some(f) = fallthrough {
            if !placed[f.0 as usize] {
                proof {
                    assert(leads_to(*body, b.0 as int, f.0 as int));
                    lemma_reach_step(*body, b.0 as int, f.0 as int);
                }
                stack.push(f);
                proof {
                    assert(stack@[stack@.len() - 1] == f);
                    assert forall|x: BlockId| stack3.contains(x) implies stack@.contains(x) by {
                        let q = choose|q: int| 0 <= q < stack3.len() && stack3[q] == x;
                        assert(stack@[q] == x);
                    }
                }
            }
        }
        proof {
            assert forall|a: int, c: int|
                0 <= a < n && 0 <= c < n && placed@[a] && #[trigger] leads_to(*body, a, c) implies placed@[c]
                    || stack@.contains(BlockId(c as u32)) by {
                if a == b.0 as int {
                    let st = body.blocks@[a].stream@;
                    if last_jump(*body, st) == Some(BlockId(c as u32)) {
                    } else {
                        let (kk, jx) = choose|kk: int, jx: int|
                            0 <= kk < st.len() && !(body.instructions@[st[kk].0 as int] is Jump) && 0 <= jx < successors(
                                body.instructions@[st[kk].0 as int],
                            ).len() && successors(body.instructions@[st[kk].0 as int])[jx].0 == c;
                        let x = successors(body.instructions@[st[kk].0 as int])[jx];
                        assert(branches@.contains(x));
                        let q = choose|q: int| 0 <= q < branches@.len() && branches@[q] == x;
                        assert(x == BlockId(c as u32));
                        assert(placed@[(branches@[q]).0 as int] || stack@.contains(branches@[q]));
                    }
                } else {
                    assert(placed0[a]);
                    if !placed0[c] || c == b.0 as int {
                    } else {
                    }
                    if !placed@[c] {
                        assert(stack_before.contains(BlockId(c as u32)));
                        assert(BlockId(c as u32) != b);
                    }
                }
            }
            if !placed@[0] {
                assert(stack_before.contains(BlockId(0)));
            }
        }
    }
    proof {
        assert(placed@[0] || order@.len() > 0);
        assert forall|c: int| 0 <= c < n && laid_reachable(*body, c) implies order@.contains(BlockId(c as u32)) by {
            let p = choose|p: Seq<int>| #[trigger] is_layout_path(*body, p) && p.last() == c;
            assert forall|a: int, c2: int| 0 <= a < placed@.len() && 0 <= c2 < placed@.len() && #[trigger] placed@[a]
                && leads_to(*body, a, c2) implies #[trigger] placed@[c2] by {
                if !placed@[c2] {
                    assert(stack@.contains(BlockId(c2 as u32)));
                }
            }
            lemma_closed_holds_reached(*body, placed@, p);
        }
    }
    order
}

/// A body compiled to ops: where its code starts, how many arguments and registers it takes,
/// the registers of its parameters, captures and named locals, and the source location of its
/// code.
#[derive(Debug)]
pub struct Chunk {
    pub ops: Vec<Op>,
    pub offset: usize,
    pub args: u16,
    pub regs: u16,
    pub params: Vec<Reg>,
    pub captures: Vec<Reg>,
    /// The source names of locals, each with its register.
    pub locals: Vec<(String, Reg)>,
    /// Where the location of the code changes: chunk-relative byte offsets, each with the
    /// location that applies from there up to the next entry (see [`Chunk::loc_at`]).
    pub locs: Vec<(u32, Location)>,
}

/// What every op emitted so far satisfies: its block targets are blocks of the body.
pub open spec fn ops_below(ops: Seq<Op>, n: nat) -> bool {
    forall|k: int| 0 <= k < ops.len() ==> targets_below(#[trigger] ops[k], n)
}

/// An op with no jump target at all.
pub open spec fn no_targets(op: Op) -> bool {
    forall|k: int| 0 <= k < op_operands(op).len() ==> !(#[trigger] op_operands(op)[k] is Jump) && !(op_operands(op)[k] is Table)
}

/// A lowered instruction names only blocks its instruction does.
proof fn lemma_lowered_below(inst: Inst, c: crate::lower::Ctx, op: Op, n: nat)
    requires
        crate::lower::lowers(inst, c, op),
        forall|k: int| 0 <= k < successors(inst).len() ==> (#[trigger] successors(inst)[k]).0 < n,
    ensures
        targets_below(op, n),
{
    match inst {
        Inst::JumpIfFalse { target, .. } | Inst::Jump { target } | Inst::ForNext { target, .. } => {
            assert(successors(inst)[0] == target);
            assert forall|k: int| 0 <= k < op_operands(op).len() implies match #[trigger] op_operands(op)[k] {
                WireField::Jump(t) => t matches BlockTarget::Block(b) ==> b.0 < n,
                WireField::Table(ts) => forall|j: int| 0 <= j < ts.len() ==> ((#[trigger] ts[j]) matches BlockTarget::Block(b) ==> b.0 < n),
                _ => true,
            } by {}
        },
        Inst::Switch { table, default, .. } => {
            assert(successors(inst) == table@.push(default));
            if let Op::Switch { table: t2, default: d2, .. } = op {
                assert forall|j: int| 0 <= j < t2@.len() implies ((#[trigger] t2@[j]) matches BlockTarget::Block(b) ==> b.0 < n) by {
                    assert(t2@[j] == BlockTarget::Block(table@[j]));
                    assert(successors(inst)[j] == table@[j]);
                }
                assert(successors(inst)[table@.len() as int] == default);
            }
        },
        _ => {
            assert(no_targets(op));
        },
    }
}

/// A fused compare-and-branch names only the block it was given.
proof fn lemma_fused_below(cmp: Op, b: BlockId, op: Op, n: nat)
    requires
        fused(cmp, BlockTarget::Block(b)) == Some(op),
        b.0 < n,
    ensures
        targets_below(op, n),
{
}

/// An immediate op has no jump target.
proof fn lemma_imm_no_targets(kind: OperandKind, o: BinOp, dst: Reg, left: Reg, val: i64, op: Op)
    requires
        imm_op(kind, o, dst, left, val) == Some(op),
    ensures
        targets_below(op, 0),
        forall|n: nat| targets_below(op, n),
{
}

/// Every register an operand names is below `n`.
pub open spec fn field_regs_below(f: WireField, n: nat) -> bool {
    match f {
        WireField::Reg(r) => r.0 < n,
        WireField::Regs(rs) => forall|i: int| 0 <= i < rs.len() ==> (#[trigger] rs[i]).0 < n,
        WireField::Parts(ps) => forall|i: int|
            0 <= i < ps.len() ==> ((#[trigger] ps[i]) matches OpFormatPart::Value(r) ==> r.0 < n),
        _ => true,
    }
}

/// Every register `op` names is below `n`: it fits a frame of `n` registers.
pub open spec fn regs_below(op: Op, n: nat) -> bool {
    forall|k: int| 0 <= k < op_operands(op).len() ==> field_regs_below(#[trigger] op_operands(op)[k], n)
}

/// Every op of a list fits a frame of `n` registers.
pub open spec fn ops_regs_below(ops: Seq<Op>, n: nat) -> bool {
    forall|k: int| 0 <= k < ops.len() ==> regs_below(#[trigger] ops[k], n)
}

/// Every register a context has handed out, freed or given a local is below its count.
pub open spec fn ctx_regs_ok(c: crate::lower::Ctx) -> bool {
    &&& forall|i: int| 0 <= i < c.inst_to_reg@.len() ==> ((#[trigger] c.inst_to_reg@[i]) matches Some(r) ==> r.0 < c.regs)
    &&& forall|i: int| 0 <= i < c.free@.len() ==> (#[trigger] c.free@[i]).0 < c.regs
    &&& forall|i: int| 0 <= i < c.local_to_reg@.len() ==> (#[trigger] c.local_to_reg@[i]).0 < c.regs
}

/// A frame that fits an op fits it with more registers too.
proof fn lemma_regs_below_grow(op: Op, n: nat, m: nat)
    requires
        regs_below(op, n),
        n <= m,
    ensures
        regs_below(op, m),
{
    assert forall|k: int| 0 <= k < op_operands(op).len() implies field_regs_below(#[trigger] op_operands(op)[k], m) by {
        assert(field_regs_below(op_operands(op)[k], n));
    }
}

/// The registers of a list of values are below `n` when each value's is.
proof fn lemma_list_below(rs: Seq<Reg>, a: Seq<InstId>, c0: crate::lower::Ctx, n: nat)
    requires
        rs == a.map_values(|x: InstId| c0.reg_of(x)),
        forall|i: int| 0 <= i < a.len() ==> (#[trigger] c0.reg_of(a[i])).0 < n,
    ensures
        forall|i: int| 0 <= i < rs.len() ==> (#[trigger] rs[i]).0 < n,
{
    assert forall|i: int| 0 <= i < rs.len() implies (#[trigger] rs[i]).0 < n by {
        assert(rs[i] == c0.reg_of(a[i]));
    }
}

/// A lowered instruction names only registers of its context, and lowering keeps the context's
/// registers below its count.
proof fn lemma_lowered_regs(inst: Inst, c0: crate::lower::Ctx, op: Op, c1: crate::lower::Ctx)
    requires
        crate::lower::lowers(inst, c0, op),
        ctx_regs_ok(c0),
        forall|k: int| 0 <= k < operands(inst).len() ==> c0.has_reg(#[trigger] operands(inst)[k]),
        inst matches Inst::SetLocal(l, _) ==> l.0 < c0.local_to_reg@.len(),
        inst matches Inst::Insert { dict, .. } ==> c0.has_reg(dict),
        crate::lower::takes_reg(inst) ==> c0.can_alloc() && c0.allocated(c1),
        !crate::lower::takes_reg(inst) ==> c1 == c0,
    ensures
        regs_below(op, c1.regs as nat),
        ctx_regs_ok(c1),
        c0.regs <= c1.regs,
{
    let n = c1.regs as nat;
    let d = c0.next_reg();
    if crate::lower::takes_reg(inst) {
        assert(d.0 < n);
    }
    assert forall|k: int| 0 <= k < operands(inst).len() implies (#[trigger] c0.reg_of(operands(inst)[k])).0 < n by {
        assert(c0.has_reg(operands(inst)[k]));
        let i = operands(inst)[k].0 as int;
        assert(c0.inst_to_reg@[i] matches Some(r) ==> r.0 < c0.regs);
    }
    let ops = operands(inst);
    match inst {
        Inst::Format(ps) => {
            if let Op::Format { parts, .. } = op {
                assert forall|i: int| 0 <= i < parts@.len() implies ((#[trigger] parts@[i]) matches OpFormatPart::Value(r) ==> r.0 < n) by {
                    if let crate::ir::FormatPart::Value(v) = ps@[i] {
                        crate::lower::lemma_format_value_in(ps@, i);
                        let k = choose|k: int| 0 <= k < ops.len() && ops[k] == v;
                        assert(c0.reg_of(ops[k]).0 < n);
                    }
                }
            }
        },
        Inst::MakeClosure { captures: a, .. } | Inst::CallDirect { args: a, .. } | Inst::CallNative { args: a, .. } => {
            assert(ops == a@);
            assert forall|i: int| 0 <= i < a@.len() implies (#[trigger] c0.reg_of(a@[i])).0 < n by {
                assert(c0.reg_of(ops[i]).0 < n);
            }
            match op {
                Op::NewClosure { captures: rs, .. } => lemma_list_below(rs@, a@, c0, n),
                Op::CallDirect { args: rs, .. } => lemma_list_below(rs@, a@, c0, n),
                Op::CallNative { args: rs, .. } => lemma_list_below(rs@, a@, c0, n),
                _ => {},
            }
        },
        Inst::Call { callee, args: a } => {
            assert(ops == seq![callee] + a@);
            assert(c0.reg_of(ops[0]).0 < n);
            assert forall|i: int| 0 <= i < a@.len() implies (#[trigger] c0.reg_of(a@[i])).0 < n by {
                assert(ops[i + 1] == a@[i]);
                assert(c0.reg_of(ops[i + 1]).0 < n);
            }
            if let Op::Call { args: rs, .. } = op {
                lemma_list_below(rs@, a@, c0, n);
            }
        },
        _ => {
            if ops.len() > 0 {
                assert(c0.reg_of(ops[0]).0 < n);
            }
            if ops.len() > 1 {
                assert(c0.reg_of(ops[1]).0 < n);
            }
            if ops.len() > 2 {
                assert(c0.reg_of(ops[2]).0 < n);
            }
            if let Inst::Insert { dict, .. } = inst {
                assert(c0.inst_to_reg@[dict.0 as int] matches Some(r) ==> r.0 < c0.regs);
            }
        },
    }
}

/// For each block, the block laid out right after it, when both run some code.
fn fallthroughs(body: &Body, order: &Vec<BlockId>) -> (ft: Vec<Option<BlockId>>)
    requires
        body_wf(*body),
        forall|k: int| 0 <= k < order@.len() ==> (#[trigger] order@[k]).0 < body.blocks@.len(),
    ensures
        ft@.len() == body.blocks@.len(),
{
    let n = body.blocks.len();
    let mut ft: Vec<Option<BlockId>> = Vec::new();
    while ft.len() < n
        invariant
            ft@.len() <= n,
        decreases n - ft@.len(),
    {
        ft.push(None);
    }
    let mut prev: Option<BlockId> = None;
    let mut k: usize = 0;
    while k < order.len()
        invariant
            n == body.blocks@.len(),
            ft@.len() == n,
            forall|kk: int| 0 <= kk < order@.len() ==> (#[trigger] order@[kk]).0 < n,
            prev matches Some(p) ==> p.0 < n,
            k <= order@.len(),
        decreases order@.len() - k,
    {
        let b = order[k];
        if body.blocks[b.0 as usize].stream.len() > 0 {
            if let Some(p) = prev {
                ft.set(p.0 as usize, Some(b));
            }
            prev = Some(b);
        }
        k += 1;
    }
    ft
}

/// Whether register `r` is pinned to a constant.
fn is_pinned(pinned: &Vec<(crate::constant::CachedConstant, Reg)>, r: Reg) -> (b: bool)
    ensures
        b == exists|k: int| 0 <= k < pinned@.len() && (#[trigger] pinned@[k]).1 == r,
{
    let mut k: usize = 0;
    while k < pinned.len()
        invariant
            k <= pinned@.len(),
            forall|j: int| 0 <= j < k ==> (#[trigger] pinned@[j]).1 != r,
        decreases pinned@.len() - k,
    {
        if pinned[k].1 == r {
            return true;
        }
        k += 1;
    }
    false
}

/// The register pinned to constant `c`, if any.
fn pinned_reg(pinned: &Vec<(crate::constant::CachedConstant, Reg)>, c: crate::constant::CachedConstant) -> (r: Option<Reg>)
    ensures
        match r {
            Some(x) => exists|k: int|
                0 <= k < pinned@.len() && (#[trigger] pinned@[k]) == (c, x) && forall|j: int|
                    0 <= j < k ==> (#[trigger] pinned@[j]).0 != c,
            None => forall|k: int| 0 <= k < pinned@.len() ==> (#[trigger] pinned@[k]).0 != c,
        },
{
    let mut k: usize = 0;
    while k < pinned.len()
        invariant
            k <= pinned@.len(),
            forall|j: int| 0 <= j < k ==> (#[trigger] pinned@[j]).0 != c,
        decreases pinned@.len() - k,
    {
        if pinned[k].0 == c {
            return Some(pinned[k].1);
        }
        k += 1;
    }
    None
}

/// Instruction `i` is an integer or float constant.
pub open spec fn num_const(b: Body, i: int) -> bool {
    b.instructions@[i] matches Inst::Constant(c) && (c is Int || c is Float)
}

/// Instruction `x` uses the value of instruction `i`.
pub open spec fn uses_value_of(b: Body, x: InstId, i: int) -> bool {
    operands(b.instructions@[x.0 as int]).contains(InstId(i as u32))
}

/// Instruction `x` takes instruction `i` as the immediate of its immediate form.
pub open spec fn absorbs(b: Body, x: InstId, i: int) -> bool {
    crate::lower::spec_imm_binop(b, b.instructions@[x.0 as int]) matches Some(t) && t.1 == InstId(i as u32)
}

/// A block of `b` runs instruction `x`.
pub open spec fn in_a_stream(b: Body, x: InstId) -> bool {
    exists|bi: int, k: int|
        0 <= bi < b.blocks@.len() && 0 <= k < b.blocks@[bi].stream@.len() && #[trigger] b.blocks@[bi].stream@[k] == x
}

/// Integer or float constant `i` is only ever used as an immediate: some instruction a block
/// runs uses it, and every one that does takes it as its immediate.
pub open spec fn absorbed_const(b: Body, i: int) -> bool {
    &&& num_const(b, i)
    &&& exists|x: InstId| #[trigger] in_a_stream(b, x) && uses_value_of(b, x, i)
    &&& !exists|x: InstId| #[trigger] in_a_stream(b, x) && uses_value_of(b, x, i) && !absorbs(b, x, i)
}

/// Which integer and float constants are only ever used as an immediate operand, so they never
/// need a register.
fn absorbed_constants(body: &Body) -> (r: Vec<bool>)
    requires
        body_wf(*body),
    ensures
        r@.len() == body.instructions@.len(),
        forall|i: int| 0 <= i < r@.len() ==> #[trigger] r@[i] == absorbed_const(*body, i),
{
    let n = body.instructions.len();
    let mut used: Vec<bool> = Vec::new();
    let mut bad: Vec<bool> = Vec::new();
    while used.len() < n
        invariant
            used@.len() == bad@.len(),
            used@.len() <= n,
            forall|i: int| 0 <= i < used@.len() ==> !(#[trigger] used@[i]),
            forall|i: int| 0 <= i < bad@.len() ==> !(#[trigger] bad@[i]),
        decreases n - used@.len(),
    {
        used.push(false);
        bad.push(false);
    }
    let ghost mut done: Seq<InstId> = Seq::empty();
    let mut bi: usize = 0;
    while bi < body.blocks.len()
        invariant
            body_wf(*body),
            n == body.instructions@.len(),
            used@.len() == n,
            bad@.len() == n,
            bi <= body.blocks@.len(),
            forall|x: InstId| done.contains(x) <==> exists|p: int, q: int|
                0 <= p < bi && 0 <= q < body.blocks@[p].stream@.len() && #[trigger] body.blocks@[p].stream@[q] == x,
            forall|d: int| 0 <= d < done.len() ==> (#[trigger] done[d]).0 < n,
            forall|i: int| 0 <= i < n ==> #[trigger] used@[i] == (num_const(*body, i) && exists|d: int|
                0 <= d < done.len() && uses_value_of(*body, #[trigger] done[d], i)),
            forall|i: int| 0 <= i < n ==> #[trigger] bad@[i] == (num_const(*body, i) && exists|d: int|
                0 <= d < done.len() && uses_value_of(*body, #[trigger] done[d], i) && !absorbs(*body, done[d], i)),
        decreases body.blocks@.len() - bi,
    {
        let s = &body.blocks[bi].stream;
        let ghost done0 = done;
        let mut k: usize = 0;
        while k < s.len()
            invariant
                body_wf(*body),
                n == body.instructions@.len(),
                used@.len() == n,
                bad@.len() == n,
                bi < body.blocks@.len(),
                *s == body.blocks@[bi as int].stream,
                k <= s@.len(),
                done == done0 + s@.take(k as int),
                forall|d: int| 0 <= d < done.len() ==> (#[trigger] done[d]).0 < n,
                forall|i: int| 0 <= i < n ==> #[trigger] used@[i] == (num_const(*body, i) && exists|d: int|
                    0 <= d < done.len() && uses_value_of(*body, #[trigger] done[d], i)),
                forall|i: int| 0 <= i < n ==> #[trigger] bad@[i] == (num_const(*body, i) && exists|d: int|
                    0 <= d < done.len() && uses_value_of(*body, #[trigger] done[d], i) && !absorbs(*body, done[d], i)),
            decreases s@.len() - k,
        {
            let iid = s[k];
            let inst = &body.instructions[iid.0 as usize];
            proof {
                if let Inst::BinOp { left, right, .. } = *inst {
                    assert(operands(*inst)[0] == left && operands(*inst)[1] == right);
                }
            }
            let absorbed_one = match crate::lower::imm_binop(body, inst) {
                Some(x) => Some(x.1),
                None => None,
            };
            let us = crate::ir::uses(inst);
            let mut j: usize = 0;
            while j < us.len()
                invariant
                    body_wf(*body),
                    n == body.instructions@.len(),
                    used@.len() == n,
                    bad@.len() == n,
                    iid.0 < n,
                    *inst == body.instructions@[iid.0 as int],
                    j <= us@.len(),
                    absorbed_one == match crate::lower::spec_imm_binop(*body, *inst) {
                        Some(t) => Some(t.1),
                        None => None,
                    },
                    forall|x: InstId| us@.contains(x) <==> operands(*inst).contains(x),
                    forall|i: int| 0 <= i < n ==> #[trigger] used@[i] == (num_const(*body, i) && ((exists|d: int|
                        0 <= d < done.len() && uses_value_of(*body, #[trigger] done[d], i)) || exists|jj: int|
                        0 <= jj < j && (#[trigger] us@[jj]).0 == i)),
                    forall|i: int| 0 <= i < n ==> #[trigger] bad@[i] == (num_const(*body, i) && ((exists|d: int|
                        0 <= d < done.len() && uses_value_of(*body, #[trigger] done[d], i) && !absorbs(*body, done[d], i))
                        || (!absorbs(*body, iid, i) && exists|jj: int| 0 <= jj < j && (#[trigger] us@[jj]).0 == i))),
                decreases us@.len() - j,
            {
                let u = us[j];
                proof {
                    assert(us@.contains(u));
                    let kk = choose|kk: int|
                        0 <= kk < operands(body.instructions@[iid.0 as int]).len()
                            && operands(body.instructions@[iid.0 as int])[kk] == u;
                }
                let is_num = match &body.instructions[u.0 as usize] {
                    Inst::Constant(Constant::Int(_)) | Inst::Constant(Constant::Float(_)) => true,
                    _ => false,
                };
                let ghost used0 = used@;
                let ghost bad0 = bad@;
                if is_num {
                    used.set(u.0 as usize, true);
                    if absorbed_one != Some(u) {
                        bad.set(u.0 as usize, true);
                    }
                }
                proof {
                    assert(InstId(u.0 as int as u32) == u);
                    assert forall|i: int| 0 <= i < n implies #[trigger] used@[i] == (num_const(*body, i) && ((exists|d: int|
                        0 <= d < done.len() && uses_value_of(*body, #[trigger] done[d], i)) || exists|jj: int|
                        0 <= jj < j + 1 && (#[trigger] us@[jj]).0 == i)) by {
                        if i == u.0 as int {
                            assert(us@[j as int].0 == i);
                        } else {
                            assert(used@[i] == used0[i]);
                            if exists|jj: int| 0 <= jj < j + 1 && (#[trigger] us@[jj]).0 == i {
                                let jj = choose|jj: int| 0 <= jj < j + 1 && (#[trigger] us@[jj]).0 == i;
                                assert(jj < j);
                            }
                        }
                    }
                    assert forall|i: int| 0 <= i < n implies #[trigger] bad@[i] == (num_const(*body, i) && ((exists|d: int|
                        0 <= d < done.len() && uses_value_of(*body, #[trigger] done[d], i) && !absorbs(*body, done[d], i))
                        || (!absorbs(*body, iid, i) && exists|jj: int| 0 <= jj < j + 1 && (#[trigger] us@[jj]).0 == i))) by {
                        if i == u.0 as int {
                            assert(us@[j as int].0 == i);
                            assert((absorbed_one == Some(u)) == absorbs(*body, iid, i));
                        } else {
                            assert(bad@[i] == bad0[i]);
                            if exists|jj: int| 0 <= jj < j + 1 && (#[trigger] us@[jj]).0 == i {
                                let jj = choose|jj: int| 0 <= jj < j + 1 && (#[trigger] us@[jj]).0 == i;
                                assert(jj < j);
                            }
                        }
                    }
                }
                j += 1;
            }
            proof {
                let done1 = done.push(iid);
                assert forall|i: int| 0 <= i < n implies ((exists|jj: int| 0 <= jj < us@.len() && (#[trigger] us@[jj]).0 == i)
                    <==> uses_value_of(*body, iid, i)) by {
                    if exists|jj: int| 0 <= jj < us@.len() && (#[trigger] us@[jj]).0 == i {
                        let jj = choose|jj: int| 0 <= jj < us@.len() && (#[trigger] us@[jj]).0 == i;
                        assert(us@.contains(us@[jj]));
                        assert(InstId(i as u32) == us@[jj]);
                    }
                    if uses_value_of(*body, iid, i) {
                        assert(us@.contains(InstId(i as u32)));
                        let jj = choose|jj: int| 0 <= jj < us@.len() && us@[jj] == InstId(i as u32);
                        assert(us@[jj].0 == i);
                    }
                }
                assert forall|i: int| 0 <= i < n implies #[trigger] used@[i] == (num_const(*body, i) && exists|d: int|
                    0 <= d < done1.len() && uses_value_of(*body, #[trigger] done1[d], i)) by {
                    if exists|d: int| 0 <= d < done.len() && uses_value_of(*body, #[trigger] done[d], i) {
                        let d = choose|d: int| 0 <= d < done.len() && uses_value_of(*body, #[trigger] done[d], i);
                        assert(done1[d] == done[d]);
                    }
                    if exists|d: int| 0 <= d < done1.len() && uses_value_of(*body, #[trigger] done1[d], i) {
                        let d = choose|d: int| 0 <= d < done1.len() && uses_value_of(*body, #[trigger] done1[d], i);
                        if d < done.len() {
                            assert(done1[d] == done[d]);
                        }
                    }
                    assert(done1[done.len() as int] == iid);
                }
                assert forall|i: int| 0 <= i < n implies #[trigger] bad@[i] == (num_const(*body, i) && exists|d: int|
                    0 <= d < done1.len() && uses_value_of(*body, #[trigger] done1[d], i) && !absorbs(*body, done1[d], i)) by {
                    if exists|d: int| 0 <= d < done.len() && uses_value_of(*body, #[trigger] done[d], i) && !absorbs(*body, done[d], i) {
                        let d = choose|d: int| 0 <= d < done.len() && uses_value_of(*body, #[trigger] done[d], i) && !absorbs(*body, done[d], i);
                        assert(done1[d] == done[d]);
                    }
                    if exists|d: int| 0 <= d < done1.len() && uses_value_of(*body, #[trigger] done1[d], i) && !absorbs(*body, done1[d], i) {
                        let d = choose|d: int| 0 <= d < done1.len() && uses_value_of(*body, #[trigger] done1[d], i) && !absorbs(*body, done1[d], i);
                        if d < done.len() {
                            assert(done1[d] == done[d]);
                        }
                    }
                    assert(done1[done.len() as int] == iid);
                }
                assert(done1 =~= done0 + s@.take(k + 1));
                done = done1;
            }
            k += 1;
        }
        proof {
            assert(s@.take(k as int) =~= s@);
            assert forall|x: InstId| done.contains(x) <==> exists|p: int, q: int|
                0 <= p < bi + 1 && 0 <= q < body.blocks@[p].stream@.len() && #[trigger] body.blocks@[p].stream@[q] == x by {
                if done.contains(x) {
                    let d = choose|d: int| 0 <= d < done.len() && done[d] == x;
                    if d < done0.len() {
                        assert(done0.contains(x));
                    } else {
                        assert(body.blocks@[bi as int].stream@[d - done0.len()] == x);
                    }
                }
                if exists|p: int, q: int|
                    0 <= p < bi + 1 && 0 <= q < body.blocks@[p].stream@.len() && #[trigger] body.blocks@[p].stream@[q] == x {
                    let (p, q) = choose|p: int, q: int|
                        0 <= p < bi + 1 && 0 <= q < body.blocks@[p].stream@.len() && #[trigger] body.blocks@[p].stream@[q] == x;
                    if p < bi {
                        assert(done0.contains(x));
                        let d = choose|d: int| 0 <= d < done0.len() && done0[d] == x;
                        assert(done[d] == x);
                    } else {
                        assert(done[done0.len() + q] == x);
                    }
                }
            }
        }
        bi += 1;
    }
    let mut absorbed: Vec<bool> = Vec::new();
    let mut i: usize = 0;
    while i < n
        invariant
            used@.len() == n,
            bad@.len() == n,
            absorbed@.len() == i,
            i <= n,
            forall|q: int| 0 <= q < i ==> #[trigger] absorbed@[q] == (used@[q] && !bad@[q]),
        decreases n - i,
    {
        absorbed.push(used[i] && !bad[i]);
        i += 1;
    }
    proof {
        assert forall|i: int| 0 <= i < n implies #[trigger] absorbed@[i] == absorbed_const(*body, i) by {
            if exists|d: int| 0 <= d < done.len() && uses_value_of(*body, #[trigger] done[d], i) {
                let d = choose|d: int| 0 <= d < done.len() && uses_value_of(*body, #[trigger] done[d], i);
                assert(done.contains(done[d]));
                assert(in_a_stream(*body, done[d]));
            }
            if exists|x: InstId| #[trigger] in_a_stream(*body, x) && uses_value_of(*body, x, i) {
                let x = choose|x: InstId| #[trigger] in_a_stream(*body, x) && uses_value_of(*body, x, i);
                assert(done.contains(x));
                let d = choose|d: int| 0 <= d < done.len() && done[d] == x;
            }
            if exists|d: int| 0 <= d < done.len() && uses_value_of(*body, #[trigger] done[d], i) && !absorbs(*body, done[d], i) {
                let d = choose|d: int| 0 <= d < done.len() && uses_value_of(*body, #[trigger] done[d], i) && !absorbs(*body, done[d], i);
                assert(done.contains(done[d]));
                assert(in_a_stream(*body, done[d]));
            }
            if exists|x: InstId| #[trigger] in_a_stream(*body, x) && uses_value_of(*body, x, i) && !absorbs(*body, x, i) {
                let x = choose|x: InstId| #[trigger] in_a_stream(*body, x) && uses_value_of(*body, x, i) && !absorbs(*body, x, i);
                assert(done.contains(x));
                let d = choose|d: int| 0 <= d < done.len() && done[d] == x;
            }
        }
    }
    absorbed
}

/// Whether operand `u`'s register can be reused once instruction `iid` has read it: this is its
/// last use in the block, no other block uses it, and it isn't a local's or a phi's register.
fn clean_is_safe(body: &Body, last_use: &Vec<Option<InstId>>, cross: &Vec<bool>, iid: InstId, u: InstId) -> (b: bool)
    requires
        last_use@.len() == body.instructions@.len(),
        cross@.len() == body.instructions@.len(),
        u.0 < body.instructions@.len(),
    ensures
        b == (last_use@[u.0 as int] == Some(iid) && !cross@[u.0 as int] && !(body.instructions@[u.0 as int] is GetLocal)
            && !(body.instructions@[u.0 as int] is Phi)),
{
    last_use[u.0 as usize] == Some(iid) && !cross[u.0 as usize] && !matches!(
        &body.instructions[u.0 as usize],
        Inst::GetLocal(_) | Inst::Phi(_)
    )
}

/// Local `i` lives in register `i`, and registers are counted past the locals.
pub open spec fn locals_placed(ctx: crate::lower::Ctx, n_locals: u32) -> bool {
    &&& ctx.local_to_reg@.len() == n_locals
    &&& forall|i: int| 0 <= i < n_locals ==> ctx.local_to_reg@[i] == Reg(i as u32)
    &&& ctx.regs >= n_locals
}

/// Every pinned register is below `n`.
pub open spec fn pinned_ok(pinned: Seq<(crate::constant::CachedConstant, Reg)>, n: u32) -> bool {
    forall|p: int| 0 <= p < pinned.len() ==> (#[trigger] pinned[p]).1.0 < n
}

/// Every phi register a copy writes is below `n`.
pub open spec fn copies_ok(copies: Seq<Vec<(Reg, InstId)>>, n: u32) -> bool {
    forall|p: int, j: int| 0 <= p < copies.len() && 0 <= j < copies[p]@.len() ==> (#[trigger] copies[p]@[j]).0.0 < n
}

/// The context's locals are in place and every register it knows is below its count.
pub open spec fn ctx_ready(ctx: crate::lower::Ctx, n_locals: u32) -> bool {
    locals_placed(ctx, n_locals) && ctx_regs_ok(ctx)
}

/// Handing out a register keeps a context's registers below its count, and the one handed out
/// is below the new count.
proof fn lemma_alloc_ok(c0: crate::lower::Ctx, c1: crate::lower::Ctx)
    requires
        ctx_regs_ok(c0),
        c0.can_alloc(),
        c0.allocated(c1),
    ensures
        ctx_regs_ok(c1),
        c0.regs <= c1.regs,
        c0.next_reg().0 < c1.regs,
{
    if c0.free@.len() > 0 {
        assert(c0.free@[c0.free@.len() - 1].0 < c0.regs);
        assert forall|i: int| 0 <= i < c1.free@.len() implies (#[trigger] c1.free@[i]).0 < c1.regs by {
            assert(c1.free@[i] == c0.free@[i]);
        }
    }
}

/// Every op of a list that fits a frame fits a bigger one.
proof fn lemma_ops_regs_grow(ops: Seq<Op>, n: nat, m: nat)
    requires
        ops_regs_below(ops, n),
        n <= m,
    ensures
        ops_regs_below(ops, m),
{
    assert forall|k: int| 0 <= k < ops.len() implies regs_below(#[trigger] ops[k], m) by {
        lemma_regs_below_grow(ops[k], n, m);
    }
}

/// The size of `op`, added to `offset`; `None` on overflow.
fn advance(offset: usize, op: &Op) -> (r: Option<usize>)
    ensures
        match r {
            Some(o) => o == offset + op_size(*op),
            None => offset + op_size(*op) > usize::MAX,
        },
{
    match op_size_of(op) {
        Some(k) => offset.checked_add(k),
        None => None,
    }
}

/// `ops` is `pre` with each jump target resolved through `offs`, where `pre` names blocks of
/// `b`; the entry block starts at byte `base`, and every block reached from the entry starts at
/// an op boundary: a jump to it lands on the first byte of an op, or just past the last one.
pub open spec fn lays_out(ops: Seq<Op>, pre: Seq<Op>, offs: Seq<usize>, base: int, b: Body) -> bool {
    &&& pre.len() == ops.len()
    &&& offs.len() == b.blocks@.len()
    &&& forall|k: int| 0 <= k < ops.len() ==> op_code(#[trigger] ops[k]) == op_code(pre[k]) && op_operands(ops[k])
        == op_operands(pre[k]).map_values(|f: WireField| resolved_field(f, offs))
    &&& forall|c: int| 0 <= c < offs.len() && laid_reachable(b, c) ==> exists|i: int|
        0 <= i <= ops.len() && offs[c] == base + code_len(#[trigger] ops.take(i))
    &&& offs[0] == base
}

/// The ops of a body laid out from byte `base`: each jump to a block reached from the entry
/// lands on an op boundary, and the entry block comes first (see [`lays_out`]).
pub open spec fn jumps_land(ops: Seq<Op>, base: int, b: Body) -> bool {
    exists|pre: Seq<Op>, offs: Seq<usize>| #[trigger] lays_out(ops, pre, offs, base, b)
}

/// The byte offset `bo` is just past `ops`, which start at byte `base`.
pub open spec fn at_end(bo: usize, base: int, ops: Seq<Op>) -> bool {
    bo == base + code_len(ops)
}

/// `new` is `old` with ops added at the end.
pub open spec fn extends(old: Seq<Op>, new: Seq<Op>) -> bool {
    new.len() >= old.len() && new.take(old.len() as int) == old
}

/// `new` agrees with `old` on the ops before index `start`.
pub open spec fn kept_before(old: Seq<Op>, new: Seq<Op>, start: int) -> bool {
    0 <= start <= old.len() && start <= new.len() && new.take(start) == old.take(start)
}

proof fn lemma_extends_kept(old: Seq<Op>, new: Seq<Op>, start: int)
    requires
        extends(old, new),
        0 <= start <= old.len(),
    ensures
        kept_before(old, new, start),
{
    assert(new.take(start) =~= new.take(old.len() as int).take(start));
    assert(old.take(start) =~= old.take(start));
}

proof fn lemma_kept_chain(a: Seq<Op>, b: Seq<Op>, c: Seq<Op>, start: int)
    requires
        kept_before(a, b, start),
        extends(b, c),
    ensures
        kept_before(a, c, start),
{
    assert(c.take(start) =~= c.take(b.len() as int).take(start));
}

proof fn lemma_code_len_push(ops: Seq<Op>, op: Op)
    ensures
        code_len(ops.push(op)) == code_len(ops) + op_size(op),
{
    assert(ops.push(op).drop_last() =~= ops);
}

/// Appends `op`, moving the byte offset past it; `false` when the offset would not fit.
fn emit(
    ops: &mut Vec<Op>,
    op_locs: &mut Vec<Location>,
    byte_offset: &mut usize,
    op: Op,
    loc: Location,
    Ghost(base): Ghost<int>,
) -> (ok: bool)
    requires
        at_end(*old(byte_offset), base, old(ops)@),
    ensures
        ok <==> *old(byte_offset) + op_size(op) <= usize::MAX,
        ok ==> final(ops)@ == old(ops)@.push(op),
        ok ==> final(op_locs)@ == old(op_locs)@.push(loc),
        ok ==> at_end(*final(byte_offset), base, final(ops)@),
        !ok ==> final(ops)@ == old(ops)@ && final(op_locs)@ == old(op_locs)@ && *final(byte_offset)
            == *old(byte_offset),
{
    *byte_offset = match advance(*byte_offset, &op) {
        Some(o) => o,
        None => return false,
    };
    proof {
        lemma_code_len_push(ops@, op);
    }
    ops.push(op);
    op_locs.push(loc);
    true
}

/// The location table of a compiled body gives each op a location, that of an instruction of
/// `b` or the synthetic one (see [`crate::locs::lemma_loc_at_op_start`]): its offsets grow, no
/// entry repeats the location before it, and every op starts at an offset that fits `u32`.
pub open spec fn located(c: Chunk, b: Body) -> bool {
    &&& crate::locs::offsets_sorted(c.locs@)
    &&& crate::locs::no_repeats(c.locs@)
    &&& c.ops@.len() > 0 ==> code_len(c.ops@.drop_last()) <= u32::MAX
    &&& exists|ls: Seq<Location>|
        ls.len() == c.ops@.len() && locs_from(ls, b) && c.locs@ == #[trigger] crate::locs::loc_table(c.ops@, ls)
}

/// `locals` gives each named local of `artifacts`, in order, its name and its register.
pub open spec fn names_locals(locals: Seq<(String, Reg)>, artifacts: Seq<(Local, String)>) -> bool {
    &&& locals.len() == artifacts.len()
    &&& forall|k: int| 0 <= k < locals.len() ==> (#[trigger] locals[k]).0 == artifacts[k].1 && locals[k].1 == Reg(
        artifacts[k].0.0,
    )
}

/// Each location of `s` is that of an instruction of `b`, or the synthetic one.
pub open spec fn locs_from(s: Seq<Location>, b: Body) -> bool {
    forall|k: int|
        0 <= k < s.len() ==> #[trigger] s[k] == Location::synthetic_spec() || exists|i: int|
            0 <= i < b.locs@.len() && s[k] == #[trigger] b.locs@[i]
}

proof fn lemma_locs_from_push(s: Seq<Location>, b: Body, loc: Location)
    requires
        locs_from(s, b),
        loc == Location::synthetic_spec(),
    ensures
        locs_from(s.push(loc), b),
{
    assert forall|k: int| 0 <= k < s.push(loc).len() implies #[trigger] s.push(loc)[k] == Location::synthetic_spec()
        || exists|i: int| 0 <= i < b.locs@.len() && s.push(loc)[k] == #[trigger] b.locs@[i] by {
        if k < s.len() {
            assert(s.push(loc)[k] == s[k]);
        }
    }
}

proof fn lemma_locs_from_tagged(a: Seq<Location>, c: Seq<Location>, b: Body, i: int)
    requires
        locs_from(a, b),
        0 <= i < b.locs@.len(),
        tagged(a, c, b.locs@[i]),
    ensures
        locs_from(c, b),
{
    assert forall|k: int| 0 <= k < c.len() implies #[trigger] c[k] == Location::synthetic_spec()
        || exists|j: int| 0 <= j < b.locs@.len() && c[k] == #[trigger] b.locs@[j] by {
        if k < a.len() {
            assert(c[k] == c.take(a.len() as int)[k]);
            assert(a[k] == Location::synthetic_spec() || exists|j: int| 0 <= j < b.locs@.len() && a[k] == #[trigger] b.locs@[j]);
        } else {
            assert(c[k] == b.locs@[i]);
        }
    }
}

/// `new` is `old` with locations added at the end, each of them `loc`.
pub open spec fn tagged(old: Seq<Location>, new: Seq<Location>, loc: Location) -> bool {
    &&& new.len() >= old.len()
    &&& new.take(old.len() as int) == old
    &&& forall|k: int| old.len() <= k < new.len() ==> #[trigger] new[k] == loc
}

proof fn lemma_tagged_push(a: Seq<Location>, b: Seq<Location>, loc: Location)
    requires
        tagged(a, b, loc),
    ensures
        tagged(a, b.push(loc), loc),
{
    assert(b.push(loc).take(a.len() as int) =~= b.take(a.len() as int));
}

/// What holds of the emission between two instructions: the context knows a register slot for
/// each instruction, its locals are in place, and every register it, the pinned constants, the
/// phi copies and the ops emitted so far name is below its count; every jump so far names a
/// block of the body.
pub open spec fn emit_state(
    body: Body,
    n_locals: u32,
    ctx: crate::lower::Ctx,
    ops: Seq<Op>,
    pinned: Seq<(crate::constant::CachedConstant, Reg)>,
    copies: Seq<Vec<(Reg, InstId)>>,
) -> bool {
    &&& body_wf(body)
    &&& ctx.inst_to_reg@.len() == body.instructions@.len()
    &&& ctx_ready(ctx, n_locals)
    &&& pinned_ok(pinned, ctx.regs)
    &&& copies_ok(copies, ctx.regs)
    &&& copies.len() == body.blocks@.len()
    &&& ops_below(ops, body.blocks@.len() as nat)
    &&& ops_regs_below(ops, ctx.regs as nat)
}

/// The register an op writes is its first operand.
proof fn lemma_dst_first(op: Op)
    ensures
        op_dst(op) matches Some(d) ==> op_operands(op).len() > 0 && op_operands(op)[0] == WireField::Reg(d),
{
}

/// A fused compare-and-branch names the registers its comparison did.
proof fn lemma_fused_regs(cmp: Op, t: BlockTarget, op: Op, n: nat)
    requires
        fused(cmp, t) == Some(op),
        regs_below(cmp, n),
    ensures
        regs_below(op, n),
{
    assert(field_regs_below(op_operands(cmp)[1], n));
    if op_operands(cmp).len() > 2 {
        assert(field_regs_below(op_operands(cmp)[2], n));
    }
}

/// An immediate op names its two registers only.
proof fn lemma_imm_regs(kind: OperandKind, o: BinOp, dst: Reg, left: Reg, val: i64, op: Op, n: nat)
    requires
        imm_op(kind, o, dst, left, val) == Some(op),
        dst.0 < n,
        left.0 < n,
    ensures
        regs_below(op, n),
{
}

/// Writes the last op's result to `dst` in place of its own register.
fn retarget_last(ops: &mut Vec<Op>, dst: Reg, Ghost(n): Ghost<nat>, Ghost(nr): Ghost<nat>, Ghost(start): Ghost<int>)
    requires
        0 <= start < old(ops)@.len(),
        ops_below(old(ops)@, n),
        ops_regs_below(old(ops)@, nr),
        dst.0 < nr,
    ensures
        ops_below(final(ops)@, n),
        ops_regs_below(final(ops)@, nr),
        kept_before(old(ops)@, final(ops)@, start),
        final(ops)@.len() == old(ops)@.len(),
        code_len(final(ops)@) == code_len(old(ops)@),
        final(ops)@.drop_last() == old(ops)@.drop_last(),
        op_code(final(ops)@.last()) == op_code(old(ops)@.last()),
        op_operands(final(ops)@.last()) == if op_dst(old(ops)@.last()) is Some {
            op_operands(old(ops)@.last()).update(0, WireField::Reg(dst))
        } else {
            op_operands(old(ops)@.last())
        },
{
    let mut last = ops.pop().unwrap();
    let ghost last0 = last;
    proof {
        assert(regs_below(old(ops)@[old(ops)@.len() - 1], nr));
        assert(targets_below(old(ops)@[old(ops)@.len() - 1], n));
    }
    last.set_reg(dst);
    proof {
        if op_dst(last0) is Some {
            lemma_dst_first(last0);
            lemma_fields_size_reg(op_operands(last0), 0, dst);
            assert(op_operands(last) == op_operands(last0).update(0, WireField::Reg(dst)));
            assert forall|j: int| 0 <= j < op_operands(last).len() implies match #[trigger] op_operands(last)[j] {
                WireField::Jump(t) => t matches BlockTarget::Block(b) ==> b.0 < n,
                WireField::Table(ts) => forall|jj: int| 0 <= jj < ts.len() ==> ((#[trigger] ts[jj]) matches BlockTarget::Block(b) ==> b.0 < n),
                _ => true,
            } by {
                if j != 0 {
                    assert(op_operands(last)[j] == op_operands(last0)[j]);
                }
            }
            assert forall|j: int| 0 <= j < op_operands(last).len() implies field_regs_below(#[trigger] op_operands(last)[j], nr) by {
                if j != 0 {
                    assert(op_operands(last)[j] == op_operands(last0)[j]);
                    assert(field_regs_below(op_operands(last0)[j], nr));
                }
            }
        }
    }
    let ghost popped = ops@;
    ops.push(last);
    proof {
        assert(op_size(last) == op_size(last0));
        assert(popped =~= old(ops)@.drop_last());
        assert(ops@.drop_last() =~= popped);
        assert(ops@.take(start) =~= old(ops)@.take(start));
        assert forall|k: int| 0 <= k < ops@.len() implies regs_below(#[trigger] ops@[k], nr) by {
            if k < ops@.len() - 1 {
                assert(ops@[k] == old(ops)@[k]);
            }
        }
        assert forall|k: int| 0 <= k < ops@.len() implies targets_below(#[trigger] ops@[k], n) by {
            if k < ops@.len() - 1 {
                assert(ops@[k] == old(ops)@[k]);
            }
        }
    }
}

/// Replaces the comparison at the end of `ops` with a compare-and-branch to `target`.
fn fuse_last(
    ops: &mut Vec<Op>,
    op_locs: &mut Vec<Location>,
    target: BlockId,
    byte_offset: &mut usize,
    Ghost(n): Ghost<nat>,
    Ghost(nr): Ghost<nat>,
    Ghost(start): Ghost<int>,
    Ghost(base): Ghost<int>,
) -> (ok: bool)
    requires
        0 <= start < old(ops)@.len(),
        op_is_comparison(old(ops)@[old(ops)@.len() - 1]),
        target.0 < n,
        ops_below(old(ops)@, n),
        ops_regs_below(old(ops)@, nr),
        at_end(*old(byte_offset), base, old(ops)@),
        old(op_locs)@.len() == old(ops)@.len(),
    ensures
        ok ==> ops_below(final(ops)@, n),
        ok ==> ops_regs_below(final(ops)@, nr),
        ok ==> kept_before(old(ops)@, final(ops)@, start),
        ok ==> at_end(*final(byte_offset), base, final(ops)@),
        ok ==> final(ops)@.len() == old(ops)@.len(),
        ok ==> final(op_locs)@ == old(op_locs)@,
        ok ==> final(ops)@ == old(ops)@.drop_last().push(
            fused(old(ops)@.last(), BlockTarget::Block(target))->0,
        ),
        0 <= base && base + code_len(old(ops)@.drop_last()) + op_size(
            fused(old(ops)@.last(), BlockTarget::Block(target))->0,
        ) <= usize::MAX ==> ok,
{
    let test_op = ops.pop().unwrap();
    let loc = op_locs.pop().unwrap();
    proof {
        assert(ops@ =~= old(ops)@.drop_last());
    }
    proof {
        assert(regs_below(old(ops)@[old(ops)@.len() - 1], nr));
    }
    let size = match op_size_of(&test_op) {
        Some(z) => z,
        None => return false,
    };
    *byte_offset = match (*byte_offset).checked_sub(size) {
        Some(o) => o,
        None => return false,
    };
    let op = fuse_branch(test_op, BlockTarget::Block(target));
    proof {
        lemma_fused_below(test_op, target, op, n);
        lemma_fused_regs(test_op, BlockTarget::Block(target), op, nr);
    }
    let ghost popped = ops@;
    if !emit(ops, op_locs, byte_offset, op, loc, Ghost(base)) {
        return false;
    }
    proof {
        assert(ops@.take(start) =~= old(ops)@.take(start));
        assert(op_locs@ =~= old(op_locs)@);
    }
    true
}

/// Emits a move into each phi register of block `bid`'s successor from the value its
/// predecessor gives it.
#[verifier::spinoff_prover]
fn emit_copies(
    body: &Body,
    n_locals: u32,
    cs: &Vec<(Reg, InstId)>,
    ctx: &crate::lower::Ctx,
    ops: &mut Vec<Op>,
    op_locs: &mut Vec<Location>,
    byte_offset: &mut usize,
    loc: Location,
    Ghost(pinned): Ghost<Seq<(crate::constant::CachedConstant, Reg)>>,
    Ghost(copies): Ghost<Seq<Vec<(Reg, InstId)>>>,
    Ghost(base): Ghost<int>,
) -> (ok: bool)
    requires
        emit_state(*body, n_locals, *ctx, old(ops)@, pinned, copies),
        exists|p: int| 0 <= p < copies.len() && copies[p] == *cs,
        at_end(*old(byte_offset), base, old(ops)@),
        old(op_locs)@.len() == old(ops)@.len(),
    ensures
        ok ==> emit_state(*body, n_locals, *ctx, final(ops)@, pinned, copies),
        ok ==> extends(old(ops)@, final(ops)@),
        ok ==> at_end(*final(byte_offset), base, final(ops)@),
        ok ==> final(op_locs)@.len() == final(ops)@.len(),
        ok ==> tagged(old(op_locs)@, final(op_locs)@, loc),
        ok ==> final(ops)@ == old(ops)@ + copy_moves(cs@, *ctx),
        copies_have_regs(cs@, *ctx) && 0 <= base && base + code_len(old(ops)@ + copy_moves(cs@, *ctx))
            <= usize::MAX ==> ok,
{
    let ghost p = choose|p: int| 0 <= p < copies.len() && copies[p] == *cs;
    let ghost all = old(ops)@ + copy_moves(cs@, *ctx);
    let ni = body.instructions.len();
    let mut c: usize = 0;
    proof {
        assert(ops@.take(ops@.len() as int) =~= ops@);
    }
    while c < cs.len()
        invariant
            emit_state(*body, n_locals, *ctx, ops@, pinned, copies),
            ni == body.instructions@.len(),
            0 <= p < copies.len(),
            copies[p] == *cs,
            extends(old(ops)@, ops@),
            at_end(*byte_offset, base, ops@),
            op_locs@.len() == ops@.len(),
            tagged(old(op_locs)@, op_locs@, loc),
            c <= cs@.len(),
            ops@ == old(ops)@ + copy_moves(cs@.take(c as int), *ctx),
            all == old(ops)@ + copy_moves(cs@, *ctx),
        decreases cs@.len() - c,
    {
        let (dst, value) = cs[c];
        proof {
            lemma_copy_step(old(ops)@, cs@, *ctx, c as int, base);
        }
        if value.0 as usize >= ni {
            return false;
        }
        let src = match ctx.inst_to_reg[value.0 as usize] {
            Some(r) => r,
            None => return false,
        };
        let op = Op::Move { dst, src };
        proof {
            assert(no_targets(op));
            assert(copies[p]@[c as int].0.0 < ctx.regs);
            assert(ctx.inst_to_reg@[value.0 as int] matches Some(r) ==> r.0 < ctx.regs);
        }
        let ghost before = ops@;
        let ghost locs_before = op_locs@;
        if !emit(ops, op_locs, byte_offset, op, loc, Ghost(base)) {
            return false;
        }
        proof {
            assert(ops@.take(old(ops)@.len() as int) =~= before.take(old(ops)@.len() as int));
            lemma_tagged_push(old(op_locs)@, locs_before, loc);
            assert(ops@ =~= old(ops)@ + copy_moves(cs@.take(c + 1), *ctx));
        }
        c += 1;
    }
    proof {
        assert(cs@.take(c as int) =~= cs@);
    }
    true
}

/// The free registers of a context once it has handed one out.
pub open spec fn free_after_alloc(c: crate::lower::Ctx) -> Seq<Reg> {
    if c.free@.len() > 0 {
        c.free@.drop_last()
    } else {
        c.free@
    }
}

/// The register count of a context once it has handed a register out.
pub open spec fn regs_after_alloc(c: crate::lower::Ctx) -> u32 {
    if c.free@.len() > 0 {
        c.regs
    } else {
        (c.regs + 1) as u32
    }
}

/// Register `r` of operand `u` can be handed out again once instruction `iid` has read it: this
/// is its last use in the block, no other block uses it, it isn't a local's or a phi's register,
/// and no constant is pinned to it.
pub open spec fn reusable(
    b: Body,
    last_use: Seq<Option<InstId>>,
    cross: Seq<bool>,
    iid: InstId,
    u: InstId,
    pinned: Seq<(crate::constant::CachedConstant, Reg)>,
    r: Reg,
) -> bool {
    &&& last_use[u.0 as int] == Some(iid)
    &&& !cross[u.0 as int]
    &&& !(b.instructions@[u.0 as int] is GetLocal)
    &&& !(b.instructions@[u.0 as int] is Phi)
    &&& !exists|k: int| 0 <= k < pinned.len() && (#[trigger] pinned[k]).1 == r
}

/// The register pinned to constant instruction `inst` (not absorbed as an immediate), if one is.
pub open spec fn pinned_hit(
    inst: Inst,
    absorbed: bool,
    pinned: Seq<(crate::constant::CachedConstant, Reg)>,
) -> Option<Reg> {
    match inst {
        Inst::Constant(k) => if !absorbed && crate::constant::cached_of(k.model()) is Some && exists|j: int|
            0 <= j < pinned.len() && (#[trigger] pinned[j]).0 == crate::constant::cached_of(k.model())->0 {
            let j = choose|j: int|
                0 <= j < pinned.len() && (#[trigger] pinned[j]).0 == crate::constant::cached_of(k.model())->0 && forall|i: int|
                    0 <= i < j ==> (#[trigger] pinned[i]).0 != crate::constant::cached_of(k.model())->0;
            Some(pinned[j].1)
        } else {
            None
        },
        _ => None,
    }
}

/// Instruction `iid` is emitted as the one op it lowers to, with no shortcut: it is no phi,
/// local read or write, branch or jump; a constant neither absorbed nor pinned; a binary
/// operation with no immediate form.
pub open spec fn lowered_directly(
    b: Body,
    iid: InstId,
    absorbed: bool,
    pinned: Seq<(crate::constant::CachedConstant, Reg)>,
) -> bool {
    let inst = b.instructions@[iid.0 as int];
    match inst {
        Inst::Phi(_) | Inst::GetLocal(_) | Inst::SetLocal(..) | Inst::JumpIfFalse { .. } | Inst::Jump { .. } => false,
        Inst::Constant(_) => !absorbed && pinned_hit(inst, absorbed, pinned) is None,
        Inst::BinOp { .. } => crate::lower::spec_imm_binop(b, inst) is None,
        _ => true,
    }
}

/// `c`'s free registers are `kept` followed by registers of operands of instruction `iid` that
/// [`reusable`] allows to hand out again, each of them the register `c` gives the operand.
pub open spec fn freed_after(
    b: Body,
    last_use: Seq<Option<InstId>>,
    cross: Seq<bool>,
    iid: InstId,
    pinned: Seq<(crate::constant::CachedConstant, Reg)>,
    c: crate::lower::Ctx,
    kept: Seq<Reg>,
) -> bool {
    &&& c.free@.len() >= kept.len()
    &&& c.free@.take(kept.len() as int) == kept
    &&& forall|k: int|
        kept.len() <= k < c.free@.len() ==> frees(b, last_use, cross, iid, pinned, c.inst_to_reg@, #[trigger] c.free@[k])
}

/// `r` is the register (by `inst_to_reg`) of an operand of instruction `iid` that [`reusable`]
/// allows to hand out again.
pub open spec fn frees(
    b: Body,
    last_use: Seq<Option<InstId>>,
    cross: Seq<bool>,
    iid: InstId,
    pinned: Seq<(crate::constant::CachedConstant, Reg)>,
    inst_to_reg: Seq<Option<Reg>>,
    r: Reg,
) -> bool {
    exists|u: InstId|
        operands(b.instructions@[iid.0 as int]).contains(u) && reusable(b, last_use, cross, iid, u, pinned, inst_to_reg[u.0 as int]->0)
            && r == inst_to_reg[u.0 as int]->0
}

/// Instruction `inst` can be lowered with `c`: it is neither a local read nor a phi, every
/// value it uses has a register, a local it sets is one of the `n_locals`, a dictionary it
/// inserts into has a register, and a register can be handed out.
pub open spec fn lowerable(inst: Inst, c: crate::lower::Ctx, n_locals: u32) -> bool {
    &&& !(inst is GetLocal)
    &&& !(inst is Phi)
    &&& forall|k: int| 0 <= k < operands(inst).len() ==> c.has_reg(#[trigger] operands(inst)[k])
    &&& (inst matches Inst::SetLocal(l, _) ==> l.0 < n_locals)
    &&& (inst matches Inst::Insert { dict, .. } ==> c.has_reg(dict))
    &&& c.can_alloc()
}

/// One more copy's move after the first `c`: the moves so far grow by it, and where all of them
/// fit, so do the ones so far and this one.
proof fn lemma_copy_step(pre: Seq<Op>, cs: Seq<(Reg, InstId)>, ctx: crate::lower::Ctx, c: int, base: int)
    requires
        0 <= c < cs.len(),
    ensures
        copy_moves(cs.take(c + 1), ctx) == copy_moves(cs.take(c), ctx).push(copy_moves(cs, ctx)[c]),
        0 <= base && base + code_len(pre + copy_moves(cs, ctx)) <= usize::MAX ==> base + code_len(
            pre + copy_moves(cs.take(c), ctx),
        ) + op_size(copy_moves(cs, ctx)[c]) <= usize::MAX,
{
    let all = pre + copy_moves(cs, ctx);
    assert(copy_moves(cs.take(c + 1), ctx) =~= copy_moves(cs.take(c), ctx).push(copy_moves(cs, ctx)[c]));
    assert(all.take(pre.len() + c + 1) =~= pre + copy_moves(cs.take(c + 1), ctx));
    assert(all.take(all.len() as int) =~= all);
    crate::locs::lemma_code_len_mono(all, pre.len() + c + 1, all.len() as int);
    assert((pre + copy_moves(cs.take(c), ctx)).push(copy_moves(cs, ctx)[c]) =~= pre + copy_moves(cs.take(c + 1), ctx));
    lemma_code_len_push(pre + copy_moves(cs.take(c), ctx), copy_moves(cs, ctx)[c]);
}

/// The moves that fill phi registers from the values each copy names.
pub open spec fn copy_moves(cs: Seq<(Reg, InstId)>, ctx: crate::lower::Ctx) -> Seq<Op> {
    cs.map_values(|p: (Reg, InstId)| Op::Move { dst: p.0, src: ctx.inst_to_reg@[p.1.0 as int]->0 })
}

/// Every value a copy names has a register.
pub open spec fn copies_have_regs(cs: Seq<(Reg, InstId)>, ctx: crate::lower::Ctx) -> bool {
    forall|j: int|
        0 <= j < cs.len() ==> (#[trigger] cs[j]).1.0 < ctx.inst_to_reg@.len() && ctx.inst_to_reg@[cs[j].1.0 as int]
            is Some
}

/// Emits the immediate form of a binary instruction whose other operand is a constant.
fn emit_imm(
    body: &Body,
    n_locals: u32,
    iid: InstId,
    imm: (InstId, InstId, i64, BinOp, OperandKind),
    ctx: &mut crate::lower::Ctx,
    ops: &mut Vec<Op>,
    op_locs: &mut Vec<Location>,
    byte_offset: &mut usize,
    loc: Location,
    pinned: &Vec<(crate::constant::CachedConstant, Reg)>,
    Ghost(copies): Ghost<Seq<Vec<(Reg, InstId)>>>,
    cross: &Vec<bool>,
    last_use: &Vec<Option<InstId>>,
    Ghost(base): Ghost<int>,
) -> (ok: bool)
    requires
        emit_state(*body, n_locals, *old(ctx), old(ops)@, pinned@, copies),
        at_end(*old(byte_offset), base, old(ops)@),
        old(op_locs)@.len() == old(ops)@.len(),
        iid.0 < body.instructions@.len(),
        imm.0.0 < body.instructions@.len(),
        cross@.len() == body.instructions@.len(),
        last_use@.len() == body.instructions@.len(),
    ensures
        ok ==> emit_state(*body, n_locals, *final(ctx), final(ops)@, pinned@, copies),
        ok ==> old(ctx).regs <= final(ctx).regs,
        ok ==> extends(old(ops)@, final(ops)@),
        ok ==> at_end(*final(byte_offset), base, final(ops)@),
        ok ==> final(op_locs)@ == old(op_locs)@.push(loc),
        ok ==> final(ops)@.len() == old(ops)@.len() + 1,
        ok ==> final(ops)@ == old(ops)@.push(
            imm_op(imm.4, imm.3, old(ctx).next_reg(), old(ctx).reg_of(imm.0), imm.2)->0,
        ),
        ok ==> final(ctx).inst_to_reg@ == old(ctx).inst_to_reg@.update(iid.0 as int, Some(old(ctx).next_reg())),
        ok ==> final(ctx).local_to_reg == old(ctx).local_to_reg && final(ctx).regs == regs_after_alloc(*old(ctx)),
        ok ==> final(ctx).free@ == if reusable(*body, last_use@, cross@, iid, imm.0, pinned@, old(ctx).reg_of(imm.0)) {
            free_after_alloc(*old(ctx)).push(old(ctx).reg_of(imm.0))
        } else {
            free_after_alloc(*old(ctx))
        },
        old(ctx).has_reg(imm.0) && old(ctx).can_alloc() && imm_op(
            imm.4,
            imm.3,
            old(ctx).next_reg(),
            old(ctx).reg_of(imm.0),
            imm.2,
        ) is Some && *old(byte_offset) + op_size(
            imm_op(imm.4, imm.3, old(ctx).next_reg(), old(ctx).reg_of(imm.0), imm.2)->0,
        ) <= usize::MAX ==> ok,
{
    let (non_const, _con, val, op, kind) = imm;
    let left = match ctx.inst_to_reg[non_const.0 as usize] {
        Some(r) => r,
        None => return false,
    };
    if !(ctx.free.len() > 0 || ctx.regs < u32::MAX) {
        return false;
    }
    let ghost c0 = *ctx;
    proof {
        assert(c0.inst_to_reg@[non_const.0 as int] matches Some(r) ==> r.0 < c0.regs);
    }
    let dst = ctx.reg();
    proof {
        lemma_alloc_ok(c0, *ctx);
        lemma_ops_regs_grow(ops@, c0.regs as nat, ctx.regs as nat);
    }
    let imm_op = match make_imm_op(kind, op, dst, left, val) {
        Some(o) => o,
        None => return false,
    };
    proof {
        lemma_imm_no_targets(kind, op, dst, left, val, imm_op);
        lemma_imm_regs(kind, op, dst, left, val, imm_op, ctx.regs as nat);
    }
    ctx.inst_to_reg.set(iid.0 as usize, Some(dst));
    if clean_is_safe(body, last_use, cross, iid, non_const) && !is_pinned(pinned, left) {
        ctx.free.push(left);
    }
    if !emit(ops, op_locs, byte_offset, imm_op, loc, Ghost(base)) {
        return false;
    }
    proof {
        assert(ops@.take(old(ops)@.len() as int) =~= old(ops)@);
    }
    true
}

/// Emits the op instruction `iid` lowers to, once each operand has a register, and frees the
/// registers of operands it used last.
fn emit_lowered(
    body: &Body,
    n_locals: u32,
    iid: InstId,
    ctx: &mut crate::lower::Ctx,
    ops: &mut Vec<Op>,
    op_locs: &mut Vec<Location>,
    byte_offset: &mut usize,
    loc: Location,
    pinned: &Vec<(crate::constant::CachedConstant, Reg)>,
    Ghost(copies): Ghost<Seq<Vec<(Reg, InstId)>>>,
    cross: &Vec<bool>,
    last_use: &Vec<Option<InstId>>,
    Ghost(base): Ghost<int>,
) -> (ok: bool)
    requires
        emit_state(*body, n_locals, *old(ctx), old(ops)@, pinned@, copies),
        at_end(*old(byte_offset), base, old(ops)@),
        old(op_locs)@.len() == old(ops)@.len(),
        iid.0 < body.instructions@.len(),
        cross@.len() == body.instructions@.len(),
        last_use@.len() == body.instructions@.len(),
    ensures
        ok ==> emit_state(*body, n_locals, *final(ctx), final(ops)@, pinned@, copies),
        ok ==> old(ctx).regs <= final(ctx).regs,
        ok ==> extends(old(ops)@, final(ops)@),
        ok ==> at_end(*final(byte_offset), base, final(ops)@),
        ok ==> final(op_locs)@ == old(op_locs)@.push(loc),
        ok ==> final(ops)@.len() == old(ops)@.len() + 1,
        ok ==> final(ops)@.drop_last() == old(ops)@ && crate::lower::lowers(
            body.instructions@[iid.0 as int],
            *old(ctx),
            final(ops)@.last(),
        ),
        ok ==> final(ctx).inst_to_reg@ == old(ctx).inst_to_reg@.update(iid.0 as int, op_dst(final(ops)@.last())),
        ok ==> final(ctx).local_to_reg == old(ctx).local_to_reg && final(ctx).regs == if crate::lower::takes_reg(
            body.instructions@[iid.0 as int],
        ) {
            regs_after_alloc(*old(ctx))
        } else {
            old(ctx).regs
        },
        ok ==> freed_after(
            *body,
            last_use@,
            cross@,
            iid,
            pinned@,
            *final(ctx),
            if crate::lower::takes_reg(body.instructions@[iid.0 as int]) {
                free_after_alloc(*old(ctx))
            } else {
                old(ctx).free@
            },
        ),
        (lowerable(body.instructions@[iid.0 as int], *old(ctx), n_locals) && !operands(
            body.instructions@[iid.0 as int],
        ).contains(iid) && (forall|op: Op|
            crate::lower::lowers(body.instructions@[iid.0 as int], *old(ctx), op) ==> *old(byte_offset) + op_size(op)
                <= usize::MAX)) ==> ok,
{
    let n = body.blocks.len();
    let ni = body.instructions.len();
    let inst = &body.instructions[iid.0 as usize];
    proof {
        assert(forall|j: int| 0 <= j < successors(*inst).len() ==> (#[trigger] successors(*inst)[j]).0 < n);
        assert(forall|j: int| 0 <= j < operands(*inst).len() ==> (#[trigger] operands(*inst)[j]).0 < ni);
    }
    if matches!(inst, Inst::GetLocal(_) | Inst::Phi(_)) {
        return false;
    }
    let us = crate::ir::uses(inst);
    let mut j: usize = 0;
    while j < us.len()
        invariant
            emit_state(*body, n_locals, *ctx, ops@, pinned@, copies),
            ni == body.instructions@.len(),
            cross@.len() == ni,
            last_use@.len() == ni,
            ops@ == old(ops)@,
            op_locs@ == old(op_locs)@,
            at_end(*byte_offset, base, ops@),
            forall|x: InstId| us@.contains(x) <==> operands(*inst).contains(x),
            *inst == body.instructions@[iid.0 as int],
            forall|jj: int| 0 <= jj < operands(*inst).len() ==> (#[trigger] operands(*inst)[jj]).0 < ni,
            forall|jj: int| 0 <= jj < j ==> ctx.has_reg(#[trigger] us@[jj]),
            *ctx == *old(ctx),
        decreases us@.len() - j,
    {
        let u = us[j];
        proof {
            assert(us@.contains(u));
            let kk = choose|kk: int| 0 <= kk < operands(*inst).len() && operands(*inst)[kk] == u;
        }
        if ctx.inst_to_reg[u.0 as usize].is_none() {
            return false;
        }
        j += 1;
    }
    proof {
        assert forall|jj: int| 0 <= jj < operands(*inst).len() implies ctx.has_reg(#[trigger] operands(*inst)[jj]) by {
            assert(operands(*inst).contains(operands(*inst)[jj]));
            assert(us@.contains(operands(*inst)[jj]));
            let q = choose|q: int| 0 <= q < us@.len() && us@[q] == operands(*inst)[jj];
        }
    }
    if let Inst::SetLocal(l, _) = inst {
        if l.0 >= n_locals {
            return false;
        }
    }
    if let Inst::Insert { dict, .. } = inst {
        if dict.0 as usize >= ni || ctx.inst_to_reg[dict.0 as usize].is_none() {
            return false;
        }
    }
    if !(ctx.free.len() > 0 || ctx.regs < u32::MAX) {
        return false;
    }
    let ghost c0 = *ctx;
    let op = Op::from_inst(inst, ctx);
    proof {
        lemma_lowered_below(*inst, c0, op, n as nat);
        lemma_lowered_regs(*inst, c0, op, *ctx);
        lemma_ops_regs_grow(ops@, c0.regs as nat, ctx.regs as nat);
        if crate::lower::takes_reg(*inst) {
            lemma_alloc_ok(c0, *ctx);
        }
        lemma_dst_first(op);
        if op_dst(op) is Some {
            assert(field_regs_below(op_operands(op)[0], ctx.regs as nat));
        }
    }
    ctx.inst_to_reg.set(iid.0 as usize, op.reg());
    let ghost c1 = *ctx;
    proof {
        assert(c1.free@.take(c1.free@.len() as int) =~= c1.free@);
    }
    let mut j: usize = 0;
    while j < us.len()
        invariant
            ctx.inst_to_reg == c1.inst_to_reg,
            ctx.local_to_reg == c1.local_to_reg,
            ctx.regs == c1.regs,
            freed_after(*body, last_use@, cross@, iid, pinned@, *ctx, c1.free@),
            c1.inst_to_reg@ == old(ctx).inst_to_reg@.update(iid.0 as int, op_dst(op)),
            c1.inst_to_reg@.len() == ni,
            iid.0 < ni,
            forall|x: InstId| operands(*inst).contains(x) && x != iid && old(ctx).has_reg(x) ==> ctx.has_reg(x),
            emit_state(*body, n_locals, *ctx, ops@, pinned@, copies),
            ni == body.instructions@.len(),
            cross@.len() == ni,
            last_use@.len() == ni,
            ops@ == old(ops)@,
            op_locs@ == old(op_locs)@,
            at_end(*byte_offset, base, ops@),
            forall|x: InstId| us@.contains(x) <==> operands(*inst).contains(x),
            *inst == body.instructions@[iid.0 as int],
            forall|jj: int| 0 <= jj < operands(*inst).len() ==> (#[trigger] operands(*inst)[jj]).0 < ni,
            c0.regs <= ctx.regs,
            regs_below(op, ctx.regs as nat),
            targets_below(op, n as nat),
        decreases us@.len() - j,
    {
        let u = us[j];
        proof {
            assert(us@.contains(u));
            let kk = choose|kk: int| 0 <= kk < operands(*inst).len() && operands(*inst)[kk] == u;
        }
        let reg = match ctx.inst_to_reg[u.0 as usize] {
            Some(r) => r,
            None => {
                proof {
                    assert(operands(*inst).contains(u));
                }
                return false;
            },
        };
        proof {
            assert(ctx.inst_to_reg@[u.0 as int] matches Some(r) ==> r.0 < ctx.regs);
        }
        let ghost f0 = ctx.free@;
        let ghost cx = *ctx;
        if clean_is_safe(body, last_use, cross, iid, u) && !is_pinned(pinned, reg) {
            ctx.free.push(reg);
            proof {
                assert(operands(*inst).contains(u));
                assert(ctx.free@.take(c1.free@.len() as int) =~= f0.take(c1.free@.len() as int));
                assert forall|k: int| c1.free@.len() <= k < ctx.free@.len() implies frees(
                    *body,
                    last_use@,
                    cross@,
                    iid,
                    pinned@,
                    ctx.inst_to_reg@,
                    #[trigger] ctx.free@[k],
                ) by {
                    if k < f0.len() {
                        assert(ctx.free@[k] == f0[k]);
                        assert(cx.free@[k] == f0[k]);
                    } else {
                        assert(ctx.free@[k] == reg);
                        assert(reusable(*body, last_use@, cross@, iid, u, pinned@, ctx.inst_to_reg@[u.0 as int]->0));
                    }
                }
                assert(cx.free@.take(c1.free@.len() as int) == c1.free@);
                assert(ctx.free@.take(c1.free@.len() as int) == c1.free@);
                assert(ctx.free@.len() >= c1.free@.len());
                assert(freed_after(*body, last_use@, cross@, iid, pinned@, *ctx, c1.free@));
            }
        }
        j += 1;
    }
    if !emit(ops, op_locs, byte_offset, op, loc, Ghost(base)) {
        return false;
    }
    proof {
        assert(ops@.take(old(ops)@.len() as int) =~= old(ops)@);
    }
    true
}

/// A copy of a list of phi copies.
fn copy_pairs(v: &Vec<(Reg, InstId)>) -> (r: Vec<(Reg, InstId)>)
    ensures
        r@ == v@,
{
    let mut r: Vec<(Reg, InstId)> = Vec::new();
    let mut i: usize = 0;
    while i < v.len()
        invariant
            i <= v@.len(),
            r@ == v@.take(i as int),
        decreases v@.len() - i,
    {
        r.push(v[i]);
        i += 1;
        assert(r@ =~= v@.take(i as int));
    }
    assert(v@.take(i as int) =~= v@);
    r
}

/// Emits the ops of instruction `iid` of block `bid`: its copies, its fusions, and the op it
/// lowers to. `false` where compiling cannot go on.
fn emit_inst(
    body: &Body,
    iid: InstId,
    bid: BlockId,
    n_locals: u32,
    ctx: &mut crate::lower::Ctx,
    ops: &mut Vec<Op>,
    op_locs: &mut Vec<Location>,
    byte_offset: &mut usize,
    pinned: &Vec<(crate::constant::CachedConstant, Reg)>,
    copies: &Vec<Vec<(Reg, InstId)>>,
    absorbed: &Vec<bool>,
    cross: &Vec<bool>,
    last_use: &Vec<Option<InstId>>,
    ft: &Vec<Option<BlockId>>,
    start: usize,
    Ghost(base): Ghost<int>,
) -> (ok: bool)
    requires
        emit_state(*body, n_locals, *old(ctx), old(ops)@, pinned@, copies@),
        start <= old(ops)@.len(),
        at_end(*old(byte_offset), base, old(ops)@),
        iid.0 < body.instructions@.len(),
        bid.0 < body.blocks@.len(),
        absorbed@.len() == body.instructions@.len(),
        cross@.len() == body.instructions@.len(),
        last_use@.len() == body.instructions@.len(),
        ft@.len() == body.blocks@.len(),
        old(op_locs)@.len() == old(ops)@.len(),
    ensures
        ok ==> emit_state(*body, n_locals, *final(ctx), final(ops)@, pinned@, copies@),
        ok ==> old(ctx).regs <= final(ctx).regs,
        ok ==> kept_before(old(ops)@, final(ops)@, start as int),
        ok ==> at_end(*final(byte_offset), base, final(ops)@),
        ok ==> final(op_locs)@.len() == final(ops)@.len(),
        ok ==> tagged(old(op_locs)@, final(op_locs)@, body.locs@[iid.0 as int]),
        body.instructions@[iid.0 as int] is Phi ==> ok && *final(ctx) == *old(ctx) && final(ops)@ == old(ops)@,
        body.instructions@[iid.0 as int] matches Inst::GetLocal(l) ==> (ok <==> l.0 < n_locals) && final(ops)@
            == old(ops)@ && (ok ==> final(ctx).inst_to_reg@ == old(ctx).inst_to_reg@.update(
            iid.0 as int,
            Some(Reg(l.0)),
        )),
        body.instructions@[iid.0 as int] is Constant && absorbed@[iid.0 as int] ==> ok && *final(ctx) == *old(ctx)
            && final(ops)@ == old(ops)@,
        pinned_hit(body.instructions@[iid.0 as int], absorbed@[iid.0 as int], pinned@) matches Some(r) ==> ok
            && final(ops)@ == old(ops)@ && final(ctx).inst_to_reg@ == old(ctx).inst_to_reg@.update(iid.0 as int, Some(r)),
        lowered_directly(*body, iid, absorbed@[iid.0 as int], pinned@) ==> (ok ==> final(ops)@.drop_last() == old(ops)@
            && crate::lower::lowers(body.instructions@[iid.0 as int], *old(ctx), final(ops)@.last())
            && final(ctx).inst_to_reg@ == old(ctx).inst_to_reg@.update(iid.0 as int, op_dst(final(ops)@.last()))),
        lowered_directly(*body, iid, absorbed@[iid.0 as int], pinned@) && lowerable(
            body.instructions@[iid.0 as int],
            *old(ctx),
            n_locals,
        ) && !operands(body.instructions@[iid.0 as int]).contains(iid) && (forall|op: Op|
            crate::lower::lowers(body.instructions@[iid.0 as int], *old(ctx), op) ==> *old(byte_offset) + op_size(op)
                <= usize::MAX) ==> ok,
{
    let n = body.blocks.len();
    let ni = body.instructions.len();
    let inst = &body.instructions[iid.0 as usize];
    let loc = body.locs[iid.0 as usize];
    proof {
        assert(old(op_locs)@.take(old(op_locs)@.len() as int) =~= old(op_locs)@);
    }
    let ghost succ = successors(*inst);
    proof {
        assert(forall|j: int| 0 <= j < succ.len() ==> (#[trigger] succ[j]).0 < n);
        assert(forall|j: int| 0 <= j < operands(*inst).len() ==> (#[trigger] operands(*inst)[j]).0 < ni);
    }
    match inst {
        Inst::Phi(_) => {
            return true;
        },
        Inst::GetLocal(l) => {
            if l.0 >= n_locals {
                return false;
            }
            let r = ctx.local_to_reg[l.0 as usize];
            ctx.inst_to_reg.set(iid.0 as usize, Some(r));
            return true;
        },
        Inst::SetLocal(l, v) => {
            assert(operands(*inst)[0] == *v);
            if l.0 >= n_locals {
                return false;
            }
            let dst = ctx.local_to_reg[l.0 as usize];
            let src = match ctx.inst_to_reg[v.0 as usize] {
                Some(r) => r,
                None => return false,
            };
            let last_reg = match ops.last() {
                Some(op) => op.reg(),
                None => None,
            };
            if clean_is_safe(body, last_use, cross, iid, *v) && !is_pinned(pinned, src)
                && last_reg == Some(src) && ops.len() > start {
                proof {
                    assert(ctx.inst_to_reg@[v.0 as int] matches Some(r) ==> r.0 < ctx.regs);
                }
                retarget_last(ops, dst, Ghost(n as nat), Ghost(ctx.regs as nat), Ghost(start as int));
                ctx.inst_to_reg.set(v.0 as usize, Some(dst));
                ctx.free.push(src);
                return true;
            }
        },
        Inst::JumpIfFalse { condition, target } => {
            assert(operands(*inst)[0] == *condition);
            assert(succ[0] == *target);
            let con_reg = match ctx.inst_to_reg[condition.0 as usize] {
                Some(r) => r,
                None => return false,
            };
            let fuse = ops.len() > start && match ops.last() {
                Some(op) => op.reg() == Some(con_reg) && op.is_comparison(),
                None => false,
            };
            if clean_is_safe(body, last_use, cross, iid, *condition) && fuse {
                return fuse_last(ops, op_locs, *target, byte_offset, Ghost(n as nat), Ghost(ctx.regs as nat), Ghost(start as int), Ghost(base));
            }
        },
        Inst::Jump { target } => {
            assert(succ[0] == *target);
            if !emit_copies(body, n_locals, &copies[bid.0 as usize], ctx, ops, op_locs, byte_offset, loc, Ghost(pinned@), Ghost(copies@), Ghost(base)) {
                return false;
            }
            proof {
                lemma_extends_kept(old(ops)@, ops@, start as int);
            }
            if ft[bid.0 as usize] == Some(*target) {
                return true;
            }
        },
        Inst::Constant(con) => {
            if absorbed[iid.0 as usize] {
                return true;
            }
            if let Some(c) = con.cached() {
                if let Some(r) = pinned_reg(pinned, c) {
                    ctx.inst_to_reg.set(iid.0 as usize, Some(r));
                    return true;
                }
            }
        },
        _ => {},
    }
    proof {
        if let Inst::BinOp { left, right, .. } = *inst {
            assert(operands(*inst)[0] == left && operands(*inst)[1] == right);
        }
    }
    let ghost mid = ops@;
    proof {
        assert(kept_before(old(ops)@, mid, start as int));
    }
    if let Some(imm) = crate::lower::imm_binop(body, inst) {
        let ghost locs_mid = op_locs@;
        let ok = emit_imm(body, n_locals, iid, imm, ctx, ops, op_locs, byte_offset, loc, pinned, Ghost(copies@), cross, last_use, Ghost(base));
        proof {
            if ok {
                lemma_kept_chain(old(ops)@, mid, ops@, start as int);
                lemma_tagged_push(old(op_locs)@, locs_mid, loc);
            }
        }
        return ok;
    }
    let ghost locs_mid = op_locs@;
    let ok = emit_lowered(body, n_locals, iid, ctx, ops, op_locs, byte_offset, loc, pinned, Ghost(copies@), cross, last_use, Ghost(base));
    proof {
        if ok {
            lemma_kept_chain(old(ops)@, mid, ops@, start as int);
            lemma_tagged_push(old(op_locs)@, locs_mid, loc);
        }
    }
    ok
}

/// Compiles a cleaned body with `n_locals` locals into ops whose code starts at byte
/// `chunk_offset`. `None` where compiling cannot go on: an instruction reads a value that has no
/// register yet, a local out of range, or more registers or bytes than fit.
pub fn compile_body(body: &mut Body, n_locals: u32, chunk_offset: usize) -> (r: Option<Chunk>)
    requires
        body_wf(*old(body)),
        crate::clean::placed_once(*old(body)),
    ensures
        body_wf(*final(body)),
        crate::clean::placed_once(*final(body)),
        final(body).params == old(body).params,
        final(body).captures == old(body).captures,
        r matches Some(c) ==> forall|k: int| 0 <= k < c.ops@.len() ==> targets_resolved(#[trigger] c.ops@[k]),
        r matches Some(c) ==> ops_regs_below(c.ops@, c.regs as nat),
        r matches Some(c) ==> jumps_land(c.ops@, chunk_offset as int, *final(body)),
        r matches Some(c) ==> c.offset == chunk_offset,
        r matches Some(c) ==> c.args == old(body).params@.len() && c.regs >= n_locals,
        r matches Some(c) ==> c.params@ == old(body).params@.map_values(|l: Local| Reg(l.0)),
        r matches Some(c) ==> c.captures@ == old(body).captures@.map_values(|l: Local| Reg(l.0)),
        (exists|i: int| 0 <= i < old(body).params@.len() && old(body).params@[i].0 >= n_locals) ==> r is None,
        r matches Some(c) ==> located(c, *final(body)),
        r matches Some(c) ==> names_locals(c.locals@, old(body).artifacts@),
        (exists|i: int| 0 <= i < old(body).artifacts@.len() && old(body).artifacts@[i].0.0 >= n_locals) ==> r is None,
{
    crate::clean::clean(body);
    emit_body(body, n_locals, chunk_offset)
}

/// Emits the ops of a cleaned body: [`compile_body`] after its clean-up.
fn emit_body(body: &Body, n_locals: u32, chunk_offset: usize) -> (r: Option<Chunk>)
    requires
        body_wf(*body),
        crate::clean::placed_once(*body),
    ensures
        r matches Some(c) ==> forall|k: int| 0 <= k < c.ops@.len() ==> targets_resolved(#[trigger] c.ops@[k]),
        r matches Some(c) ==> ops_regs_below(c.ops@, c.regs as nat),
        r matches Some(c) ==> jumps_land(c.ops@, chunk_offset as int, *body),
        r matches Some(c) ==> c.offset == chunk_offset,
        r matches Some(c) ==> c.args == body.params@.len() && c.regs >= n_locals,
        r matches Some(c) ==> c.params@ == body.params@.map_values(|l: Local| Reg(l.0)),
        r matches Some(c) ==> c.captures@ == body.captures@.map_values(|l: Local| Reg(l.0)),
        (exists|i: int| 0 <= i < body.params@.len() && body.params@[i].0 >= n_locals) ==> r is None,
        r matches Some(c) ==> located(c, *body),
        r matches Some(c) ==> names_locals(c.locals@, body.artifacts@),
        (exists|i: int| 0 <= i < body.artifacts@.len() && body.artifacts@[i].0.0 >= n_locals) ==> r is None,
{
    let n = body.blocks.len();
    let ni = body.instructions.len();
    let cross = crate::clean::cross_block_iids(body);
    let mut ctx = crate::lower::Ctx {
        inst_to_reg: Vec::new(),
        local_to_reg: Vec::new(),
        regs: 0,
        free: Vec::new(),
    };
    while ctx.local_to_reg.len() < n_locals as usize
        invariant
            ctx.local_to_reg@.len() <= n_locals,
            ctx.regs == ctx.local_to_reg@.len(),
            forall|i: int| 0 <= i < ctx.local_to_reg@.len() ==> ctx.local_to_reg@[i] == Reg(i as u32),
            ctx.inst_to_reg@.len() == 0,
            ctx.free@.len() == 0,
        decreases n_locals - ctx.local_to_reg@.len(),
    {
        let r = ctx.regs;
        ctx.local_to_reg.push(Reg(r));
        ctx.regs = r + 1;
    }
    while ctx.inst_to_reg.len() < ni
        invariant
            ctx.inst_to_reg@.len() <= ni,
            ctx_ready(ctx, n_locals),
        decreases ni - ctx.inst_to_reg@.len(),
    {
        ctx.inst_to_reg.push(None);
    }
    // phis: a register each, and a copy into it at the end of each predecessor
    let mut copies: Vec<Vec<(Reg, InstId)>> = Vec::new();
    while copies.len() < n
        invariant
            copies@.len() <= n,
            forall|p: int| 0 <= p < copies@.len() ==> (#[trigger] copies@[p])@.len() == 0,
        decreases n - copies@.len(),
    {
        copies.push(Vec::new());
    }
    let mut bi: usize = 0;
    while bi < n
        invariant
            body_wf(*body),
            n == body.blocks@.len(),
            ni == body.instructions@.len(),
            ctx.inst_to_reg@.len() == ni,
            ctx_ready(ctx, n_locals),
            copies_ok(copies@, ctx.regs),
            copies@.len() == n,
        decreases n - bi,
    {
        let s = &body.blocks[bi].stream;
        let mut k: usize = 0;
        while k < s.len()
            invariant
                body_wf(*body),
                n == body.blocks@.len(),
                ni == body.instructions@.len(),
                ctx.inst_to_reg@.len() == ni,
                ctx_ready(ctx, n_locals),
                copies_ok(copies@, ctx.regs),
                copies@.len() == n,
                bi < n,
                *s == body.blocks@[bi as int].stream,
            decreases s@.len() - k,
        {
            let iid = s[k];
            if let Inst::Phi(branches) = &body.instructions[iid.0 as usize] {
                if !(ctx.free.len() > 0 || ctx.regs < u32::MAX) {
                    return None;
                }
                let ghost c0 = ctx;
                let dst = ctx.reg();
                proof {
                    lemma_alloc_ok(c0, ctx);
                }
                ctx.inst_to_reg.set(iid.0 as usize, Some(dst));
                let mut j: usize = 0;
                while j < branches.len()
                    invariant
                        copies@.len() == n,
                        copies_ok(copies@, ctx.regs),
                        dst.0 < ctx.regs,
                    decreases branches@.len() - j,
                {
                    let (pred, value) = branches[j];
                    if (pred.0 as usize) < n {
                        let mut c = copy_pairs(&copies[pred.0 as usize]);
                        let ghost before = c@;
                        assert(forall|q: int| 0 <= q < before.len() ==> (#[trigger] before[q]).0.0 < ctx.regs) by {
                            assert forall|q: int| 0 <= q < before.len() implies (#[trigger] before[q]).0.0 < ctx.regs by {
                                assert(copies@[pred.0 as int]@[q].0.0 < ctx.regs);
                            }
                        }
                        c.push((dst, value));
                        copies.set(pred.0 as usize, c);
                        proof {
                            assert forall|p: int, q: int| 0 <= p < copies@.len() && 0 <= q < copies@[p]@.len()
                                implies (#[trigger] copies@[p]@[q]).0.0 < ctx.regs by {
                                if p == pred.0 as int && q < before.len() {
                                    assert(copies@[p]@[q] == before[q]);
                                }
                            }
                        }
                    }
                    j += 1;
                }
            }
            k += 1;
        }
        bi += 1;
    }
    let absorbed = absorbed_constants(body);
    // pin up to twelve distinct cacheable constants to registers loaded once in the prologue
    let mut pinned: Vec<(crate::constant::CachedConstant, Reg)> = Vec::new();
    let mut bi: usize = 0;
    let mut full = false;
    while bi < n && !full
        invariant
            body_wf(*body),
            n == body.blocks@.len(),
            ni == body.instructions@.len(),
            ctx.inst_to_reg@.len() == ni,
            ctx_ready(ctx, n_locals),
            pinned_ok(pinned@, ctx.regs),
            copies_ok(copies@, ctx.regs),
            copies@.len() == n,
            absorbed@.len() == ni,
        decreases n - bi,
    {
        let s = &body.blocks[bi].stream;
        let mut k: usize = 0;
        while k < s.len() && !full
            invariant
                body_wf(*body),
                n == body.blocks@.len(),
                ni == body.instructions@.len(),
                ctx.inst_to_reg@.len() == ni,
                ctx_ready(ctx, n_locals),
                pinned_ok(pinned@, ctx.regs),
                copies_ok(copies@, ctx.regs),
                copies@.len() == n,
                absorbed@.len() == ni,
                bi < n,
                *s == body.blocks@[bi as int].stream,
            decreases s@.len() - k,
        {
            let iid = s[k];
            if let Inst::Constant(con) = &body.instructions[iid.0 as usize] {
                if let Some(c) = con.cached() {
                    if !absorbed[iid.0 as usize] {
                        if pinned_reg(&pinned, c).is_none() {
                            if !(ctx.free.len() > 0 || ctx.regs < u32::MAX) {
                                return None;
                            }
                            let ghost c0 = ctx;
                            let r = ctx.reg();
                            proof {
                                lemma_alloc_ok(c0, ctx);
                            }
                            pinned.push((c, r));
                        }
                        if pinned.len() >= 12 {
                            full = true;
                        }
                    }
                }
            }
            k += 1;
        }
        bi += 1;
    }
    let order = block_order(body);
    let ft = fallthroughs(body, &order);
    let mut block_offset: Vec<usize> = Vec::new();
    while block_offset.len() < n
        invariant
            block_offset@.len() <= n,
        decreases n - block_offset@.len(),
    {
        block_offset.push(0);
    }
    let mut byte_offset: usize = chunk_offset;
    let mut ops: Vec<Op> = Vec::new();
    let mut op_locs: Vec<Location> = Vec::new();
    let ghost base = chunk_offset as int;
    let ghost mut starts: Seq<int> = Seq::new(n as nat, |i: int| 0int);
    let mut oi: usize = 0;
    while oi < order.len()
        invariant
            at_end(byte_offset, base, ops@),
            base == chunk_offset as int,
            starts.len() == n,
            oi <= order@.len(),
            order@.no_duplicates(),
            order@[0] == BlockId(0),
            forall|kk: int| 0 <= kk < oi ==> {
                let b = (#[trigger] order@[kk]).0 as int;
                &&& 0 <= starts[b] <= ops@.len()
                &&& block_offset@[b] == base + code_len(ops@.take(starts[b]))
            },
            oi > 0 ==> starts[0] == 0,
            oi == 0 ==> ops@.len() == 0,
            body_wf(*body),
            n == body.blocks@.len(),
            ni == body.instructions@.len(),
            ctx.inst_to_reg@.len() == ni,
            ctx_ready(ctx, n_locals),
            pinned_ok(pinned@, ctx.regs),
            copies_ok(copies@, ctx.regs),
            ops_regs_below(ops@, ctx.regs as nat),
            absorbed@.len() == ni,
            cross@.len() == ni,
            copies@.len() == n,
            ft@.len() == n,
            block_offset@.len() == n,
            forall|kk: int| 0 <= kk < order@.len() ==> (#[trigger] order@[kk]).0 < n,
            ops_below(ops@, n as nat),
            op_locs@.len() == ops@.len(),
            locs_from(op_locs@, *body),
        decreases order@.len() - oi,
    {
        let bid = order[oi];
        let last_use = crate::clean::last_uses(body, bid);
        ctx.free = Vec::new();
        let start = ops.len();
        let ghost frozen = ops@;
        let ghost starts0 = starts;
        block_offset.set(bid.0 as usize, byte_offset);
        proof {
            if oi > 0 {
                assert(order@[0] != order@[oi as int]);
            }
            starts = starts.update(bid.0 as int, start as int);
            assert(frozen.take(start as int) =~= frozen);
            assert forall|kk: int| 0 <= kk < oi implies (#[trigger] order@[kk]).0 != bid.0 by {
                assert(order@[kk] != order@[oi as int]);
            }
        }
        if bid.0 == 0 {
            let mut p: usize = 0;
            while p < pinned.len()
                invariant
                    ops_below(ops@, n as nat),
                    ops_regs_below(ops@, ctx.regs as nat),
                    pinned_ok(pinned@, ctx.regs),
                    at_end(byte_offset, base, ops@),
                    extends(frozen, ops@),
                    op_locs@.len() == ops@.len(),
                    locs_from(op_locs@, *body),
                decreases pinned@.len() - p,
            {
                let op = Op::LoadConst { dst: pinned[p].1, constant: pinned[p].0.to_constant() };
                proof {
                    assert(pinned@[p as int].1.0 < ctx.regs);
                    assert(no_targets(op));
                }
                let ghost before = ops@;
                let ghost locs_before = op_locs@;
                if !emit(&mut ops, &mut op_locs, &mut byte_offset, op, Location::synthetic(), Ghost(base)) {
                    return None;
                }
                proof {
                    lemma_locs_from_push(locs_before, *body, Location::synthetic());
                }
                proof {
                    assert(ops@.take(frozen.len() as int) =~= before.take(frozen.len() as int));
                }
                p += 1;
            }
        }
        proof {
            lemma_extends_kept(frozen, ops@, start as int);
        }
        let s = &body.blocks[bid.0 as usize].stream;
        let mut k: usize = 0;
        while k < s.len()
            invariant
                body_wf(*body),
                n == body.blocks@.len(),
                ni == body.instructions@.len(),
                ctx.inst_to_reg@.len() == ni,
                ctx_ready(ctx, n_locals),
                pinned_ok(pinned@, ctx.regs),
                copies_ok(copies@, ctx.regs),
                ops_regs_below(ops@, ctx.regs as nat),
                absorbed@.len() == ni,
                cross@.len() == ni,
                last_use@.len() == ni,
                copies@.len() == n,
                ft@.len() == n,
                block_offset@.len() == n,
                bid.0 < n,
                *s == body.blocks@[bid.0 as int].stream,
                ops_below(ops@, n as nat),
                at_end(byte_offset, base, ops@),
                kept_before(frozen, ops@, start as int),
                start == frozen.len(),
                op_locs@.len() == ops@.len(),
                locs_from(op_locs@, *body),
            decreases s@.len() - k,
        {
            let iid = s[k];
            k += 1;
            let ghost before = ops@;
            let ghost locs_before = op_locs@;
            if !emit_inst(body, iid, bid, n_locals, &mut ctx, &mut ops, &mut op_locs, &mut byte_offset, &pinned, &copies, &absorbed, &cross, &last_use, &ft, start, Ghost(base)) {
                return None;
            }
            proof {
                lemma_locs_from_tagged(locs_before, op_locs@, *body, iid.0 as int);
            }
        }
        proof {
            assert forall|kk: int| 0 <= kk < oi + 1 implies {
                let b = (#[trigger] order@[kk]).0 as int;
                &&& 0 <= starts[b] <= ops@.len()
                &&& block_offset@[b] == base + code_len(ops@.take(starts[b]))
            } by {
                let b = order@[kk].0 as int;
                if kk < oi {
                    assert(b != bid.0 as int);
                    assert(starts[b] == starts0[b]);
                    assert(ops@.take(starts[b]) =~= frozen.take(starts[b])) by {
                        assert(ops@.take(starts[b]) =~= ops@.take(start as int).take(starts[b]));
                        assert(frozen.take(starts[b]) =~= frozen.take(start as int).take(starts[b]));
                    }
                } else {
                    assert(ops@.take(start as int) =~= frozen);
                }
            }
        }
        oi += 1;
    }
    // resolve every block target to the byte offset its block starts at
    let mut out: Vec<Op> = Vec::new();
    let mut ops = ops;
    let ghost all = ops@;
    proof {
        assert(all.skip(0) =~= all);
    }
    while ops.len() > 0
        invariant
            block_offset@.len() == n,
            ops_below(ops@, n as nat),
            ops_regs_below(ops@, ctx.regs as nat),
            forall|kk: int| 0 <= kk < out@.len() ==> targets_resolved(#[trigger] out@[kk]),
            ops_regs_below(out@, ctx.regs as nat),
            out@.len() + ops@.len() == all.len(),
            ops@ == all.skip(out@.len() as int),
            forall|kk: int| 0 <= kk < out@.len() ==> op_code(#[trigger] out@[kk]) == op_code(all[kk])
                && op_operands(out@[kk]) == op_operands(all[kk]).map_values(|f: WireField| resolved_field(f, block_offset@)),
        decreases ops@.len(),
    {
        let ghost done = out@.len();
        proof {
            assert(ops@[0] == all[done as int]);
        }
        let op = ops.remove(0);
        proof {
            assert(ops@ =~= all.skip(done as int + 1));
        }
        assert(targets_below(op, n as nat));
        assert(regs_below(op, ctx.regs as nat));
        let r = resolve_targets(op, &block_offset);
        proof {
            assert forall|j: int| 0 <= j < op_operands(r).len() implies field_regs_below(#[trigger] op_operands(r)[j], ctx.regs as nat) by {
                assert(field_regs_below(op_operands(op)[j], ctx.regs as nat));
            }
        }
        out.push(r);
        proof {
            assert forall|kk: int| 0 <= kk < ops@.len() implies targets_below(#[trigger] ops@[kk], n as nat) by {}
            assert forall|kk: int| 0 <= kk < ops@.len() implies regs_below(#[trigger] ops@[kk], ctx.regs as nat) by {}
        }
    }
    proof {
        assert(out@.len() == all.len());
        assert forall|k: int| 0 <= k < all.len() implies op_size(#[trigger] out@[k]) == op_size(all[k]) by {
            lemma_fields_size_resolved(op_operands(all[k]), block_offset@);
        }
        assert forall|c: int| 0 <= c < n && laid_reachable(*body, c) implies exists|i: int|
            0 <= i <= out@.len() && block_offset@[c] == base + code_len(#[trigger] out@.take(i)) by {
            assert(order@.contains(BlockId(c as u32)));
            let kk = choose|kk: int| 0 <= kk < order@.len() && order@[kk] == BlockId(c as u32);
            assert(order@[kk].0 as int == c);
            let i = starts[c];
            assert(forall|k: int| 0 <= k < i ==> op_size(#[trigger] out@.take(i)[k]) == op_size(all.take(i)[k])) by {
                assert forall|k: int| 0 <= k < i implies op_size(#[trigger] out@.take(i)[k]) == op_size(all.take(i)[k]) by {
                    assert(out@.take(i)[k] == out@[k] && all.take(i)[k] == all[k]);
                }
            }
            lemma_code_len_sizes(out@.take(i), all.take(i));
        }
        assert(order@[0].0 as int == 0);
        assert(block_offset@[0] == base + code_len(all.take(0)));
        assert(all.take(0) =~= Seq::<Op>::empty());
        assert(lays_out(out@, all, block_offset@, base, *body));
    }
    let mut params: Vec<Reg> = Vec::new();
    let mut p: usize = 0;
    while p < body.params.len()
        invariant
            ctx_ready(ctx, n_locals),
            p <= body.params@.len(),
            params@.len() == p,
            forall|j: int| 0 <= j < p ==> params@[j] == Reg(body.params@[j].0) && body.params@[j].0 < n_locals,
        decreases body.params@.len() - p,
    {
        let l = body.params[p];
        if l.0 >= n_locals {
            return None;
        }
        params.push(ctx.local_to_reg[l.0 as usize]);
        p += 1;
    }
    assert forall|i: int| 0 <= i < body.params@.len() implies body.params@[i].0 < n_locals by {
        assert(params@[i] == Reg(body.params@[i].0));
    }
    let mut captures: Vec<Reg> = Vec::new();
    let mut p: usize = 0;
    while p < body.captures.len()
        invariant
            ctx_ready(ctx, n_locals),
            p <= body.captures@.len(),
            captures@.len() == p,
            forall|j: int| 0 <= j < p ==> captures@[j] == Reg(body.captures@[j].0) && body.captures@[j].0 < n_locals,
        decreases body.captures@.len() - p,
    {
        let l = body.captures[p];
        if l.0 >= n_locals {
            return None;
        }
        captures.push(ctx.local_to_reg[l.0 as usize]);
        p += 1;
    }
    let mut locals: Vec<(String, Reg)> = Vec::new();
    let mut p: usize = 0;
    while p < body.artifacts.len()
        invariant
            ctx_ready(ctx, n_locals),
            p <= body.artifacts@.len(),
            locals@.len() == p,
            forall|j: int| 0 <= j < p ==> (#[trigger] locals@[j]).0 == body.artifacts@[j].1 && locals@[j].1 == Reg(
                body.artifacts@[j].0.0,
            ) && body.artifacts@[j].0.0 < n_locals,
        decreases body.artifacts@.len() - p,
    {
        let l = body.artifacts[p].0;
        if l.0 >= n_locals {
            return None;
        }
        let name = body.artifacts[p].1.clone();
        locals.push((name, ctx.local_to_reg[l.0 as usize]));
        p += 1;
    }
    assert forall|i: int| 0 <= i < body.artifacts@.len() implies body.artifacts@[i].0.0 < n_locals by {
        assert(locals@[i].1 == Reg(body.artifacts@[i].0.0));
    }
    if body.params.len() > u16::MAX as usize || ctx.regs > u16::MAX as u32 {
        return None;
    }
    assert(params@ =~= body.params@.map_values(|l: Local| Reg(l.0)));
    assert(captures@ =~= body.captures@.map_values(|l: Local| Reg(l.0)));
    let locs = match crate::locs::loc_table_of(&out, &op_locs) {
        Some(t) => t,
        None => return None,
    };
    proof {
        crate::locs::lemma_loc_table_shape(out@, op_locs@);
    }
    let compiled = Chunk {
        ops: out,
        offset: chunk_offset,
        args: body.params.len() as u16,
        regs: ctx.regs as u16,
        params,
        captures,
        locals,
        locs,
    };
    assert(crate::locs::loc_table(compiled.ops@, op_locs@) == compiled.locs@);
    assert(lays_out(compiled.ops@, all, block_offset@, chunk_offset as int, *body));
    assert(jumps_land(compiled.ops@, chunk_offset as int, *body));
    Some(compiled)
}


/// A compiled program: each body's chunk (where its code starts, and its frame), and the code of
/// every body, one after another. Body `0` is the entry.
#[derive(Debug)]
pub struct Program {
    pub entry: crate::ids::BodyId,
    pub chunks: Vec<Chunk>,
    pub bytes: Vec<u8>,
}

/// The bytes of a list of ops, one after another.
pub open spec fn code_bytes(ops: Seq<Op>) -> Seq<u8> {
    crate::list::flat(ops, |op: Op| crate::op::op_bytes(op))
}

/// The code of the chunks, one after another.
pub open spec fn chunks_bytes(cs: Seq<Chunk>) -> Seq<u8>
    decreases cs.len(),
{
    if cs.len() == 0 {
        Seq::empty()
    } else {
        chunks_bytes(cs.drop_last()) + code_bytes(cs.last().ops@)
    }
}

/// Whether an operand can be written (see [`crate::field::field_encodable`]).
fn field_encodable_of(f: &Field) -> (b: bool)
    ensures
        b == crate::field::field_encodable(f@),
{
    match f {
        Field::Reg(r) => r.0 <= u16::MAX as u32,
        Field::Regs(rs) => {
            let mut i: usize = 0;
            while i < rs.len()
                invariant
                    i <= rs@.len(),
                    f@ == WireField::Regs(rs@),
                    forall|k: int| 0 <= k < i ==> crate::field::reg_wf(#[trigger] rs@[k]),
                decreases rs@.len() - i,
            {
                if rs[i].0 > u16::MAX as u32 {
                    assert(!crate::field::reg_wf(rs@[i as int]));
                    assert(f@ == WireField::Regs(rs@));
                    assert(!crate::field::regs_wf(rs@));
                    return false;
                }
                i += 1;
            }
            true
        },
        Field::Jump(t) => match t {
            BlockTarget::ByteOffset(o) => *o <= u32::MAX as usize,
            BlockTarget::Block(_) => false,
        },
        Field::Parts(ps) => {
            if ps.len() > u16::MAX as usize {
                return false;
            }
            let mut i: usize = 0;
            while i < ps.len()
                invariant
                    i <= ps@.len(),
                    f@ == WireField::Parts(ps@),
                    ps@.len() <= u16::MAX,
                    forall|k: int| 0 <= k < i ==> crate::field::part_wf(#[trigger] ps@[k]),
                decreases ps@.len() - i,
            {
                if let OpFormatPart::Value(r) = ps[i] {
                    if r.0 > u16::MAX as u32 {
                        assert(!crate::field::part_wf(ps@[i as int]));
                        assert(f@ == WireField::Parts(ps@));
                        assert(!crate::field::parts_wf(ps@));
                        return false;
                    }
                }
                i += 1;
            }
            true
        },
        Field::Table(ts) => {
            if ts.len() > u16::MAX as usize {
                return false;
            }
            let mut i: usize = 0;
            while i < ts.len()
                invariant
                    i <= ts@.len(),
                    f@ == WireField::Table(ts@),
                    ts@.len() <= u16::MAX,
                    forall|k: int| 0 <= k < i ==> crate::field::target_wf(#[trigger] ts@[k]),
                decreases ts@.len() - i,
            {
                match ts[i] {
                    BlockTarget::ByteOffset(o) => {
                        if o > u32::MAX as usize {
                            assert(!crate::field::target_wf(ts@[i as int]));
                            assert(f@ == WireField::Table(ts@));
                            assert(!crate::field::targets_wf(ts@));
                            return false;
                        }
                    },
                    BlockTarget::Block(_) => {
                        assert(!crate::field::target_wf(ts@[i as int]));
                        assert(f@ == WireField::Table(ts@));
                        assert(!crate::field::targets_wf(ts@));
                        return false;
                    },
                }
                i += 1;
            }
            true
        },
        _ => true,
    }
}

/// Writes `op` after what `e` holds; `false`, with nothing written, when an operand can't be
/// written (a register past two bytes, a jump past four, a list too long for its length).
fn encode_op(op: &Op, e: &mut crate::wire::Encoder) -> (ok: bool)
    ensures
        ok == crate::op::op_encodable(*op),
        ok ==> final(e)@ == old(e)@ + crate::op::op_bytes(*op),
        !ok ==> final(e)@ == old(e)@,
{
    let fields = op.operands();
    let mut i: usize = 0;
    while i < fields.len()
        invariant
            i <= fields@.len(),
            views(fields@) == op_operands(*op),
            forall|k: int| 0 <= k < i ==> crate::field::field_encodable(#[trigger] op_operands(*op)[k]),
            e@ == old(e)@,
        decreases fields@.len() - i,
    {
        proof {
            assert(fields@[i as int]@ == op_operands(*op)[i as int]);
        }
        if !field_encodable_of(&fields[i]) {
            return false;
        }
        i += 1;
    }
    proof {
        lemma_op_shape(*op);
    }
    let dup = Op::assemble(op.discriminant(), fields);
    dup.encode(e);
    true
}

/// Writes `ops` one after another after what `e` holds; `false` when one can't be written.
fn encode_ops(ops: &Vec<Op>, e: &mut crate::wire::Encoder) -> (ok: bool)
    ensures
        ok == forall|k: int| 0 <= k < ops@.len() ==> crate::op::op_encodable(#[trigger] ops@[k]),
        ok ==> final(e)@ == old(e)@ + code_bytes(ops@),
        !ok ==> exists|k: int|
            0 <= k < ops@.len() && !crate::op::op_encodable(#[trigger] ops@[k]) && final(e)@ == old(e)@
                + code_bytes(ops@.take(k)) && forall|q: int| 0 <= q < k ==> crate::op::op_encodable(
                #[trigger] ops@[q],
            ),
{
    let mut k: usize = 0;
    while k < ops.len()
        invariant
            k <= ops@.len(),
            e@ == old(e)@ + code_bytes(ops@.take(k as int)),
            forall|q: int| 0 <= q < k ==> crate::op::op_encodable(#[trigger] ops@[q]),
        decreases ops@.len() - k,
    {
        if !encode_op(&ops[k], e) {
            return false;
        }
        proof {
            crate::list::lemma_flat_push(ops@.take(k as int), ops@[k as int], |op: Op| crate::op::op_bytes(op));
            assert(ops@.take(k + 1) =~= ops@.take(k as int).push(ops@[k as int]));
        }
        k += 1;
    }
    proof {
        assert(ops@.take(k as int) =~= ops@);
    }
    true
}

/// Chunk `c`, the `j`th of `cs`, is body `b` (which started as `b0`) compiled where the chunks
/// before it end, ready to be written.
pub open spec fn chunk_ok(cs: Seq<Chunk>, j: int, b: Body, b0: Body) -> bool {
    let c = cs[j];
    &&& c.offset == chunks_bytes(cs.take(j)).len()
    &&& jumps_land(c.ops@, c.offset as int, b)
    &&& ops_regs_below(c.ops@, c.regs as nat)
    &&& forall|k: int| 0 <= k < c.ops@.len() ==> crate::op::op_encodable(#[trigger] c.ops@[k])
    &&& c.args == b0.params@.len()
    &&& c.params@ == b0.params@.map_values(|l: Local| Reg(l.0))
    &&& c.captures@ == b0.captures@.map_values(|l: Local| Reg(l.0))
    &&& located(c, b)
    &&& names_locals(c.locals@, b0.artifacts@)
}

impl Program {
    /// The code of every body, one after another, each compiled (see [`compile_body`]) to start
    /// where the previous one ended; body `i` has `n_locals[i]` locals. `None` where a body does
    /// not compile or an op of it can't be written.
    pub fn compile(bodies: &mut Vec<Body>, n_locals: &Vec<u32>) -> (p: Option<Program>)
        requires
            old(bodies)@.len() == n_locals@.len(),
            forall|i: int| 0 <= i < old(bodies)@.len() ==> body_wf(#[trigger] old(bodies)@[i])
                && crate::clean::placed_once(old(bodies)@[i]),
        ensures
            final(bodies)@.len() == old(bodies)@.len(),
            p matches Some(prog) ==> {
                &&& prog.entry == crate::ids::BodyId(0)
                &&& prog.chunks@.len() == old(bodies)@.len()
                &&& prog.bytes@ == chunks_bytes(prog.chunks@)
                &&& forall|i: int| 0 <= i < prog.chunks@.len() ==> #[trigger] chunk_ok(
                    prog.chunks@,
                    i,
                    final(bodies)@[i],
                    old(bodies)@[i],
                )
            },
    {
        let mut e = crate::wire::Encoder::new();
        let mut chunks: Vec<Chunk> = Vec::new();
        let mut i: usize = 0;
        while i < bodies.len()
            invariant
                bodies@.len() == n_locals@.len(),
                bodies@.len() == old(bodies)@.len(),
                i <= bodies@.len(),
                forall|j: int| i <= j < bodies@.len() ==> #[trigger] bodies@[j] == old(bodies)@[j],
                forall|j: int| 0 <= j < old(bodies)@.len() ==> body_wf(#[trigger] old(bodies)@[j])
                    && crate::clean::placed_once(old(bodies)@[j]),
                chunks@.len() == i,
                e@ == chunks_bytes(chunks@),
                forall|j: int| 0 <= j < chunks@.len() ==> #[trigger] chunk_ok(chunks@, j, bodies@[j], old(bodies)@[j]),
            decreases old(bodies)@.len() - i,
        {
            let offset = e.len();
            let ghost bodies0 = bodies@;
            let ghost chunks0 = chunks@;
            let c = match compile_body(&mut bodies[i], n_locals[i], offset) {
                Some(c) => c,
                None => return None,
            };
            if !encode_ops(&c.ops, &mut e) {
                return None;
            }
            chunks.push(c);
            proof {
                assert(chunks@.drop_last() =~= chunks0);
                assert(chunks@.take(i as int) =~= chunks0);
                assert forall|j: int| 0 <= j < chunks@.len() implies #[trigger] chunk_ok(chunks@, j, bodies@[j], old(bodies)@[j]) by {
                    if j < i {
                        assert(chunk_ok(chunks0, j, bodies0[j], old(bodies)@[j]));
                        assert(chunks@[j] == chunks0[j]);
                        assert(chunks@.take(j) =~= chunks0.take(j));
                        assert(bodies@[j] == bodies0[j]);
                    }
                }
            }
            i += 1;
        }
        Some(Program { entry: crate::ids::BodyId(0), chunks, bytes: e.finish() })
    }
}


/// Items that are each written in `k` bytes take `k` bytes apiece.
proof fn lemma_flat_len<T>(s: Seq<T>, f: spec_fn(T) -> Seq<u8>, k: nat)
    requires
        forall|i: int| 0 <= i < s.len() ==> (#[trigger] f(s[i])).len() == k,
    ensures
        crate::list::flat(s, f).len() == k * s.len(),
    decreases s.len(),
{
    if s.len() > 0 {
        assert forall|i: int| 0 <= i < s.drop_first().len() implies (#[trigger] f(s.drop_first()[i])).len() == k by {
            assert(s.drop_first()[i] == s[i + 1]);
        }
        lemma_flat_len(s.drop_first(), f, k);
        assert(f(s[0]).len() == k);
        assert(k * s.len() == k + k * (s.len() - 1)) by (nonlinear_arith);
    }
}

/// An operand that can be written takes the bytes [`field_size`] counts.
proof fn lemma_field_bytes_len(f: WireField)
    requires
        crate::field::field_encodable(f),
    ensures
        crate::field::field_bytes(f).len() == field_size(f),
{
    crate::wire::lemma_words_roundtrip(0, 0, 0, Seq::empty());
    match f {
        WireField::Reg(r) => crate::wire::lemma_words_roundtrip(r.0 as u16, 0, 0, Seq::empty()),
        WireField::Word(w) => crate::wire::lemma_words_roundtrip(0, w, 0, Seq::empty()),
        WireField::Imm(v) => crate::wire::lemma_words_roundtrip(0, 0, v, Seq::empty()),
        WireField::Regs(rs) => {
            assert forall|i: int| 0 <= i < rs.len() implies (#[trigger] crate::wire::reg_bytes(rs[i])).len() == 2 by {
                crate::wire::lemma_words_roundtrip(rs[i].0 as u16, 0, 0, Seq::empty());
            }
            lemma_flat_len(rs, |r: Reg| crate::wire::reg_bytes(r), 2);
        },
        WireField::Jump(t) => {
            if let BlockTarget::ByteOffset(o) = t {
                crate::wire::lemma_words_roundtrip(0, o as u32, 0, Seq::empty());
            }
        },
        WireField::Parts(ps) => crate::wire::lemma_words_roundtrip(ps.len() as u16, 0, 0, Seq::empty()),
        WireField::Table(ts) => {
            crate::wire::lemma_words_roundtrip(ts.len() as u16, 0, 0, Seq::empty());
            assert forall|i: int| 0 <= i < ts.len() implies (#[trigger] crate::field::target_bytes(ts[i])).len() == 4 by {
                assert(crate::field::target_wf(ts[i]));
                if let BlockTarget::ByteOffset(o) = ts[i] {
                    crate::wire::lemma_words_roundtrip(0, o as u32, 0, Seq::empty());
                }
            }
            lemma_flat_len(ts, |t: BlockTarget| crate::field::target_bytes(t), 4);
        },
        _ => {},
    }
}

/// Operands that can be written take the bytes [`fields_size`] counts.
proof fn lemma_fields_bytes_len(fs: Seq<WireField>)
    requires
        forall|i: int| 0 <= i < fs.len() ==> crate::field::field_encodable(#[trigger] fs[i]),
    ensures
        crate::list::flat(fs, |f: WireField| crate::field::field_bytes(f)).len() == fields_size(fs),
    decreases fs.len(),
{
    if fs.len() > 0 {
        let init = fs.drop_last();
        lemma_fields_bytes_len(init);
        crate::list::lemma_flat_push(init, fs.last(), |f: WireField| crate::field::field_bytes(f));
        assert(init.push(fs.last()) =~= fs);
        lemma_field_bytes_len(fs.last());
    }
}

/// For ops that can be written, [`code_len`] is the length of their bytes: a jump target counted
/// by [`code_len`] is a byte offset into the written code.
pub proof fn lemma_code_len_bytes(ops: Seq<Op>)
    requires
        forall|k: int| 0 <= k < ops.len() ==> crate::op::op_encodable(#[trigger] ops[k]),
    ensures
        code_bytes(ops).len() == code_len(ops),
    decreases ops.len(),
{
    if ops.len() > 0 {
        let init = ops.drop_last();
        lemma_code_len_bytes(init);
        crate::list::lemma_flat_push(init, ops.last(), |op: Op| crate::op::op_bytes(op));
        assert(init.push(ops.last()) =~= ops);
        assert(crate::op::op_encodable(ops[ops.len() - 1]));
        lemma_fields_bytes_len(op_operands(ops.last()));
    }
}

} // verus!
