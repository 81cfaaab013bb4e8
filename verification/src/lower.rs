//! Lowering IR instructions to bytecode ops: immediate operands and register choice.
use vstd::prelude::*;

use crate::constant::Constant;
use crate::field::{BlockTarget, OpFormatPart};
use crate::ids::{InstId, Reg};
use crate::ir::{format_values, operands, Body, FormatPart, Inst};
use crate::op::{op_dst, Op};
use crate::ops::{int_result, spec_eval_int, BinFault, BinOp, OperandKind, Scalar};

verus! {

/// The value of instruction `i` as an immediate for an operation of kind `kind`: an integer
/// constant as itself, a float constant by its bits.
pub open spec fn const_imm(b: Body, kind: OperandKind, i: InstId) -> Option<i64> {
    match (kind, b.instructions@[i.0 as int]) {
        (OperandKind::Int, Inst::Constant(Constant::Int(v))) => Some(v),
        (OperandKind::Float, Inst::Constant(Constant::Float(bits))) => Some(bits as i64),
        _ => None,
    }
}

/// The comparison that holds of `(b, a)` exactly when `op` holds of `(a, b)`.
pub open spec fn flipped(op: BinOp) -> BinOp {
    match op {
        BinOp::LessThan => BinOp::GreaterThan,
        BinOp::LessEqual => BinOp::GreaterEqual,
        BinOp::GreaterThan => BinOp::LessThan,
        BinOp::GreaterEqual => BinOp::LessEqual,
        other => other,
    }
}

/// Whether `op` is one of the six comparisons.
pub open spec fn is_comparison_op(op: BinOp) -> bool {
    op == BinOp::LessThan || op == BinOp::LessEqual || op == BinOp::GreaterThan || op
        == BinOp::GreaterEqual || op == BinOp::Identity || op == BinOp::NotEqual
}

/// An arithmetic or comparison operation with a constant operand, in immediate form: the
/// operand that stays a register, the constant, its value, the operation with the constant on
/// the right, and the operand kind. Subtraction and remainder take only a constant on the right;
/// addition and multiplication take it on either side; a comparison with the constant on the
/// left is flipped (`2 < n` is `n > 2`).
pub open spec fn spec_imm_binop(b: Body, inst: Inst) -> Option<(InstId, InstId, i64, BinOp, OperandKind)> {
    match inst {
        Inst::BinOp { left, op, right, kind } => {
            let l = const_imm(b, kind, left);
            let r = const_imm(b, kind, right);
            if op == BinOp::Add || op == BinOp::Mult {
                if r is Some {
                    Some((left, right, r->0, op, kind))
                } else if l is Some {
                    Some((right, left, l->0, op, kind))
                } else {
                    None
                }
            } else if op == BinOp::Sub || op == BinOp::Mod {
                if r is Some {
                    Some((left, right, r->0, op, kind))
                } else {
                    None
                }
            } else if is_comparison_op(op) {
                if r is Some {
                    Some((left, right, r->0, op, kind))
                } else if l is Some {
                    Some((right, left, l->0, flipped(op), kind))
                } else {
                    None
                }
            } else {
                None
            }
        },
        _ => None,
    }
}

/// The immediate form of `inst`, if it has one (see [`spec_imm_binop`]).
pub fn imm_binop(body: &Body, inst: &Inst) -> (r: Option<(InstId, InstId, i64, BinOp, OperandKind)>)
    requires
        inst matches Inst::BinOp { left, right, .. } ==> left.0 < body.instructions@.len()
            && right.0 < body.instructions@.len(),
    ensures
        r == spec_imm_binop(*body, *inst),
{
    let (left, op, right, kind) = match inst {
        Inst::BinOp { left, op, right, kind } => (*left, *op, *right, *kind),
        _ => return None,
    };
    let l = const_imm_of(body, kind, left);
    let r = const_imm_of(body, kind, right);
    match op {
        BinOp::Add | BinOp::Mult => match (l, r) {
            (_, Some(v)) => Some((left, right, v, op, kind)),
            (Some(v), _) => Some((right, left, v, op, kind)),
            _ => None,
        },
        BinOp::Sub | BinOp::Mod => match r {
            Some(v) => Some((left, right, v, op, kind)),
            None => None,
        },
        BinOp::LessThan | BinOp::LessEqual | BinOp::GreaterThan | BinOp::GreaterEqual
        | BinOp::Identity | BinOp::NotEqual => match (l, r) {
            (_, Some(v)) => Some((left, right, v, op, kind)),
            (Some(v), _) => {
                let flip = match op {
                    BinOp::LessThan => BinOp::GreaterThan,
                    BinOp::LessEqual => BinOp::GreaterEqual,
                    BinOp::GreaterThan => BinOp::LessThan,
                    BinOp::GreaterEqual => BinOp::LessEqual,
                    other => other,
                };
                Some((right, left, v, flip, kind))
            },
            _ => None,
        },
        _ => None,
    }
}

/// [`const_imm`] of one instruction.
fn const_imm_of(body: &Body, kind: OperandKind, i: InstId) -> (r: Option<i64>)
    requires
        i.0 < body.instructions@.len(),
    ensures
        r == const_imm(*body, kind, i),
{
    match (kind, &body.instructions[i.0 as usize]) {
        (OperandKind::Int, Inst::Constant(Constant::Int(v))) => Some(*v),
        (OperandKind::Float, Inst::Constant(Constant::Float(bits))) => Some(*bits as i64),
        _ => None,
    }
}

/// Flipping a comparison twice gives it back.
pub proof fn lemma_flip_involutive(op: BinOp)
    ensures
        flipped(flipped(op)) == op,
{
}

/// A flipped comparison on swapped integers gives the same answer: `a op b` is `b flip(op) a`.
pub proof fn lemma_flip_swaps(op: BinOp, a: i64, b: i64)
    requires
        is_comparison_op(op),
    ensures
        spec_eval_int(op, a, b) == spec_eval_int(flipped(op), b, a),
{
}

/// The immediate form of an integer operation computes what the operation does: whatever values
/// `v` gives the instructions, as long as the constant has its value, evaluating the
/// instruction's own operands with its own operator equals evaluating the register operand
/// against the immediate with the chosen operator.
pub proof fn lemma_imm_binop_sound(b: Body, inst: Inst, v: spec_fn(InstId) -> i64)
    requires
        spec_imm_binop(b, inst) matches Some((_, con, val, _, kind)) && kind == OperandKind::Int && v(con) == val,
    ensures
        inst matches Inst::BinOp { left, op, right, .. } && spec_imm_binop(b, inst) matches Some((nc, _, val, op2, _))
            && spec_eval_int(op, v(left), v(right)) == spec_eval_int(op2, v(nc), val),
{
    if let Inst::BinOp { left, op, right, kind } = inst {
        let (nc, con, val, op2, k) = spec_imm_binop(b, inst)->0;
        if op == BinOp::Mult && nc == right && nc != left {
            let (x, y) = (v(left), v(right));
            assert(x * y == y * x) by (nonlinear_arith);
        }
    }
}

/// The op a binary operation becomes: the op specialized to its operator and operand kind, or
/// the generic `Bin` op.
pub open spec fn typed_bin(op: BinOp, kind: OperandKind, dst: Reg, left: Reg, right: Reg) -> Op {
    match (op, kind) {
        (BinOp::Identity, OperandKind::Bool) => Op::BoolEq { dst, left, right },
        (BinOp::NotEqual, OperandKind::Bool) => Op::BoolNe { dst, left, right },
        (BinOp::Add, OperandKind::Int) => Op::AddInt { dst, left, right },
        (BinOp::Sub, OperandKind::Int) => Op::SubInt { dst, left, right },
        (BinOp::Mult, OperandKind::Int) => Op::MultInt { dst, left, right },
        (BinOp::Mod, OperandKind::Int) => Op::ModInt { dst, left, right },
        (BinOp::LessThan, OperandKind::Int) => Op::IntLt { dst, left, right },
        (BinOp::LessEqual, OperandKind::Int) => Op::IntLe { dst, left, right },
        (BinOp::GreaterThan, OperandKind::Int) => Op::IntGt { dst, left, right },
        (BinOp::GreaterEqual, OperandKind::Int) => Op::IntGe { dst, left, right },
        (BinOp::Identity, OperandKind::Int) => Op::IntEq { dst, left, right },
        (BinOp::NotEqual, OperandKind::Int) => Op::IntNe { dst, left, right },
        (BinOp::Add, OperandKind::Float) => Op::AddFloat { dst, left, right },
        (BinOp::Sub, OperandKind::Float) => Op::SubFloat { dst, left, right },
        (BinOp::Mult, OperandKind::Float) => Op::MultFloat { dst, left, right },
        (BinOp::Div, OperandKind::Float) => Op::DivFloat { dst, left, right },
        (BinOp::LessThan, OperandKind::Float) => Op::FloatLt { dst, left, right },
        (BinOp::LessEqual, OperandKind::Float) => Op::FloatLe { dst, left, right },
        (BinOp::GreaterThan, OperandKind::Float) => Op::FloatGt { dst, left, right },
        (BinOp::GreaterEqual, OperandKind::Float) => Op::FloatGe { dst, left, right },
        (BinOp::Identity, OperandKind::Float) => Op::FloatEq { dst, left, right },
        (BinOp::NotEqual, OperandKind::Float) => Op::FloatNe { dst, left, right },
        (BinOp::Identity, OperandKind::Str) => Op::StrEq { dst, left, right },
        (BinOp::NotEqual, OperandKind::Str) => Op::StrNe { dst, left, right },
        _ => Op::Bin { dst, left, op, right },
    }
}

/// An arithmetic operation of the register machine.
pub enum ArithOp {
    Add,
    Sub,
    Mul,
    Div,
    Rem,
}

/// What a binary operation computes: an arithmetic operation, or a test that holds when the
/// left operand is less than, equal to, or greater than the right one, as its three flags say.
pub enum Meaning {
    Arith(ArithOp),
    Test { less: bool, equal: bool, greater: bool },
}

/// What an IR binary operator computes, where a typed op can compute it.
pub open spec fn ir_meaning(op: BinOp) -> Option<Meaning> {
    match op {
        BinOp::Add => Some(Meaning::Arith(ArithOp::Add)),
        BinOp::Sub => Some(Meaning::Arith(ArithOp::Sub)),
        BinOp::Mult => Some(Meaning::Arith(ArithOp::Mul)),
        BinOp::Div => Some(Meaning::Arith(ArithOp::Div)),
        BinOp::Mod => Some(Meaning::Arith(ArithOp::Rem)),
        BinOp::LessThan => Some(Meaning::Test { less: true, equal: false, greater: false }),
        BinOp::LessEqual => Some(Meaning::Test { less: true, equal: true, greater: false }),
        BinOp::GreaterThan => Some(Meaning::Test { less: false, equal: false, greater: true }),
        BinOp::GreaterEqual => Some(Meaning::Test { less: false, equal: true, greater: true }),
        BinOp::Identity => Some(Meaning::Test { less: false, equal: true, greater: false }),
        BinOp::NotEqual => Some(Meaning::Test { less: true, equal: false, greater: true }),
        _ => None,
    }
}

/// What a typed op of the register machine does: the register it writes, the registers it
/// reads as its left and right operands, the operand type it works on, and what it computes.
pub open spec fn machine_meaning(op: Op) -> Option<(Reg, Reg, Reg, OperandKind, Meaning)> {
    let lt = Meaning::Test { less: true, equal: false, greater: false };
    let le = Meaning::Test { less: true, equal: true, greater: false };
    let gt = Meaning::Test { less: false, equal: false, greater: true };
    let ge = Meaning::Test { less: false, equal: true, greater: true };
    let eq = Meaning::Test { less: false, equal: true, greater: false };
    let ne = Meaning::Test { less: true, equal: false, greater: true };
    match op {
        Op::BoolEq { dst, left, right } => Some((dst, left, right, OperandKind::Bool, eq)),
        Op::BoolNe { dst, left, right } => Some((dst, left, right, OperandKind::Bool, ne)),
        Op::AddInt { dst, left, right } => Some((dst, left, right, OperandKind::Int, Meaning::Arith(ArithOp::Add))),
        Op::SubInt { dst, left, right } => Some((dst, left, right, OperandKind::Int, Meaning::Arith(ArithOp::Sub))),
        Op::MultInt { dst, left, right } => Some((dst, left, right, OperandKind::Int, Meaning::Arith(ArithOp::Mul))),
        Op::ModInt { dst, left, right } => Some((dst, left, right, OperandKind::Int, Meaning::Arith(ArithOp::Rem))),
        Op::IntLt { dst, left, right } => Some((dst, left, right, OperandKind::Int, lt)),
        Op::IntLe { dst, left, right } => Some((dst, left, right, OperandKind::Int, le)),
        Op::IntGt { dst, left, right } => Some((dst, left, right, OperandKind::Int, gt)),
        Op::IntGe { dst, left, right } => Some((dst, left, right, OperandKind::Int, ge)),
        Op::IntEq { dst, left, right } => Some((dst, left, right, OperandKind::Int, eq)),
        Op::IntNe { dst, left, right } => Some((dst, left, right, OperandKind::Int, ne)),
        Op::AddFloat { dst, left, right } => Some((dst, left, right, OperandKind::Float, Meaning::Arith(ArithOp::Add))),
        Op::SubFloat { dst, left, right } => Some((dst, left, right, OperandKind::Float, Meaning::Arith(ArithOp::Sub))),
        Op::MultFloat { dst, left, right } => Some((dst, left, right, OperandKind::Float, Meaning::Arith(ArithOp::Mul))),
        Op::DivFloat { dst, left, right } => Some((dst, left, right, OperandKind::Float, Meaning::Arith(ArithOp::Div))),
        Op::FloatLt { dst, left, right } => Some((dst, left, right, OperandKind::Float, lt)),
        Op::FloatLe { dst, left, right } => Some((dst, left, right, OperandKind::Float, le)),
        Op::FloatGt { dst, left, right } => Some((dst, left, right, OperandKind::Float, gt)),
        Op::FloatGe { dst, left, right } => Some((dst, left, right, OperandKind::Float, ge)),
        Op::FloatEq { dst, left, right } => Some((dst, left, right, OperandKind::Float, eq)),
        Op::FloatNe { dst, left, right } => Some((dst, left, right, OperandKind::Float, ne)),
        Op::StrEq { dst, left, right } => Some((dst, left, right, OperandKind::Str, eq)),
        Op::StrNe { dst, left, right } => Some((dst, left, right, OperandKind::Str, ne)),
        _ => None,
    }
}

/// The registers of a format string's value pieces, in order.
pub open spec fn part_regs(ps: Seq<OpFormatPart>) -> Seq<Reg>
    decreases ps.len(),
{
    if ps.len() == 0 {
        Seq::empty()
    } else {
        let rest = part_regs(ps.drop_last());
        match ps.last() {
            OpFormatPart::Value(r) => rest.push(r),
            OpFormatPart::Literal(_) => rest,
        }
    }
}

/// The registers an op reads, in the order the machine takes its operands.
pub open spec fn op_reads(op: Op) -> Seq<Reg> {
    match op {
        Op::Move { src, .. } => seq![src],
        Op::NewArray { .. } => Seq::empty(),
        Op::NewDict { .. } => Seq::empty(),
        Op::NewInstance { fields, .. } => fields@,
        Op::NewClosure { captures, .. } => captures@,
        Op::Push { array, value, .. } => seq![array] + seq![value],
        Op::Insert { dict, value, .. } => seq![dict] + seq![value],
        Op::SetIndex { set, index, value, .. } => seq![set] + seq![index] + seq![value],
        Op::SetField { receiver, value, .. } => seq![receiver] + seq![value],
        Op::LoadBody { .. } => Seq::empty(),
        Op::LoadConst { .. } => Seq::empty(),
        Op::Jump { .. } => Seq::empty(),
        Op::JumpIf { cond, .. } => seq![cond],
        Op::ForNext { idx, bound, .. } => seq![idx] + seq![bound],
        Op::Switch { scrut, .. } => seq![scrut],
        Op::Call { callee, args, .. } => seq![callee] + args@,
        Op::CallDirect { args, .. } => args@,
        Op::CallNative { args, .. } => args@,
        Op::Return { val, .. } => seq![val],
        Op::Panic { .. } => Seq::empty(),
        Op::Raise { val, .. } => seq![val],
        Op::IsRaised { src, .. } => seq![src],
        Op::UnwrapRaised { src, .. } => seq![src],
        Op::Unwrap { src, .. } => seq![src],
        Op::GetIndex { set, index, .. } => seq![set] + seq![index],
        Op::GetField { src, .. } => seq![src],
        Op::Len { src, .. } => seq![src],
        Op::ToFloat { src, .. } => seq![src],
        Op::Sqrt { src, .. } => seq![src],
        Op::In { needle, haystack, .. } => seq![needle] + seq![haystack],
        Op::IsInstance { src, .. } => seq![src],
        Op::Format { parts, .. } => part_regs(parts@),
        Op::Bin { left, right, .. } => seq![left] + seq![right],
        Op::Unary { src, .. } => seq![src],
        Op::BoolEq { left, right, .. } => seq![left] + seq![right],
        Op::BoolNe { left, right, .. } => seq![left] + seq![right],
        Op::AddInt { left, right, .. } => seq![left] + seq![right],
        Op::SubInt { left, right, .. } => seq![left] + seq![right],
        Op::MultInt { left, right, .. } => seq![left] + seq![right],
        Op::ModInt { left, right, .. } => seq![left] + seq![right],
        Op::IntLt { left, right, .. } => seq![left] + seq![right],
        Op::IntLe { left, right, .. } => seq![left] + seq![right],
        Op::IntGt { left, right, .. } => seq![left] + seq![right],
        Op::IntGe { left, right, .. } => seq![left] + seq![right],
        Op::IntEq { left, right, .. } => seq![left] + seq![right],
        Op::IntNe { left, right, .. } => seq![left] + seq![right],
        Op::AddIntImm { left, .. } => seq![left],
        Op::SubIntImm { left, .. } => seq![left],
        Op::MultIntImm { left, .. } => seq![left],
        Op::ModIntImm { left, .. } => seq![left],
        Op::IntLtImm { left, .. } => seq![left],
        Op::IntLeImm { left, .. } => seq![left],
        Op::IntGtImm { left, .. } => seq![left],
        Op::IntGeImm { left, .. } => seq![left],
        Op::IntEqImm { left, .. } => seq![left],
        Op::IntNeImm { left, .. } => seq![left],
        Op::BIntLt { left, right, .. } => seq![left] + seq![right],
        Op::BIntLe { left, right, .. } => seq![left] + seq![right],
        Op::BIntGt { left, right, .. } => seq![left] + seq![right],
        Op::BIntGe { left, right, .. } => seq![left] + seq![right],
        Op::BIntEq { left, right, .. } => seq![left] + seq![right],
        Op::BIntNe { left, right, .. } => seq![left] + seq![right],
        Op::BIntLtImm { left, .. } => seq![left],
        Op::BIntLeImm { left, .. } => seq![left],
        Op::BIntGtImm { left, .. } => seq![left],
        Op::BIntGeImm { left, .. } => seq![left],
        Op::BIntEqImm { left, .. } => seq![left],
        Op::BIntNeImm { left, .. } => seq![left],
        Op::AddFloat { left, right, .. } => seq![left] + seq![right],
        Op::SubFloat { left, right, .. } => seq![left] + seq![right],
        Op::MultFloat { left, right, .. } => seq![left] + seq![right],
        Op::DivFloat { left, right, .. } => seq![left] + seq![right],
        Op::FloatLt { left, right, .. } => seq![left] + seq![right],
        Op::FloatLe { left, right, .. } => seq![left] + seq![right],
        Op::FloatGt { left, right, .. } => seq![left] + seq![right],
        Op::FloatGe { left, right, .. } => seq![left] + seq![right],
        Op::FloatEq { left, right, .. } => seq![left] + seq![right],
        Op::FloatNe { left, right, .. } => seq![left] + seq![right],
        Op::AddFloatImm { left, .. } => seq![left],
        Op::SubFloatImm { left, .. } => seq![left],
        Op::MultFloatImm { left, .. } => seq![left],
        Op::ModFloatImm { left, .. } => seq![left],
        Op::FloatLtImm { left, .. } => seq![left],
        Op::FloatLeImm { left, .. } => seq![left],
        Op::FloatGtImm { left, .. } => seq![left],
        Op::FloatGeImm { left, .. } => seq![left],
        Op::FloatEqImm { left, .. } => seq![left],
        Op::FloatNeImm { left, .. } => seq![left],
        Op::BFloatLt { left, right, .. } => seq![left] + seq![right],
        Op::BFloatLe { left, right, .. } => seq![left] + seq![right],
        Op::BFloatGt { left, right, .. } => seq![left] + seq![right],
        Op::BFloatGe { left, right, .. } => seq![left] + seq![right],
        Op::BFloatEq { left, right, .. } => seq![left] + seq![right],
        Op::BFloatNe { left, right, .. } => seq![left] + seq![right],
        Op::BFloatLtImm { left, .. } => seq![left],
        Op::BFloatLeImm { left, .. } => seq![left],
        Op::BFloatGtImm { left, .. } => seq![left],
        Op::BFloatGeImm { left, .. } => seq![left],
        Op::BFloatEqImm { left, .. } => seq![left],
        Op::BFloatNeImm { left, .. } => seq![left],
        Op::StrEq { left, right, .. } => seq![left] + seq![right],
        Op::StrNe { left, right, .. } => seq![left] + seq![right],
    }
}

proof fn lemma_part_regs(c: Ctx, ps: Seq<FormatPart>)
    ensures
        part_regs(op_parts(c, ps)) == format_values(ps).map_values(|i: InstId| c.reg_of(i)),
    decreases ps.len(),
{
    if ps.len() > 0 {
        lemma_part_regs(c, ps.drop_last());
        assert(op_parts(c, ps).drop_last() =~= op_parts(c, ps.drop_last()));
        assert(op_parts(c, ps).last() == match ps.last() {
            FormatPart::Literal(s) => OpFormatPart::Literal(s),
            FormatPart::Value(v) => OpFormatPart::Value(c.reg_of(v)),
        });
        let rest = format_values(ps.drop_last());
        match ps.last() {
            FormatPart::Value(v) => {
                assert(format_values(ps).map_values(|i: InstId| c.reg_of(i)) =~= rest.map_values(|i: InstId| c.reg_of(i)).push(c.reg_of(v)));
            },
            FormatPart::Literal(_) => {},
        }
    } else {
        assert(format_values(ps).map_values(|i: InstId| c.reg_of(i)) =~= Seq::<Reg>::empty());
    }
}

/// Lowering reads what the instruction uses and writes a fresh register for what it produces:
/// the op reads the registers of the instruction's operands, in the instruction's order, and an
/// instruction with a value of its own gets it in the register the context hands out next.
pub proof fn lemma_lowered_reads(inst: Inst, c: Ctx, op: Op)
    requires
        lowers(inst, c, op),
    ensures
        op_reads(op) == operands(inst).map_values(|i: InstId| c.reg_of(i)),
        takes_reg(inst) ==> op_dst(op) == Some(c.next_reg()),
{
    let f = |i: InstId| c.reg_of(i);
    match inst {
        Inst::Format(ps) => {
            lemma_part_regs(c, ps@);
        },
        Inst::Call { callee, args } => {
            assert((seq![callee] + args@).map_values(f) =~= seq![c.reg_of(callee)] + args@.map_values(f));
        },
        _ => {},
    }
    assert(op_reads(op) =~= operands(inst).map_values(f));
}

/// The IR's meaning of an operator is what folding it on integers computes: a test holds of
/// `a` and `b` as its flag for how `a` orders against `b` says, and a sum, difference or
/// product is the exact one where it fits.
pub proof fn lemma_ir_meaning_on_ints(op: BinOp, a: i64, b: i64)
    ensures
        ir_meaning(op) matches Some(Meaning::Test { less, equal, greater }) ==> spec_eval_int(op, a, b)
            == Ok::<Scalar, BinFault>(Scalar::Bool(if a < b { less } else if a == b { equal } else { greater })),
        ir_meaning(op) == Some(Meaning::Arith(ArithOp::Add)) ==> spec_eval_int(op, a, b) == int_result(a + b),
        ir_meaning(op) == Some(Meaning::Arith(ArithOp::Sub)) ==> spec_eval_int(op, a, b) == int_result(a - b),
        ir_meaning(op) == Some(Meaning::Arith(ArithOp::Mul)) ==> spec_eval_int(op, a, b) == int_result(a * b),
{
}

/// The op a binary operation lowers to computes what the operation does: either the generic
/// `Bin` op with the operation itself, or a typed op that writes `dst` from `left` and `right`
/// in that order, works on the operation's operand type and computes the operation's meaning
/// (a `>=` on floats is a float test that holds on equal operands). Comparisons of integers
/// and floats, and equality tests of bools and strings, always get a typed op.
pub proof fn lemma_typed_bin_meaning(op: BinOp, kind: OperandKind, dst: Reg, left: Reg, right: Reg)
    ensures
        typed_bin(op, kind, dst, left, right) is Bin ==> typed_bin(op, kind, dst, left, right) == (Op::Bin {
            dst,
            left,
            op,
            right,
        }),
        !(typed_bin(op, kind, dst, left, right) is Bin) ==> ir_meaning(op) is Some && machine_meaning(
            typed_bin(op, kind, dst, left, right),
        ) == Some((dst, left, right, kind, ir_meaning(op)->0)),
        (is_comparison_op(op) && (kind == OperandKind::Int || kind == OperandKind::Float)) ==> !(typed_bin(
            op,
            kind,
            dst,
            left,
            right,
        ) is Bin),
        ((op == BinOp::Identity || op == BinOp::NotEqual) && (kind == OperandKind::Bool || kind == OperandKind::Str))
            ==> !(typed_bin(op, kind, dst, left, right) is Bin),
{
}

/// Builds the op [`typed_bin`] names.
pub fn typed_binop(op: BinOp, kind: OperandKind, dst: Reg, left: Reg, right: Reg) -> (r: Op)
    ensures
        r == typed_bin(op, kind, dst, left, right),
{
    match (op, kind) {
        (BinOp::Identity, OperandKind::Bool) => Op::BoolEq { dst, left, right },
        (BinOp::NotEqual, OperandKind::Bool) => Op::BoolNe { dst, left, right },
        (BinOp::Add, OperandKind::Int) => Op::AddInt { dst, left, right },
        (BinOp::Sub, OperandKind::Int) => Op::SubInt { dst, left, right },
        (BinOp::Mult, OperandKind::Int) => Op::MultInt { dst, left, right },
        (BinOp::Mod, OperandKind::Int) => Op::ModInt { dst, left, right },
        (BinOp::LessThan, OperandKind::Int) => Op::IntLt { dst, left, right },
        (BinOp::LessEqual, OperandKind::Int) => Op::IntLe { dst, left, right },
        (BinOp::GreaterThan, OperandKind::Int) => Op::IntGt { dst, left, right },
        (BinOp::GreaterEqual, OperandKind::Int) => Op::IntGe { dst, left, right },
        (BinOp::Identity, OperandKind::Int) => Op::IntEq { dst, left, right },
        (BinOp::NotEqual, OperandKind::Int) => Op::IntNe { dst, left, right },
        (BinOp::Add, OperandKind::Float) => Op::AddFloat { dst, left, right },
        (BinOp::Sub, OperandKind::Float) => Op::SubFloat { dst, left, right },
        (BinOp::Mult, OperandKind::Float) => Op::MultFloat { dst, left, right },
        (BinOp::Div, OperandKind::Float) => Op::DivFloat { dst, left, right },
        (BinOp::LessThan, OperandKind::Float) => Op::FloatLt { dst, left, right },
        (BinOp::LessEqual, OperandKind::Float) => Op::FloatLe { dst, left, right },
        (BinOp::GreaterThan, OperandKind::Float) => Op::FloatGt { dst, left, right },
        (BinOp::GreaterEqual, OperandKind::Float) => Op::FloatGe { dst, left, right },
        (BinOp::Identity, OperandKind::Float) => Op::FloatEq { dst, left, right },
        (BinOp::NotEqual, OperandKind::Float) => Op::FloatNe { dst, left, right },
        (BinOp::Identity, OperandKind::Str) => Op::StrEq { dst, left, right },
        (BinOp::NotEqual, OperandKind::Str) => Op::StrNe { dst, left, right },
        _ => Op::Bin { dst, left, op, right },
    }
}

/// What lowering one instruction needs: the register of each instruction lowered so far, the
/// register of each local, how many registers the body uses, and the registers free for reuse.
pub struct Ctx {
    pub inst_to_reg: Vec<Option<Reg>>,
    pub local_to_reg: Vec<Reg>,
    pub regs: u32,
    pub free: Vec<Reg>,
}

impl Ctx {
    /// The register [`Ctx::reg`] hands out next: the last freed one, or a new one.
    pub open spec fn next_reg(self) -> Reg {
        if self.free@.len() > 0 {
            self.free@.last()
        } else {
            Reg(self.regs)
        }
    }

    /// A register can be handed out: one is free, or the count has room.
    pub open spec fn can_alloc(self) -> bool {
        self.free@.len() > 0 || self.regs < u32::MAX
    }

    /// The register of instruction `i`.
    pub open spec fn reg_of(self, i: InstId) -> Reg {
        self.inst_to_reg@[i.0 as int]->0
    }

    /// Instruction `i` has a register.
    pub open spec fn has_reg(self, i: InstId) -> bool {
        i.0 < self.inst_to_reg@.len() && self.inst_to_reg@[i.0 as int] is Some
    }

    /// `after` is this context once [`Ctx::reg`] has handed out a register.
    pub open spec fn allocated(self, after: Ctx) -> bool {
        &&& after.inst_to_reg == self.inst_to_reg
        &&& after.local_to_reg == self.local_to_reg
        &&& if self.free@.len() > 0 {
            after.free@ == self.free@.drop_last() && after.regs == self.regs
        } else {
            after.free@ == self.free@ && after.regs == self.regs + 1
        }
    }

    /// A register for a new value: the last freed register, or a new one.
    pub fn reg(&mut self) -> (r: Reg)
        requires
            old(self).can_alloc(),
        ensures
            r == old(self).next_reg(),
            old(self).allocated(*final(self)),
    {
        match self.free.pop() {
            Some(r) => r,
            None => {
                let r = Reg(self.regs);
                self.regs = self.regs + 1;
                r
            },
        }
    }

    /// The register holding instruction `iid`'s value.
    pub fn i2r(&self, iid: &InstId) -> (r: Reg)
        requires
            self.has_reg(*iid),
        ensures
            r == self.reg_of(*iid),
    {
        match self.inst_to_reg[iid.0 as usize] {
            Some(r) => r,
            None => {
                assert(false);
                Reg(0)
            },
        }
    }

    /// The registers of a list of instructions.
    fn i2rs(&self, ids: &Vec<InstId>) -> (v: Vec<Reg>)
        requires
            forall|k: int| 0 <= k < ids@.len() ==> self.has_reg(#[trigger] ids@[k]),
        ensures
            v@ == ids@.map_values(|i: InstId| self.reg_of(i)),
    {
        let mut v: Vec<Reg> = Vec::new();
        let mut k: usize = 0;
        while k < ids.len()
            invariant
                k <= ids@.len(),
                forall|kk: int| 0 <= kk < ids@.len() ==> self.has_reg(#[trigger] ids@[kk]),
                v@ == ids@.take(k as int).map_values(|i: InstId| self.reg_of(i)),
            decreases ids@.len() - k,
        {
            v.push(self.i2r(&ids[k]));
            assert(ids@.take(k + 1).map_values(|i: InstId| self.reg_of(i)) =~= ids@.take(k as int).map_values(
                |i: InstId| self.reg_of(i),
            ).push(self.reg_of(ids@[k as int])));
            k += 1;
        }
        assert(ids@.take(k as int) =~= ids@);
        v
    }
}

/// Whether lowering `inst` hands out a new register for its value.
pub open spec fn takes_reg(inst: Inst) -> bool {
    match inst {
        Inst::SetLocal(..) | Inst::JumpIfFalse { .. } | Inst::Jump { .. } | Inst::Switch { .. }
        | Inst::SetIndex { .. } | Inst::Push { .. } | Inst::Insert { .. } | Inst::ForNext { .. }
        | Inst::SetField { .. } | Inst::Return(..) | Inst::Panic | Inst::Raise(..)
        | Inst::GetLocal(..) | Inst::Phi(..) => false,
        _ => true,
    }
}

/// A format string's parts as the op shows them: literals as they are, values by register.
pub open spec fn op_parts(c: Ctx, parts: Seq<FormatPart>) -> Seq<OpFormatPart> {
    parts.map_values(
        |p: FormatPart|
            match p {
                FormatPart::Literal(s) => OpFormatPart::Literal(s),
                FormatPart::Value(v) => OpFormatPart::Value(c.reg_of(v)),
            },
    )
}

/// `op` is what instruction `inst` lowers to in context `c`: `d` stands for the register
/// [`Ctx::reg`] hands out, and each operand is read from its instruction's register.
pub open spec fn lowers(inst: Inst, c: Ctx, op: Op) -> bool {
    let d = c.next_reg();
    match inst {
        Inst::Constant(k) => match op {
            Op::LoadConst { dst, constant } => dst == d && constant.model() == k.model(),
            _ => false,
        },
        Inst::SetLocal(l, v) => op == Op::Move { dst: c.local_to_reg@[l.0 as int], src: c.reg_of(v) },
        Inst::BinOp { left, op: o, right, kind } => op == typed_bin(o, kind, d, c.reg_of(left), c.reg_of(right)),
        Inst::UnaryOp { op: o, right } => op == Op::Unary { dst: d, op: o, src: c.reg_of(right) },
        Inst::JumpIfFalse { condition, target } => op == Op::JumpIf {
            cond: c.reg_of(condition),
            target: BlockTarget::Block(target),
            is_true: false,
        },
        Inst::Jump { target } => op == Op::Jump { target: BlockTarget::Block(target) },
        Inst::Switch { scrut, base, table: t, default } => op matches Op::Switch { scrut: s2, base: b2, default: d2, table }
            && s2 == c.reg_of(scrut) && b2 == base && d2 == BlockTarget::Block(default) && table@ == t@.map_values(
            |b: crate::ids::BlockId| BlockTarget::Block(b),
        ),
        Inst::NewArray => op == Op::NewArray { dst: d },
        Inst::NewDict => op == Op::NewDict { dst: d },
        Inst::GetIndex { set, index, kind } => op == Op::GetIndex {
            dst: d,
            set: c.reg_of(set),
            index: c.reg_of(index),
            kind,
        },
        Inst::SetIndex { set, index, value } => op == Op::SetIndex {
            set: c.reg_of(set),
            index: c.reg_of(index),
            value: c.reg_of(value),
        },
        Inst::Push { array, value } => op == Op::Push { array: c.reg_of(array), value: c.reg_of(value) },
        Inst::Insert { dict, key, value } => op == Op::Insert { dict: c.reg_of(dict), key, value: c.reg_of(value) },
        Inst::Len(v) => op == Op::Len { dst: d, src: c.reg_of(v) },
        Inst::ToFloat(v) => op == Op::ToFloat { dst: d, src: c.reg_of(v) },
        Inst::Sqrt(v) => op == Op::Sqrt { dst: d, src: c.reg_of(v) },
        Inst::Unwrap(v) => op == Op::Unwrap { dst: d, src: c.reg_of(v) },
        Inst::In(a, b, cond) => op == Op::In {
            dst: d,
            needle: c.reg_of(a),
            haystack: c.reg_of(b),
            condition: cond,
        },
        Inst::ForNext { idx, bound, target } => op == Op::ForNext {
            idx: c.reg_of(idx),
            bound: c.reg_of(bound),
            target: BlockTarget::Block(target),
        },
        Inst::Format(ps) => op matches Op::Format { dst, parts } && dst == d && parts@ == op_parts(c, ps@),
        Inst::RefBody(body) => op == Op::LoadBody { dst: d, body },
        Inst::MakeClosure { body, captures: cs } => op matches Op::NewClosure { dst, body: b2, captures }
            && dst == d && b2 == body && captures@ == cs@.map_values(|i: InstId| c.reg_of(i)),
        Inst::Call { callee, args: a } => op matches Op::Call { dst, callee: ce, args } && dst == d && ce
            == c.reg_of(callee) && args@ == a@.map_values(|i: InstId| c.reg_of(i)),
        Inst::CallDirect { body, args: a } => op matches Op::CallDirect { dst, body: b2, args } && dst == d
            && b2 == body && args@ == a@.map_values(|i: InstId| c.reg_of(i)),
        Inst::CallNative { id, args: a } => op matches Op::CallNative { dst, id: i2, args } && dst == d
            && i2 == id && args@ == a@.map_values(|i: InstId| c.reg_of(i)),
        Inst::GetField { src, slot, kind } => op == Op::GetField { dst: d, src: c.reg_of(src), slot, kind },
        Inst::SetField { receiver, slot, value } => op == Op::SetField {
            receiver: c.reg_of(receiver),
            slot,
            value: c.reg_of(value),
        },
        Inst::Return(v) => op == Op::Return { val: c.reg_of(v) },
        Inst::NewInstance { adt, fields: fs } => op matches Op::NewInstance { dst, adt: a2, fields } && dst
            == d && a2 == adt && fields@ == fs@.map_values(|i: InstId| c.reg_of(i)),
        Inst::IsInstance { src, adt } => op == Op::IsInstance { dst: d, src: c.reg_of(src), adt },
        Inst::Panic => op == Op::Panic {},
        Inst::Raise(v) => op == Op::Raise { val: c.reg_of(v) },
        Inst::IsRaised(v) => op == Op::IsRaised { dst: d, src: c.reg_of(v) },
        Inst::UnwrapRaised(v) => op == Op::UnwrapRaised { dst: d, src: c.reg_of(v) },
        Inst::GetLocal(_) | Inst::Phi(_) => false,
    }
}

impl Op {
    /// Lowers one instruction to its op, taking a register for its value from `ctx` when it has one.
    /// A `GetLocal` (aliased to its local's register) and a phi (copied at each predecessor's jump)
    /// are never lowered this way.
    pub fn from_inst(inst: &Inst, ctx: &mut Ctx) -> (op: Op)
        requires
            !(*inst is GetLocal),
            !(*inst is Phi),
            forall|k: int| 0 <= k < operands(*inst).len() ==> old(ctx).has_reg(#[trigger] operands(*inst)[k]),
            *inst matches Inst::SetLocal(l, _) ==> l.0 < old(ctx).local_to_reg@.len(),
            *inst matches Inst::Insert { dict, .. } ==> old(ctx).has_reg(dict),
            takes_reg(*inst) ==> old(ctx).can_alloc(),
        ensures
            lowers(*inst, *old(ctx), op),
            takes_reg(*inst) ==> old(ctx).allocated(*final(ctx)),
            !takes_reg(*inst) ==> *final(ctx) == *old(ctx),
    {
        let ghost c0 = *ctx;
        proof {
            assert forall|k: int| 0 <= k < operands(*inst).len() implies ctx.has_reg(#[trigger] operands(*inst)[k]) by {}
        }
        match inst {
            Inst::Constant(konst) => lower_constant(konst, ctx),
            Inst::SetLocal(l, v) => {
                assert(operands(*inst)[0] == *v);
                Op::Move { dst: ctx.local_to_reg[l.0 as usize], src: ctx.i2r(v) }
            },
            Inst::BinOp { left, op, right, kind } => {
                assert(operands(*inst)[0] == *left && operands(*inst)[1] == *right);
                let dst = ctx.reg();
                let l = ctx.i2r(left);
                let r = ctx.i2r(right);
                typed_binop(*op, *kind, dst, l, r)
            },
            Inst::UnaryOp { op, right } => {
                assert(operands(*inst)[0] == *right);
                let dst = ctx.reg();
                Op::Unary { dst, op: *op, src: ctx.i2r(right) }
            },
            Inst::JumpIfFalse { condition, target } => {
                assert(operands(*inst)[0] == *condition);
                Op::JumpIf { cond: ctx.i2r(condition), target: BlockTarget::Block(*target), is_true: false }
            },
            Inst::Jump { target } => Op::Jump { target: BlockTarget::Block(*target) },
            Inst::Switch { scrut, base, table, default } => {
                assert(operands(*inst)[0] == *scrut);
                let mut t2: Vec<BlockTarget> = Vec::new();
                let mut k: usize = 0;
                while k < table.len()
                    invariant
                        k <= table@.len(),
                        t2@ == table@.take(k as int).map_values(|b: crate::ids::BlockId| BlockTarget::Block(b)),
                    decreases table@.len() - k,
                {
                    t2.push(BlockTarget::Block(table[k]));
                    assert(table@.take(k + 1).map_values(|b: crate::ids::BlockId| BlockTarget::Block(b)) =~= table@.take(
                        k as int,
                    ).map_values(|b: crate::ids::BlockId| BlockTarget::Block(b)).push(BlockTarget::Block(table@[k as int])));
                    k += 1;
                }
                assert(table@.take(k as int) =~= table@);
                Op::Switch { scrut: ctx.i2r(scrut), base: *base, default: BlockTarget::Block(*default), table: t2 }
            },
            Inst::NewArray => Op::NewArray { dst: ctx.reg() },
            Inst::NewDict => Op::NewDict { dst: ctx.reg() },
            Inst::GetIndex { set, index, kind } => {
                assert(operands(*inst)[0] == *set && operands(*inst)[1] == *index);
                let dst = ctx.reg();
                Op::GetIndex { dst, set: ctx.i2r(set), index: ctx.i2r(index), kind: *kind }
            },
            Inst::SetIndex { set, index, value } => {
                assert(operands(*inst)[0] == *set && operands(*inst)[1] == *index && operands(*inst)[2] == *value);
                Op::SetIndex { set: ctx.i2r(set), index: ctx.i2r(index), value: ctx.i2r(value) }
            },
            Inst::Push { array, value } => {
                assert(operands(*inst)[0] == *array && operands(*inst)[1] == *value);
                Op::Push { array: ctx.i2r(array), value: ctx.i2r(value) }
            },
            Inst::Insert { dict, key, value } => {
                assert(operands(*inst)[0] == *dict && operands(*inst)[1] == *value);
                Op::Insert { dict: ctx.i2r(dict), key: *key, value: ctx.i2r(value) }
            },
            Inst::Len(v) => {
                assert(operands(*inst)[0] == *v);
                let dst = ctx.reg();
                Op::Len { dst, src: ctx.i2r(v) }
            },
            Inst::ToFloat(v) => {
                assert(operands(*inst)[0] == *v);
                let dst = ctx.reg();
                Op::ToFloat { dst, src: ctx.i2r(v) }
            },
            Inst::Sqrt(v) => {
                assert(operands(*inst)[0] == *v);
                let dst = ctx.reg();
                Op::Sqrt { dst, src: ctx.i2r(v) }
            },
            Inst::Unwrap(v) => {
                assert(operands(*inst)[0] == *v);
                let dst = ctx.reg();
                Op::Unwrap { dst, src: ctx.i2r(v) }
            },
            Inst::In(a, b, cond) => {
                assert(operands(*inst)[0] == *a && operands(*inst)[1] == *b);
                let dst = ctx.reg();
                Op::In { dst, needle: ctx.i2r(a), haystack: ctx.i2r(b), condition: *cond }
            },
            Inst::ForNext { idx, bound, target } => {
                assert(operands(*inst)[0] == *idx && operands(*inst)[1] == *bound);
                Op::ForNext { idx: ctx.i2r(idx), bound: ctx.i2r(bound), target: BlockTarget::Block(*target) }
            },
            Inst::Format(parts) => {
                assert forall|k: int| 0 <= k < format_values(parts@).len() implies ctx.has_reg(#[trigger] format_values(parts@)[k]) by {
                    assert(operands(*inst)[k] == format_values(parts@)[k]);
                }
                let ps = lower_parts(ctx, parts);
                let dst = ctx.reg();
                Op::Format { dst, parts: ps }
            },
            Inst::RefBody(body) => Op::LoadBody { dst: ctx.reg(), body: *body },
            Inst::MakeClosure { body, captures } => {
                assert(operands(*inst) == captures@);
                let captures = ctx.i2rs(captures);
                let dst = ctx.reg();
                Op::NewClosure { dst, body: *body, captures }
            },
            Inst::Call { callee, args } => {
                assert(operands(*inst)[0] == *callee);
                assert forall|k: int| 0 <= k < args@.len() implies ctx.has_reg(#[trigger] args@[k]) by {
                    assert(operands(*inst)[k + 1] == args@[k]);
                }
                let args = ctx.i2rs(args);
                let dst = ctx.reg();
                Op::Call { dst, callee: ctx.i2r(callee), args }
            },
            Inst::CallDirect { body, args } => {
                assert(operands(*inst) == args@);
                let args = ctx.i2rs(args);
                let dst = ctx.reg();
                Op::CallDirect { dst, body: *body, args }
            },
            Inst::CallNative { id, args } => {
                assert(operands(*inst) == args@);
                let args = ctx.i2rs(args);
                let dst = ctx.reg();
                Op::CallNative { dst, id: *id, args }
            },
            Inst::GetField { src, slot, kind } => {
                assert(operands(*inst)[0] == *src);
                let dst = ctx.reg();
                Op::GetField { dst, src: ctx.i2r(src), slot: *slot, kind: *kind }
            },
            Inst::SetField { receiver, slot, value } => {
                assert(operands(*inst)[0] == *receiver && operands(*inst)[1] == *value);
                Op::SetField { receiver: ctx.i2r(receiver), slot: *slot, value: ctx.i2r(value) }
            },
            Inst::Return(v) => {
                assert(operands(*inst)[0] == *v);
                Op::Return { val: ctx.i2r(v) }
            },
            Inst::NewInstance { adt, fields } => {
                assert(operands(*inst) == fields@);
                let fields = ctx.i2rs(fields);
                let dst = ctx.reg();
                Op::NewInstance { dst, adt: *adt, fields }
            },
            Inst::Panic => Op::Panic {},
            Inst::IsInstance { src, adt } => {
                assert(operands(*inst)[0] == *src);
                let dst = ctx.reg();
                Op::IsInstance { dst, src: ctx.i2r(src), adt: *adt }
            },
            Inst::Raise(v) => {
                assert(operands(*inst)[0] == *v);
                Op::Raise { val: ctx.i2r(v) }
            },
            Inst::IsRaised(v) => {
                assert(operands(*inst)[0] == *v);
                let dst = ctx.reg();
                Op::IsRaised { dst, src: ctx.i2r(v) }
            },
            Inst::UnwrapRaised(v) => {
                assert(operands(*inst)[0] == *v);
                let dst = ctx.reg();
                Op::UnwrapRaised { dst, src: ctx.i2r(v) }
            },
            Inst::GetLocal(_) | Inst::Phi(_) => {
                assert(false);
                Op::Panic {}
            },
        }
    }
}

/// Lowers a constant: it loads into a new register.
fn lower_constant(k: &Constant, ctx: &mut Ctx) -> (op: Op)
    requires
        old(ctx).can_alloc(),
    ensures
        lowers(Inst::Constant(*k), *old(ctx), op),
        old(ctx).allocated(*final(ctx)),
{
    let dst = ctx.reg();
    Op::LoadConst { dst, constant: k.duplicate() }
}

/// A format string's parts with each value read from its register.
fn lower_parts(ctx: &Ctx, parts: &Vec<FormatPart>) -> (v: Vec<OpFormatPart>)
    requires
        forall|k: int| 0 <= k < format_values(parts@).len() ==> ctx.has_reg(#[trigger] format_values(parts@)[k]),
    ensures
        v@ == op_parts(*ctx, parts@),
{
    let mut v: Vec<OpFormatPart> = Vec::new();
    let mut k: usize = 0;
    while k < parts.len()
        invariant
            k <= parts@.len(),
            forall|kk: int| 0 <= kk < format_values(parts@).len() ==> ctx.has_reg(#[trigger] format_values(parts@)[kk]),
            v@ == op_parts(*ctx, parts@.take(k as int)),
        decreases parts@.len() - k,
    {
        proof {
            assert(op_parts(*ctx, parts@.take(k + 1)) =~= op_parts(*ctx, parts@.take(k as int)).push(
                op_parts(*ctx, parts@.take(k + 1))[k as int],
            ));
        }
        match parts[k] {
            FormatPart::Literal(s) => v.push(OpFormatPart::Literal(s)),
            FormatPart::Value(x) => {
                proof {
                    lemma_format_value_in(parts@, k as int);
                }
                v.push(OpFormatPart::Value(ctx.i2r(&x)));
            },
        }
        k += 1;
    }
    assert(parts@.take(k as int) =~= parts@);
    v
}

/// A value shown by a format string is among its [`format_values`].
pub(crate) proof fn lemma_format_value_in(parts: Seq<FormatPart>, k: int)
    requires
        0 <= k < parts.len(),
        parts[k] is Value,
    ensures
        format_values(parts).contains(parts[k]->Value_0),
    decreases parts.len(),
{
    if k < parts.len() - 1 {
        lemma_format_value_in(parts.drop_last(), k);
        let vs = format_values(parts.drop_last());
        let j = choose|j: int| 0 <= j < vs.len() && vs[j] == parts[k]->Value_0;
        match parts.last() {
            FormatPart::Value(x) => {
                assert(format_values(parts)[j] == vs[j]);
            },
            FormatPart::Literal(_) => {},
        }
    } else {
        assert(format_values(parts) == format_values(parts.drop_last()).push(parts[k]->Value_0));
        assert(format_values(parts)[format_values(parts).len() - 1] == parts[k]->Value_0);
    }
}

} // verus!
