//! The disassembly of ops, as a bytecode dump shows them: each op's name in a column of
//! eighteen, then its operands, each in a column of ten.
use vstd::prelude::*;
use vstd::string::{StrSliceExecFns, StringExecFns};

use crate::constant::Constant;
use crate::field::{BlockTarget, OpFormatPart};
use crate::ids::Reg;
use crate::op::Op;
use crate::ops::{name_key, BinOp, OperandKind, UnaryOp};
use crate::lower::{machine_meaning, ArithOp, Meaning};
use crate::codegen::{branch_meaning, imm_meaning, Rhs};
use crate::dump::lines;
use crate::text::{access_mark, const_text, constant_text, dec, mark_text, signed, signed_text};

verus! {

/// `n` spaces.
pub open spec fn spaces(n: nat) -> Seq<char> {
    Seq::new(n, |i: int| ' ')
}

/// `s` followed by spaces up to `w` characters; `s` as it is where it is that long already.
pub open spec fn col(s: Seq<char>, w: nat) -> Seq<char> {
    if s.len() < w {
        s + spaces((w - s.len()) as nat)
    } else {
        s
    }
}

/// An op's name, in its column.
pub open spec fn name_col(s: Seq<char>) -> Seq<char> {
    col(s, 18)
}

/// A register, `r3`, in its column.
pub open spec fn reg_col(r: Reg) -> Seq<char> {
    col("r"@ + dec(r.0 as nat), 10)
}

/// At least four digits: `n` with zeros in front.
pub open spec fn four_digits(n: nat) -> Seq<char> {
    let d = dec(n);
    if d.len() < 4 {
        Seq::new((4 - d.len()) as nat, |i: int| '0') + d
    } else {
        d
    }
}

/// A jump target: a block as `b2` in its column, a byte offset as four digits or more with six
/// spaces after them.
pub open spec fn target_col(t: BlockTarget) -> Seq<char> {
    match t {
        BlockTarget::Block(b) => col("b"@ + dec(b.0 as nat), 10),
        BlockTarget::ByteOffset(o) => four_digits(o as nat) + spaces(6),
    }
}

/// An id with its mark in front (`.` a string, `@` a body, `$` a layout), in its column.
pub open spec fn dotted(prefix: Seq<char>, n: nat) -> Seq<char> {
    col(prefix + dec(n), 10)
}

/// Registers one after another, each in its column.
pub open spec fn regs_cols(rs: Seq<Reg>) -> Seq<char>
    decreases rs.len(),
{
    if rs.len() == 0 {
        Seq::empty()
    } else {
        regs_cols(rs.drop_last()) + reg_col(rs.last())
    }
}

/// A format string's pieces: a literal as its string id, a value as its register.
pub open spec fn parts_cols(ps: Seq<OpFormatPart>) -> Seq<char>
    decreases ps.len(),
{
    if ps.len() == 0 {
        Seq::empty()
    } else {
        parts_cols(ps.drop_last()) + match ps.last() {
            OpFormatPart::Literal(s) => dotted("."@, s.0 as nat),
            OpFormatPart::Value(r) => reg_col(r),
        }
    }
}

/// A switch's arms, each as ` value=target` with its value counted from `base`.
pub open spec fn arms_cols(base: nat, table: Seq<BlockTarget>) -> Seq<char>
    decreases table.len(),
{
    if table.len() == 0 {
        Seq::empty()
    } else {
        arms_cols(base, table.drop_last()) + " "@ + dec((base + table.len() - 1) as nat) + "="@ + target_col(table.last())
    }
}

/// A binary operator as `Debug` writes it, in lower case.
pub open spec fn bin_debug(op: BinOp) -> Seq<char> {
    match op {
        BinOp::Add => "add"@,
        BinOp::Sub => "sub"@,
        BinOp::Mult => "mult"@,
        BinOp::Div => "div"@,
        BinOp::IDiv => "idiv"@,
        BinOp::Mod => "mod"@,
        BinOp::Identity => "identity"@,
        BinOp::NotEqual => "notequal"@,
        BinOp::LessThan => "lessthan"@,
        BinOp::LessEqual => "lessequal"@,
        BinOp::GreaterThan => "greaterthan"@,
        BinOp::GreaterEqual => "greaterequal"@,
        BinOp::And => "and"@,
        BinOp::Or => "or"@,
        BinOp::Xor => "xor"@,
        BinOp::BitAnd => "bitand"@,
        BinOp::BitOr => "bitor"@,
        BinOp::BitXor => "bitxor"@,
        BinOp::BitShiftLeft => "bitshiftleft"@,
        BinOp::BitShiftRight => "bitshiftright"@,
        BinOp::Coalesce => "coalesce"@,
    }
}

/// A unary operator as `Debug` writes it, in lower case.
pub open spec fn unary_debug(op: UnaryOp) -> Seq<char> {
    match op {
        UnaryOp::Not => "not"@,
        UnaryOp::BitwiseNot => "bitwisenot"@,
        UnaryOp::Positive => "positive"@,
        UnaryOp::Negative => "negative"@,
    }
}

/// A switch's arm values fit `u32`.
pub open spec fn switch_fits(op: Op) -> bool {
    op matches Op::Switch { base, table, .. } ==> base + table@.len() <= u32::MAX + 1
}

/// The text a bytecode dump shows for an op, without colour. A float immediate, or a constant
/// that holds a float, has none here: floats are written only outside the library.
pub open spec fn op_plain_text(op: Op) -> Option<Seq<char>> {
    match op {
        Op::Move { dst, src, .. } => Some(name_col("move"@) + reg_col(dst) + reg_col(src)),
        Op::NewArray { dst, .. } => Some(name_col("new_array"@) + reg_col(dst)),
        Op::NewDict { dst, .. } => Some(name_col("new_dict"@) + reg_col(dst)),
        Op::NewInstance { dst, adt, fields, .. } => Some(name_col("instance"@) + reg_col(dst) + dotted("$"@, adt.0 as nat) + regs_cols(fields@)),
        Op::NewClosure { dst, body, captures, .. } => Some(name_col("new_closure"@) + reg_col(dst) + dotted("@"@, body.0 as nat) + regs_cols(captures@)),
        Op::Push { array, value, .. } => Some(name_col("push"@) + reg_col(array) + reg_col(value)),
        Op::Insert { dict, key, value, .. } => Some(name_col("insert"@) + reg_col(dict) + dotted("."@, key.0 as nat) + reg_col(value)),
        Op::SetIndex { set, index, value, .. } => Some(name_col("set_index"@) + reg_col(set) + reg_col(index) + reg_col(value)),
        Op::SetField { receiver, slot, value, .. } => Some(name_col("set_field"@) + reg_col(receiver) + "."@ + dec(slot as nat) + reg_col(value)),
        Op::LoadBody { dst, body, .. } => Some(name_col("load_body"@) + reg_col(dst) + dotted("@"@, body.0 as nat)),
        Op::LoadConst { dst, constant } => match const_text(constant.model()) {
            Some(t) => Some(name_col("load_const"@) + reg_col(dst) + col(t, 10)),
            None => None,
        },
        Op::Jump { target, .. } => Some(name_col("jump"@) + target_col(target)),
        Op::JumpIf { is_true, cond, target, .. } => Some(name_col(if is_true { "jump_if_true"@ } else { "jump_if_false"@ }) + reg_col(cond) + target_col(target)),
        Op::ForNext { idx, bound, target, .. } => Some(name_col("for_next"@) + reg_col(idx) + reg_col(bound) + target_col(target)),
        Op::Switch { scrut, base, default, table } => Some(name_col("switch"@) + reg_col(scrut) + arms_cols(base as nat, table@) + " else"@ + target_col(default)),
        Op::Call { dst, callee, args, .. } => Some(name_col("call"@) + reg_col(dst) + reg_col(callee) + regs_cols(args@)),
        Op::CallDirect { dst, body, args, .. } => Some(name_col("call_direct"@) + reg_col(dst) + dotted("@"@, body.0 as nat) + regs_cols(args@)),
        Op::CallNative { dst, id, args, .. } => Some(name_col("call_native"@) + reg_col(dst) + "#"@ + dec(id.0 as nat) + regs_cols(args@)),
        Op::Return { val, .. } => Some(name_col("return"@) + reg_col(val)),
        Op::Panic { .. } => Some("panic"@),
        Op::Raise { val, .. } => Some(name_col("raise"@) + reg_col(val)),
        Op::IsRaised { dst, src, .. } => Some(name_col("is_raised"@) + reg_col(dst) + reg_col(src)),
        Op::UnwrapRaised { dst, src, .. } => Some(name_col("unwrap_raised"@) + reg_col(dst) + reg_col(src)),
        Op::Unwrap { dst, src, .. } => Some(name_col("unwrap"@) + reg_col(dst) + reg_col(src)),
        Op::GetIndex { dst, set, index, kind, .. } => Some(name_col("get_index"@) + reg_col(dst) + reg_col(set) + reg_col(index) + access_mark(kind)),
        Op::GetField { dst, src, slot, kind, .. } => Some(name_col("get_field"@) + reg_col(dst) + reg_col(src) + "."@ + dec(slot as nat) + access_mark(kind)),
        Op::Len { dst, src, .. } => Some(name_col("len"@) + reg_col(dst) + reg_col(src)),
        Op::ToFloat { dst, src, .. } => Some(name_col("to_float"@) + reg_col(dst) + reg_col(src)),
        Op::Sqrt { dst, src, .. } => Some(name_col("sqrt"@) + reg_col(dst) + reg_col(src)),
        Op::In { condition, dst, needle, haystack, .. } => Some(name_col(if condition { "in"@ } else { "!in"@ }) + reg_col(dst) + reg_col(needle) + reg_col(haystack)),
        Op::IsInstance { dst, src, adt, .. } => Some("is_instance "@ + reg_col(dst) + " = "@ + reg_col(src) + " @"@ + dec(adt.0 as nat)),
        Op::Format { dst, parts, .. } => Some(name_col("format"@) + reg_col(dst) + parts_cols(parts@)),
        Op::Bin { op, dst, left, right, .. } => Some(name_col("bin ("@ + bin_debug(op) + ")"@) + reg_col(dst) + reg_col(left) + reg_col(right)),
        Op::Unary { op, dst, src, .. } => Some(name_col("unary ("@ + unary_debug(op) + ")"@) + reg_col(dst) + reg_col(src)),
        Op::BoolEq { dst, left, right, .. } => Some(name_col("bool_eq"@) + reg_col(dst) + reg_col(left) + reg_col(right)),
        Op::BoolNe { dst, left, right, .. } => Some(name_col("bool_ne"@) + reg_col(dst) + reg_col(left) + reg_col(right)),
        Op::AddInt { dst, left, right, .. } => Some(name_col("add_int"@) + reg_col(dst) + reg_col(left) + reg_col(right)),
        Op::SubInt { dst, left, right, .. } => Some(name_col("sub_int"@) + reg_col(dst) + reg_col(left) + reg_col(right)),
        Op::MultInt { dst, left, right, .. } => Some(name_col("mult_int"@) + reg_col(dst) + reg_col(left) + reg_col(right)),
        Op::ModInt { dst, left, right, .. } => Some(name_col("mod_int"@) + reg_col(dst) + reg_col(left) + reg_col(right)),
        Op::IntLt { dst, left, right, .. } => Some(name_col("int_lt"@) + reg_col(dst) + reg_col(left) + reg_col(right)),
        Op::IntLe { dst, left, right, .. } => Some(name_col("int_le"@) + reg_col(dst) + reg_col(left) + reg_col(right)),
        Op::IntGt { dst, left, right, .. } => Some(name_col("int_gt"@) + reg_col(dst) + reg_col(left) + reg_col(right)),
        Op::IntGe { dst, left, right, .. } => Some(name_col("int_ge"@) + reg_col(dst) + reg_col(left) + reg_col(right)),
        Op::IntEq { dst, left, right, .. } => Some(name_col("int_eq"@) + reg_col(dst) + reg_col(left) + reg_col(right)),
        Op::IntNe { dst, left, right, .. } => Some(name_col("int_ne"@) + reg_col(dst) + reg_col(left) + reg_col(right)),
        Op::AddIntImm { dst, left, val, .. } => Some(name_col("add_int_imm"@) + reg_col(dst) + reg_col(left) + col(signed(val), 10)),
        Op::SubIntImm { dst, left, val, .. } => Some(name_col("sub_int_imm"@) + reg_col(dst) + reg_col(left) + col(signed(val), 10)),
        Op::MultIntImm { dst, left, val, .. } => Some(name_col("mult_int_imm"@) + reg_col(dst) + reg_col(left) + col(signed(val), 10)),
        Op::ModIntImm { dst, left, val, .. } => Some(name_col("mod_int_imm"@) + reg_col(dst) + reg_col(left) + col(signed(val), 10)),
        Op::IntLtImm { dst, left, val, .. } => Some(name_col("int_lt_imm"@) + reg_col(dst) + reg_col(left) + col(signed(val), 10)),
        Op::IntLeImm { dst, left, val, .. } => Some(name_col("int_le_imm"@) + reg_col(dst) + reg_col(left) + col(signed(val), 10)),
        Op::IntGtImm { dst, left, val, .. } => Some(name_col("int_gt_imm"@) + reg_col(dst) + reg_col(left) + col(signed(val), 10)),
        Op::IntGeImm { dst, left, val, .. } => Some(name_col("int_ge_imm"@) + reg_col(dst) + reg_col(left) + col(signed(val), 10)),
        Op::IntEqImm { dst, left, val, .. } => Some(name_col("int_eq_imm"@) + reg_col(dst) + reg_col(left) + col(signed(val), 10)),
        Op::IntNeImm { dst, left, val, .. } => Some(name_col("int_ne_imm"@) + reg_col(dst) + reg_col(left) + col(signed(val), 10)),
        Op::BIntLt { is_true, target, left, right, .. } => Some(name_col(if is_true { "bint_lt_true"@ } else { "bint_lt_false"@ }) + target_col(target) + reg_col(left) + reg_col(right)),
        Op::BIntLe { is_true, target, left, right, .. } => Some(name_col(if is_true { "bint_le_true"@ } else { "bint_le_false"@ }) + target_col(target) + reg_col(left) + reg_col(right)),
        Op::BIntGt { is_true, target, left, right, .. } => Some(name_col(if is_true { "bint_gt_true"@ } else { "bint_gt_false"@ }) + target_col(target) + reg_col(left) + reg_col(right)),
        Op::BIntGe { is_true, target, left, right, .. } => Some(name_col(if is_true { "bint_ge_true"@ } else { "bint_ge_false"@ }) + target_col(target) + reg_col(left) + reg_col(right)),
        Op::BIntEq { is_true, target, left, right, .. } => Some(name_col(if is_true { "bint_eq_true"@ } else { "bint_eq_false"@ }) + target_col(target) + reg_col(left) + reg_col(right)),
        Op::BIntNe { is_true, target, left, right, .. } => Some(name_col(if is_true { "bint_ne_true"@ } else { "bint_ne_false"@ }) + target_col(target) + reg_col(left) + reg_col(right)),
        Op::BIntLtImm { is_true, target, left, val, .. } => Some(name_col(if is_true { "bint_lt_imm_true"@ } else { "bint_lt_imm_false"@ }) + target_col(target) + reg_col(left) + col(signed(val), 10)),
        Op::BIntLeImm { is_true, target, left, val, .. } => Some(name_col(if is_true { "bint_le_imm_true"@ } else { "bint_le_imm_false"@ }) + target_col(target) + reg_col(left) + col(signed(val), 10)),
        Op::BIntGtImm { is_true, target, left, val, .. } => Some(name_col(if is_true { "bint_gt_imm_true"@ } else { "bint_gt_imm_false"@ }) + target_col(target) + reg_col(left) + col(signed(val), 10)),
        Op::BIntGeImm { is_true, target, left, val, .. } => Some(name_col(if is_true { "bint_ge_imm_true"@ } else { "bint_ge_imm_false"@ }) + target_col(target) + reg_col(left) + col(signed(val), 10)),
        Op::BIntEqImm { is_true, target, left, val, .. } => Some(name_col(if is_true { "bint_eq_imm_true"@ } else { "bint_eq_imm_false"@ }) + target_col(target) + reg_col(left) + col(signed(val), 10)),
        Op::BIntNeImm { is_true, target, left, val, .. } => Some(name_col(if is_true { "bint_ne_imm_true"@ } else { "bint_ne_imm_false"@ }) + target_col(target) + reg_col(left) + col(signed(val), 10)),
        Op::AddFloat { dst, left, right, .. } => Some(name_col("add_float"@) + reg_col(dst) + reg_col(left) + reg_col(right)),
        Op::SubFloat { dst, left, right, .. } => Some(name_col("sub_float"@) + reg_col(dst) + reg_col(left) + reg_col(right)),
        Op::MultFloat { dst, left, right, .. } => Some(name_col("mult_float"@) + reg_col(dst) + reg_col(left) + reg_col(right)),
        Op::DivFloat { dst, left, right, .. } => Some(name_col("div_float"@) + reg_col(dst) + reg_col(left) + reg_col(right)),
        Op::FloatLt { dst, left, right, .. } => Some(name_col("float_lt"@) + reg_col(dst) + reg_col(left) + reg_col(right)),
        Op::FloatLe { dst, left, right, .. } => Some(name_col("float_le"@) + reg_col(dst) + reg_col(left) + reg_col(right)),
        Op::FloatGt { dst, left, right, .. } => Some(name_col("float_gt"@) + reg_col(dst) + reg_col(left) + reg_col(right)),
        Op::FloatGe { dst, left, right, .. } => Some(name_col("float_ge"@) + reg_col(dst) + reg_col(left) + reg_col(right)),
        Op::FloatEq { dst, left, right, .. } => Some(name_col("float_eq"@) + reg_col(dst) + reg_col(left) + reg_col(right)),
        Op::FloatNe { dst, left, right, .. } => Some(name_col("float_ne"@) + reg_col(dst) + reg_col(left) + reg_col(right)),
        Op::AddFloatImm { .. } => None,
        Op::SubFloatImm { .. } => None,
        Op::MultFloatImm { .. } => None,
        Op::ModFloatImm { .. } => None,
        Op::FloatLtImm { .. } => None,
        Op::FloatLeImm { .. } => None,
        Op::FloatGtImm { .. } => None,
        Op::FloatGeImm { .. } => None,
        Op::FloatEqImm { .. } => None,
        Op::FloatNeImm { .. } => None,
        Op::BFloatLt { is_true, target, left, right, .. } => Some(name_col(if is_true { "bfloat_lt_true"@ } else { "bfloat_lt_false"@ }) + target_col(target) + reg_col(left) + reg_col(right)),
        Op::BFloatLe { is_true, target, left, right, .. } => Some(name_col(if is_true { "bfloat_le_true"@ } else { "bfloat_le_false"@ }) + target_col(target) + reg_col(left) + reg_col(right)),
        Op::BFloatGt { is_true, target, left, right, .. } => Some(name_col(if is_true { "bfloat_gt_true"@ } else { "bfloat_gt_false"@ }) + target_col(target) + reg_col(left) + reg_col(right)),
        Op::BFloatGe { is_true, target, left, right, .. } => Some(name_col(if is_true { "bfloat_ge_true"@ } else { "bfloat_ge_false"@ }) + target_col(target) + reg_col(left) + reg_col(right)),
        Op::BFloatEq { is_true, target, left, right, .. } => Some(name_col(if is_true { "bfloat_eq_true"@ } else { "bfloat_eq_false"@ }) + target_col(target) + reg_col(left) + reg_col(right)),
        Op::BFloatNe { is_true, target, left, right, .. } => Some(name_col(if is_true { "bfloat_ne_true"@ } else { "bfloat_ne_false"@ }) + target_col(target) + reg_col(left) + reg_col(right)),
        Op::BFloatLtImm { .. } => None,
        Op::BFloatLeImm { .. } => None,
        Op::BFloatGtImm { .. } => None,
        Op::BFloatGeImm { .. } => None,
        Op::BFloatEqImm { .. } => None,
        Op::BFloatNeImm { .. } => None,
        Op::StrEq { dst, left, right, .. } => Some(name_col("str_eq"@) + reg_col(dst) + reg_col(left) + reg_col(right)),
        Op::StrNe { dst, left, right, .. } => Some(name_col("str_ne"@) + reg_col(dst) + reg_col(left) + reg_col(right)),
    }
}

/// `s` padded with spaces to `w` characters.
fn pad(s: String, w: usize) -> (r: String)
    ensures
        r@ == col(s@, w as nat),
{
    let n = s.as_str().unicode_len();
    let mut r = s;
    if n < w {
        let mut k: usize = n;
        while k < w
            invariant
                n <= k <= w,
                n == s@.len(),
                r@ == s@ + spaces((k - n) as nat),
            decreases w - k,
        {
            r.append(" ");
            k += 1;
            proof {
                reveal_strlit(" ");
            }
            assert(r@ =~= s@ + spaces((k - n) as nat));
        }
    }
    r
}

fn name_text(s: &str) -> (r: String)
    ensures
        r@ == name_col(s@),
{
    pad(String::from_str(s), 18)
}

fn name_text_owned(s: String) -> (r: String)
    ensures
        r@ == name_col(s@),
{
    pad(s, 18)
}

fn reg_text(r: Reg) -> (s: String)
    ensures
        s@ == reg_col(r),
{
    pad(String::from_str("r").concat(crate::cli::decimal_text(r.0 as u64).as_str()), 10)
}

fn target_text(t: BlockTarget) -> (s: String)
    ensures
        s@ == target_col(t),
{
    match t {
        BlockTarget::Block(b) => pad(String::from_str("b").concat(crate::cli::decimal_text(b.0 as u64).as_str()), 10),
        BlockTarget::ByteOffset(o) => {
            let r = four_digits_text(o).concat("      ");
            proof {
                reveal_strlit("      ");
                assert("      "@ =~= spaces(6));
            }
            r
        },
    }
}

fn four_digits_text(o: usize) -> (s: String)
    ensures
        s@ == four_digits(o as nat),
{
    let d = crate::cli::decimal_text(o as u64);
    let n = d.as_str().unicode_len();
    let mut z = String::new();
    let mut k: usize = n;
    while k < 4
        invariant
            n == d@.len(),
            n <= 4 ==> n <= k <= 4,
            n > 4 ==> k == n,
            z@ == Seq::new((k - n) as nat, |i: int| '0'),
        decreases 4 - k,
    {
        z.append("0");
        k += 1;
        proof {
            reveal_strlit("0");
        }
        assert(z@ =~= Seq::new((k - n) as nat, |i: int| '0'));
    }
    proof {
        if n >= 4 {
            assert(z@ =~= Seq::<char>::empty());
        }
    }
    z.concat(d.as_str())
}

fn dotted_text(prefix: &str, n: u32) -> (s: String)
    ensures
        s@ == dotted(prefix@, n as nat),
{
    pad(String::from_str(prefix).concat(crate::cli::decimal_text(n as u64).as_str()), 10)
}

fn regs_texts(rs: &Vec<Reg>) -> (s: String)
    ensures
        s@ == regs_cols(rs@),
{
    let mut s = String::new();
    let mut i: usize = 0;
    while i < rs.len()
        invariant
            i <= rs@.len(),
            s@ == regs_cols(rs@.take(i as int)),
        decreases rs@.len() - i,
    {
        assert(rs@.take(i + 1).drop_last() =~= rs@.take(i as int));
        s.append(reg_text(rs[i]).as_str());
        i += 1;
    }
    assert(rs@.take(i as int) =~= rs@);
    s
}

fn parts_texts(ps: &Vec<OpFormatPart>) -> (s: String)
    ensures
        s@ == parts_cols(ps@),
{
    let mut s = String::new();
    let mut i: usize = 0;
    while i < ps.len()
        invariant
            i <= ps@.len(),
            s@ == parts_cols(ps@.take(i as int)),
        decreases ps@.len() - i,
    {
        assert(ps@.take(i + 1).drop_last() =~= ps@.take(i as int));
        let t = match ps[i] {
            OpFormatPart::Literal(x) => dotted_text(".", x.0),
            OpFormatPart::Value(r) => reg_text(r),
        };
        s.append(t.as_str());
        i += 1;
    }
    assert(ps@.take(i as int) =~= ps@);
    s
}

fn arms_texts(base: u32, table: &Vec<BlockTarget>) -> (s: String)
    requires
        base + table@.len() <= u32::MAX + 1,
    ensures
        s@ == arms_cols(base as nat, table@),
{
    let mut s = String::new();
    let mut i: usize = 0;
    while i < table.len()
        invariant
            i <= table@.len(),
            base + table@.len() <= u32::MAX + 1,
            s@ == arms_cols(base as nat, table@.take(i as int)),
        decreases table@.len() - i,
    {
        assert(table@.take(i + 1).drop_last() =~= table@.take(i as int));
        let v = base + i as u32;
        s.append(" ");
        s.append(crate::cli::decimal_text(v as u64).as_str());
        s.append("=");
        s.append(target_text(table[i]).as_str());
        i += 1;
    }
    assert(table@.take(i as int) =~= table@);
    s
}

fn bin_debug_text(op: BinOp) -> (s: &'static str)
    ensures
        s@ == bin_debug(op),
{
    match op {
        BinOp::Add => "add",
        BinOp::Sub => "sub",
        BinOp::Mult => "mult",
        BinOp::Div => "div",
        BinOp::IDiv => "idiv",
        BinOp::Mod => "mod",
        BinOp::Identity => "identity",
        BinOp::NotEqual => "notequal",
        BinOp::LessThan => "lessthan",
        BinOp::LessEqual => "lessequal",
        BinOp::GreaterThan => "greaterthan",
        BinOp::GreaterEqual => "greaterequal",
        BinOp::And => "and",
        BinOp::Or => "or",
        BinOp::Xor => "xor",
        BinOp::BitAnd => "bitand",
        BinOp::BitOr => "bitor",
        BinOp::BitXor => "bitxor",
        BinOp::BitShiftLeft => "bitshiftleft",
        BinOp::BitShiftRight => "bitshiftright",
        BinOp::Coalesce => "coalesce",
    }
}

fn unary_debug_text(op: UnaryOp) -> (s: &'static str)
    ensures
        s@ == unary_debug(op),
{
    match op {
        UnaryOp::Not => "not",
        UnaryOp::BitwiseNot => "bitwisenot",
        UnaryOp::Positive => "positive",
        UnaryOp::Negative => "negative",
    }
}

/// The text a bytecode dump shows for `op` (see [`op_plain_text`]); `None` for a float
/// immediate or a constant that holds a float, whose text is written outside the library.
#[verifier::rlimit(40)]
pub fn op_text(op: &Op) -> (s: Option<String>)
    requires
        switch_fits(*op),
    ensures
        match op_plain_text(*op) {
            Some(t) => s matches Some(x) && x@ == t,
            None => s is None,
        },
{
    match op {
        Op::Move { dst, src, .. } => Some(name_text("move").concat(reg_text(*dst).as_str()).concat(reg_text(*src).as_str())),
        Op::NewArray { dst, .. } => Some(name_text("new_array").concat(reg_text(*dst).as_str())),
        Op::NewDict { dst, .. } => Some(name_text("new_dict").concat(reg_text(*dst).as_str())),
        Op::NewInstance { dst, adt, fields, .. } => Some(name_text("instance").concat(reg_text(*dst).as_str()).concat(dotted_text("$", adt.0).as_str()).concat(regs_texts(fields).as_str())),
        Op::NewClosure { dst, body, captures, .. } => Some(name_text("new_closure").concat(reg_text(*dst).as_str()).concat(dotted_text("@", body.0).as_str()).concat(regs_texts(captures).as_str())),
        Op::Push { array, value, .. } => Some(name_text("push").concat(reg_text(*array).as_str()).concat(reg_text(*value).as_str())),
        Op::Insert { dict, key, value, .. } => Some(name_text("insert").concat(reg_text(*dict).as_str()).concat(dotted_text(".", key.0).as_str()).concat(reg_text(*value).as_str())),
        Op::SetIndex { set, index, value, .. } => Some(name_text("set_index").concat(reg_text(*set).as_str()).concat(reg_text(*index).as_str()).concat(reg_text(*value).as_str())),
        Op::SetField { receiver, slot, value, .. } => Some(name_text("set_field").concat(reg_text(*receiver).as_str()).concat(String::from_str(".").as_str()).concat(crate::cli::decimal_text(*slot as u64).as_str()).concat(reg_text(*value).as_str())),
        Op::LoadBody { dst, body, .. } => Some(name_text("load_body").concat(reg_text(*dst).as_str()).concat(dotted_text("@", body.0).as_str())),
        Op::LoadConst { dst, constant } => match constant_text(constant) {
            Some(t) => Some(name_text("load_const").concat(reg_text(*dst).as_str()).concat(pad(t, 10).as_str())),
            None => None,
        },
        Op::Jump { target, .. } => Some(name_text("jump").concat(target_text(*target).as_str())),
        Op::JumpIf { is_true, cond, target, .. } => Some(name_text(if *is_true { "jump_if_true" } else { "jump_if_false" }).concat(reg_text(*cond).as_str()).concat(target_text(*target).as_str())),
        Op::ForNext { idx, bound, target, .. } => Some(name_text("for_next").concat(reg_text(*idx).as_str()).concat(reg_text(*bound).as_str()).concat(target_text(*target).as_str())),
        Op::Switch { scrut, base, default, table } => Some(name_text("switch").concat(reg_text(*scrut).as_str()).concat(arms_texts(*base, table).as_str()).concat(" else").concat(target_text(*default).as_str())),
        Op::Call { dst, callee, args, .. } => Some(name_text("call").concat(reg_text(*dst).as_str()).concat(reg_text(*callee).as_str()).concat(regs_texts(args).as_str())),
        Op::CallDirect { dst, body, args, .. } => Some(name_text("call_direct").concat(reg_text(*dst).as_str()).concat(dotted_text("@", body.0).as_str()).concat(regs_texts(args).as_str())),
        Op::CallNative { dst, id, args, .. } => Some(name_text("call_native").concat(reg_text(*dst).as_str()).concat(String::from_str("#").as_str()).concat(crate::cli::decimal_text(id.0 as u64).as_str()).concat(regs_texts(args).as_str())),
        Op::Return { val, .. } => Some(name_text("return").concat(reg_text(*val).as_str())),
        Op::Panic { .. } => Some(String::from_str("panic")),
        Op::Raise { val, .. } => Some(name_text("raise").concat(reg_text(*val).as_str())),
        Op::IsRaised { dst, src, .. } => Some(name_text("is_raised").concat(reg_text(*dst).as_str()).concat(reg_text(*src).as_str())),
        Op::UnwrapRaised { dst, src, .. } => Some(name_text("unwrap_raised").concat(reg_text(*dst).as_str()).concat(reg_text(*src).as_str())),
        Op::Unwrap { dst, src, .. } => Some(name_text("unwrap").concat(reg_text(*dst).as_str()).concat(reg_text(*src).as_str())),
        Op::GetIndex { dst, set, index, kind, .. } => Some(name_text("get_index").concat(reg_text(*dst).as_str()).concat(reg_text(*set).as_str()).concat(reg_text(*index).as_str()).concat(String::from_str(mark_text(*kind)).as_str())),
        Op::GetField { dst, src, slot, kind, .. } => Some(name_text("get_field").concat(reg_text(*dst).as_str()).concat(reg_text(*src).as_str()).concat(String::from_str(".").as_str()).concat(crate::cli::decimal_text(*slot as u64).as_str()).concat(String::from_str(mark_text(*kind)).as_str())),
        Op::Len { dst, src, .. } => Some(name_text("len").concat(reg_text(*dst).as_str()).concat(reg_text(*src).as_str())),
        Op::ToFloat { dst, src, .. } => Some(name_text("to_float").concat(reg_text(*dst).as_str()).concat(reg_text(*src).as_str())),
        Op::Sqrt { dst, src, .. } => Some(name_text("sqrt").concat(reg_text(*dst).as_str()).concat(reg_text(*src).as_str())),
        Op::In { condition, dst, needle, haystack, .. } => Some(name_text(if *condition { "in" } else { "!in" }).concat(reg_text(*dst).as_str()).concat(reg_text(*needle).as_str()).concat(reg_text(*haystack).as_str())),
        Op::IsInstance { dst, src, adt, .. } => Some(String::from_str("is_instance ").concat(reg_text(*dst).as_str()).concat(String::from_str(" = ").as_str()).concat(reg_text(*src).as_str()).concat(String::from_str(" @").as_str()).concat(crate::cli::decimal_text(adt.0 as u64).as_str())),
        Op::Format { dst, parts, .. } => Some(name_text("format").concat(reg_text(*dst).as_str()).concat(parts_texts(parts).as_str())),
        Op::Bin { op, dst, left, right, .. } => Some(name_text_owned(String::from_str("bin (").concat(bin_debug_text(*op)).concat(")")).concat(reg_text(*dst).as_str()).concat(reg_text(*left).as_str()).concat(reg_text(*right).as_str())),
        Op::Unary { op, dst, src, .. } => Some(name_text_owned(String::from_str("unary (").concat(unary_debug_text(*op)).concat(")")).concat(reg_text(*dst).as_str()).concat(reg_text(*src).as_str())),
        Op::BoolEq { dst, left, right, .. } => Some(name_text("bool_eq").concat(reg_text(*dst).as_str()).concat(reg_text(*left).as_str()).concat(reg_text(*right).as_str())),
        Op::BoolNe { dst, left, right, .. } => Some(name_text("bool_ne").concat(reg_text(*dst).as_str()).concat(reg_text(*left).as_str()).concat(reg_text(*right).as_str())),
        Op::AddInt { dst, left, right, .. } => Some(name_text("add_int").concat(reg_text(*dst).as_str()).concat(reg_text(*left).as_str()).concat(reg_text(*right).as_str())),
        Op::SubInt { dst, left, right, .. } => Some(name_text("sub_int").concat(reg_text(*dst).as_str()).concat(reg_text(*left).as_str()).concat(reg_text(*right).as_str())),
        Op::MultInt { dst, left, right, .. } => Some(name_text("mult_int").concat(reg_text(*dst).as_str()).concat(reg_text(*left).as_str()).concat(reg_text(*right).as_str())),
        Op::ModInt { dst, left, right, .. } => Some(name_text("mod_int").concat(reg_text(*dst).as_str()).concat(reg_text(*left).as_str()).concat(reg_text(*right).as_str())),
        Op::IntLt { dst, left, right, .. } => Some(name_text("int_lt").concat(reg_text(*dst).as_str()).concat(reg_text(*left).as_str()).concat(reg_text(*right).as_str())),
        Op::IntLe { dst, left, right, .. } => Some(name_text("int_le").concat(reg_text(*dst).as_str()).concat(reg_text(*left).as_str()).concat(reg_text(*right).as_str())),
        Op::IntGt { dst, left, right, .. } => Some(name_text("int_gt").concat(reg_text(*dst).as_str()).concat(reg_text(*left).as_str()).concat(reg_text(*right).as_str())),
        Op::IntGe { dst, left, right, .. } => Some(name_text("int_ge").concat(reg_text(*dst).as_str()).concat(reg_text(*left).as_str()).concat(reg_text(*right).as_str())),
        Op::IntEq { dst, left, right, .. } => Some(name_text("int_eq").concat(reg_text(*dst).as_str()).concat(reg_text(*left).as_str()).concat(reg_text(*right).as_str())),
        Op::IntNe { dst, left, right, .. } => Some(name_text("int_ne").concat(reg_text(*dst).as_str()).concat(reg_text(*left).as_str()).concat(reg_text(*right).as_str())),
        Op::AddIntImm { dst, left, val, .. } => Some(name_text("add_int_imm").concat(reg_text(*dst).as_str()).concat(reg_text(*left).as_str()).concat(pad(signed_text(*val), 10).as_str())),
        Op::SubIntImm { dst, left, val, .. } => Some(name_text("sub_int_imm").concat(reg_text(*dst).as_str()).concat(reg_text(*left).as_str()).concat(pad(signed_text(*val), 10).as_str())),
        Op::MultIntImm { dst, left, val, .. } => Some(name_text("mult_int_imm").concat(reg_text(*dst).as_str()).concat(reg_text(*left).as_str()).concat(pad(signed_text(*val), 10).as_str())),
        Op::ModIntImm { dst, left, val, .. } => Some(name_text("mod_int_imm").concat(reg_text(*dst).as_str()).concat(reg_text(*left).as_str()).concat(pad(signed_text(*val), 10).as_str())),
        Op::IntLtImm { dst, left, val, .. } => Some(name_text("int_lt_imm").concat(reg_text(*dst).as_str()).concat(reg_text(*left).as_str()).concat(pad(signed_text(*val), 10).as_str())),
        Op::IntLeImm { dst, left, val, .. } => Some(name_text("int_le_imm").concat(reg_text(*dst).as_str()).concat(reg_text(*left).as_str()).concat(pad(signed_text(*val), 10).as_str())),
        Op::IntGtImm { dst, left, val, .. } => Some(name_text("int_gt_imm").concat(reg_text(*dst).as_str()).concat(reg_text(*left).as_str()).concat(pad(signed_text(*val), 10).as_str())),
        Op::IntGeImm { dst, left, val, .. } => Some(name_text("int_ge_imm").concat(reg_text(*dst).as_str()).concat(reg_text(*left).as_str()).concat(pad(signed_text(*val), 10).as_str())),
        Op::IntEqImm { dst, left, val, .. } => Some(name_text("int_eq_imm").concat(reg_text(*dst).as_str()).concat(reg_text(*left).as_str()).concat(pad(signed_text(*val), 10).as_str())),
        Op::IntNeImm { dst, left, val, .. } => Some(name_text("int_ne_imm").concat(reg_text(*dst).as_str()).concat(reg_text(*left).as_str()).concat(pad(signed_text(*val), 10).as_str())),
        Op::BIntLt { is_true, target, left, right, .. } => Some(name_text(if *is_true { "bint_lt_true" } else { "bint_lt_false" }).concat(target_text(*target).as_str()).concat(reg_text(*left).as_str()).concat(reg_text(*right).as_str())),
        Op::BIntLe { is_true, target, left, right, .. } => Some(name_text(if *is_true { "bint_le_true" } else { "bint_le_false" }).concat(target_text(*target).as_str()).concat(reg_text(*left).as_str()).concat(reg_text(*right).as_str())),
        Op::BIntGt { is_true, target, left, right, .. } => Some(name_text(if *is_true { "bint_gt_true" } else { "bint_gt_false" }).concat(target_text(*target).as_str()).concat(reg_text(*left).as_str()).concat(reg_text(*right).as_str())),
        Op::BIntGe { is_true, target, left, right, .. } => Some(name_text(if *is_true { "bint_ge_true" } else { "bint_ge_false" }).concat(target_text(*target).as_str()).concat(reg_text(*left).as_str()).concat(reg_text(*right).as_str())),
        Op::BIntEq { is_true, target, left, right, .. } => Some(name_text(if *is_true { "bint_eq_true" } else { "bint_eq_false" }).concat(target_text(*target).as_str()).concat(reg_text(*left).as_str()).concat(reg_text(*right).as_str())),
        Op::BIntNe { is_true, target, left, right, .. } => Some(name_text(if *is_true { "bint_ne_true" } else { "bint_ne_false" }).concat(target_text(*target).as_str()).concat(reg_text(*left).as_str()).concat(reg_text(*right).as_str())),
        Op::BIntLtImm { is_true, target, left, val, .. } => Some(name_text(if *is_true { "bint_lt_imm_true" } else { "bint_lt_imm_false" }).concat(target_text(*target).as_str()).concat(reg_text(*left).as_str()).concat(pad(signed_text(*val), 10).as_str())),
        Op::BIntLeImm { is_true, target, left, val, .. } => Some(name_text(if *is_true { "bint_le_imm_true" } else { "bint_le_imm_false" }).concat(target_text(*target).as_str()).concat(reg_text(*left).as_str()).concat(pad(signed_text(*val), 10).as_str())),
        Op::BIntGtImm { is_true, target, left, val, .. } => Some(name_text(if *is_true { "bint_gt_imm_true" } else { "bint_gt_imm_false" }).concat(target_text(*target).as_str()).concat(reg_text(*left).as_str()).concat(pad(signed_text(*val), 10).as_str())),
        Op::BIntGeImm { is_true, target, left, val, .. } => Some(name_text(if *is_true { "bint_ge_imm_true" } else { "bint_ge_imm_false" }).concat(target_text(*target).as_str()).concat(reg_text(*left).as_str()).concat(pad(signed_text(*val), 10).as_str())),
        Op::BIntEqImm { is_true, target, left, val, .. } => Some(name_text(if *is_true { "bint_eq_imm_true" } else { "bint_eq_imm_false" }).concat(target_text(*target).as_str()).concat(reg_text(*left).as_str()).concat(pad(signed_text(*val), 10).as_str())),
        Op::BIntNeImm { is_true, target, left, val, .. } => Some(name_text(if *is_true { "bint_ne_imm_true" } else { "bint_ne_imm_false" }).concat(target_text(*target).as_str()).concat(reg_text(*left).as_str()).concat(pad(signed_text(*val), 10).as_str())),
        Op::AddFloat { dst, left, right, .. } => Some(name_text("add_float").concat(reg_text(*dst).as_str()).concat(reg_text(*left).as_str()).concat(reg_text(*right).as_str())),
        Op::SubFloat { dst, left, right, .. } => Some(name_text("sub_float").concat(reg_text(*dst).as_str()).concat(reg_text(*left).as_str()).concat(reg_text(*right).as_str())),
        Op::MultFloat { dst, left, right, .. } => Some(name_text("mult_float").concat(reg_text(*dst).as_str()).concat(reg_text(*left).as_str()).concat(reg_text(*right).as_str())),
        Op::DivFloat { dst, left, right, .. } => Some(name_text("div_float").concat(reg_text(*dst).as_str()).concat(reg_text(*left).as_str()).concat(reg_text(*right).as_str())),
        Op::FloatLt { dst, left, right, .. } => Some(name_text("float_lt").concat(reg_text(*dst).as_str()).concat(reg_text(*left).as_str()).concat(reg_text(*right).as_str())),
        Op::FloatLe { dst, left, right, .. } => Some(name_text("float_le").concat(reg_text(*dst).as_str()).concat(reg_text(*left).as_str()).concat(reg_text(*right).as_str())),
        Op::FloatGt { dst, left, right, .. } => Some(name_text("float_gt").concat(reg_text(*dst).as_str()).concat(reg_text(*left).as_str()).concat(reg_text(*right).as_str())),
        Op::FloatGe { dst, left, right, .. } => Some(name_text("float_ge").concat(reg_text(*dst).as_str()).concat(reg_text(*left).as_str()).concat(reg_text(*right).as_str())),
        Op::FloatEq { dst, left, right, .. } => Some(name_text("float_eq").concat(reg_text(*dst).as_str()).concat(reg_text(*left).as_str()).concat(reg_text(*right).as_str())),
        Op::FloatNe { dst, left, right, .. } => Some(name_text("float_ne").concat(reg_text(*dst).as_str()).concat(reg_text(*left).as_str()).concat(reg_text(*right).as_str())),
        Op::AddFloatImm { .. } => None,
        Op::SubFloatImm { .. } => None,
        Op::MultFloatImm { .. } => None,
        Op::ModFloatImm { .. } => None,
        Op::FloatLtImm { .. } => None,
        Op::FloatLeImm { .. } => None,
        Op::FloatGtImm { .. } => None,
        Op::FloatGeImm { .. } => None,
        Op::FloatEqImm { .. } => None,
        Op::FloatNeImm { .. } => None,
        Op::BFloatLt { is_true, target, left, right, .. } => Some(name_text(if *is_true { "bfloat_lt_true" } else { "bfloat_lt_false" }).concat(target_text(*target).as_str()).concat(reg_text(*left).as_str()).concat(reg_text(*right).as_str())),
        Op::BFloatLe { is_true, target, left, right, .. } => Some(name_text(if *is_true { "bfloat_le_true" } else { "bfloat_le_false" }).concat(target_text(*target).as_str()).concat(reg_text(*left).as_str()).concat(reg_text(*right).as_str())),
        Op::BFloatGt { is_true, target, left, right, .. } => Some(name_text(if *is_true { "bfloat_gt_true" } else { "bfloat_gt_false" }).concat(target_text(*target).as_str()).concat(reg_text(*left).as_str()).concat(reg_text(*right).as_str())),
        Op::BFloatGe { is_true, target, left, right, .. } => Some(name_text(if *is_true { "bfloat_ge_true" } else { "bfloat_ge_false" }).concat(target_text(*target).as_str()).concat(reg_text(*left).as_str()).concat(reg_text(*right).as_str())),
        Op::BFloatEq { is_true, target, left, right, .. } => Some(name_text(if *is_true { "bfloat_eq_true" } else { "bfloat_eq_false" }).concat(target_text(*target).as_str()).concat(reg_text(*left).as_str()).concat(reg_text(*right).as_str())),
        Op::BFloatNe { is_true, target, left, right, .. } => Some(name_text(if *is_true { "bfloat_ne_true" } else { "bfloat_ne_false" }).concat(target_text(*target).as_str()).concat(reg_text(*left).as_str()).concat(reg_text(*right).as_str())),
        Op::BFloatLtImm { .. } => None,
        Op::BFloatLeImm { .. } => None,
        Op::BFloatGtImm { .. } => None,
        Op::BFloatGeImm { .. } => None,
        Op::BFloatEqImm { .. } => None,
        Op::BFloatNeImm { .. } => None,
        Op::StrEq { dst, left, right, .. } => Some(name_text("str_eq").concat(reg_text(*dst).as_str()).concat(reg_text(*left).as_str()).concat(reg_text(*right).as_str())),
        Op::StrNe { dst, left, right, .. } => Some(name_text("str_ne").concat(reg_text(*dst).as_str()).concat(reg_text(*left).as_str()).concat(reg_text(*right).as_str())),
    }
}

/// Every op has a text (none is a float immediate or holds a float constant).
pub open spec fn ops_have_text(ops: Seq<Op>) -> bool {
    forall|k: int| 0 <= k < ops.len() ==> op_plain_text(#[trigger] ops[k]) is Some
}

/// A bytecode dump: each op on a line of its own, after its position in four digits or more and
/// four spaces.
pub open spec fn ops_dump(ops: Seq<Op>) -> Seq<char> {
    lines(Seq::new(ops.len(), |k: int| four_digits(k as nat) + "    "@ + op_plain_text(ops[k])->0))
}

/// The bytecode dump of `ops` (see [`ops_dump`]); `None` where an op has no text here.
pub fn ops_text(ops: &Vec<Op>) -> (r: Option<String>)
    requires
        forall|k: int| 0 <= k < ops@.len() ==> switch_fits(#[trigger] ops@[k]),
    ensures
        r is Some <==> ops_have_text(ops@),
        r matches Some(x) ==> x@ == ops_dump(ops@),
{
    let mut texts: Vec<String> = Vec::new();
    let mut k: usize = 0;
    while k < ops.len()
        invariant
            k <= ops@.len(),
            forall|q: int| 0 <= q < ops@.len() ==> switch_fits(#[trigger] ops@[q]),
            forall|q: int| 0 <= q < k ==> op_plain_text(#[trigger] ops@[q]) is Some,
            texts@.map_values(|x: String| x@) == Seq::new(
                k as nat,
                |q: int| four_digits(q as nat) + "    "@ + op_plain_text(ops@[q])->0,
            ),
        decreases ops@.len() - k,
    {
        let t = match op_text(&ops[k]) {
            Some(t) => t,
            None => {
                assert(!ops_have_text(ops@));
                return None;
            },
        };
        let line = four_digits_text(k).concat("    ").concat(t.as_str());
        proof {
            reveal_strlit("    ");
            assert(texts@.push(line).map_values(|x: String| x@) =~= texts@.map_values(|x: String| x@).push(line@));
            assert(Seq::new((k + 1) as nat, |q: int| four_digits(q as nat) + "    "@ + op_plain_text(ops@[q])->0) =~= Seq::new(
                k as nat,
                |q: int| four_digits(q as nat) + "    "@ + op_plain_text(ops@[q])->0,
            ).push(line@));
        }
        texts.push(line);
        k += 1;
    }
    let r = crate::dump::join_lines(&texts);
    proof {
        assert(Seq::new(k as nat, |q: int| four_digits(q as nat) + "    "@ + op_plain_text(ops@[q])->0) =~= Seq::new(
            ops@.len(),
            |q: int| four_digits(q as nat) + "    "@ + op_plain_text(ops@[q])->0,
        ));
    }
    Some(r)
}

/// The operator a lower-case `Debug` name's key stands for.
pub open spec fn bin_debug_of_key(k: (nat, char, char, char)) -> Option<BinOp> {
    if k == (3nat, 'a', 'd', 'd') { Some(BinOp::Add) }
    else if k == (3nat, 's', 'u', 'b') { Some(BinOp::Sub) }
    else if k == (4nat, 'm', 'u', 't') { Some(BinOp::Mult) }
    else if k == (3nat, 'd', 'i', 'v') { Some(BinOp::Div) }
    else if k == (4nat, 'i', 'd', 'v') { Some(BinOp::IDiv) }
    else if k == (3nat, 'm', 'o', 'd') { Some(BinOp::Mod) }
    else if k == (8nat, 'i', 'd', 'y') { Some(BinOp::Identity) }
    else if k == (8nat, 'n', 'o', 'l') { Some(BinOp::NotEqual) }
    else if k == (8nat, 'l', 'e', 'n') { Some(BinOp::LessThan) }
    else if k == (9nat, 'l', 'e', 'l') { Some(BinOp::LessEqual) }
    else if k == (11nat, 'g', 'r', 'n') { Some(BinOp::GreaterThan) }
    else if k == (12nat, 'g', 'r', 'l') { Some(BinOp::GreaterEqual) }
    else if k == (3nat, 'a', 'n', 'd') { Some(BinOp::And) }
    else if k == (2nat, 'o', 'r', 'r') { Some(BinOp::Or) }
    else if k == (3nat, 'x', 'o', 'r') { Some(BinOp::Xor) }
    else if k == (6nat, 'b', 'i', 'd') { Some(BinOp::BitAnd) }
    else if k == (5nat, 'b', 'i', 'r') { Some(BinOp::BitOr) }
    else if k == (6nat, 'b', 'i', 'r') { Some(BinOp::BitXor) }
    else if k == (12nat, 'b', 'i', 't') { Some(BinOp::BitShiftLeft) }
    else if k == (13nat, 'b', 'i', 't') { Some(BinOp::BitShiftRight) }
    else if k == (8nat, 'c', 'o', 'e') { Some(BinOp::Coalesce) }
    else { None }
}

/// Each binary operator has a `Debug` name of its own in a listing: two operators with the same
/// name are the same operator.
pub proof fn lemma_bin_debug_distinct(a: BinOp, b: BinOp)
    ensures
        bin_debug(a) == bin_debug(b) ==> a == b,
{
    lemma_bin_debug_key(a);
    lemma_bin_debug_key(b);
}

proof fn lemma_bin_debug_key(a: BinOp)
    ensures
        bin_debug_of_key(name_key(bin_debug(a))) == Some(a),
{
    match a {
        BinOp::Add => { reveal_strlit("add"); },
        BinOp::Sub => { reveal_strlit("sub"); },
        BinOp::Mult => { reveal_strlit("mult"); },
        BinOp::Div => { reveal_strlit("div"); },
        BinOp::IDiv => { reveal_strlit("idiv"); },
        BinOp::Mod => { reveal_strlit("mod"); },
        BinOp::Identity => { reveal_strlit("identity"); },
        BinOp::NotEqual => { reveal_strlit("notequal"); },
        BinOp::LessThan => { reveal_strlit("lessthan"); },
        BinOp::LessEqual => { reveal_strlit("lessequal"); },
        BinOp::GreaterThan => { reveal_strlit("greaterthan"); },
        BinOp::GreaterEqual => { reveal_strlit("greaterequal"); },
        BinOp::And => { reveal_strlit("and"); },
        BinOp::Or => { reveal_strlit("or"); },
        BinOp::Xor => { reveal_strlit("xor"); },
        BinOp::BitAnd => { reveal_strlit("bitand"); },
        BinOp::BitOr => { reveal_strlit("bitor"); },
        BinOp::BitXor => { reveal_strlit("bitxor"); },
        BinOp::BitShiftLeft => { reveal_strlit("bitshiftleft"); },
        BinOp::BitShiftRight => { reveal_strlit("bitshiftright"); },
        BinOp::Coalesce => { reveal_strlit("coalesce"); },
    }
}

/// Each unary operator has a `Debug` name of its own in a listing.
pub proof fn lemma_unary_debug_distinct(a: UnaryOp, b: UnaryOp)
    ensures
        unary_debug(a) == unary_debug(b) ==> a == b,
{
    reveal_strlit("not");
    reveal_strlit("bitwisenot");
    reveal_strlit("positive");
    reveal_strlit("negative");
    assert(unary_debug(a).len() != unary_debug(b).len() || unary_debug(a)[0] != unary_debug(b)[0] || a == b);
}

/// The word for an operand type in an op's name.
pub open spec fn kind_word(k: OperandKind) -> Seq<char> {
    match k {
        OperandKind::Int => "int"@,
        OperandKind::Float => "float"@,
        OperandKind::Bool => "bool"@,
        OperandKind::Str => "str"@,
        OperandKind::Generic => "generic"@,
    }
}

/// The word for what an op computes in its name.
pub open spec fn meaning_word(m: Meaning) -> Seq<char> {
    match m {
        Meaning::Arith(ArithOp::Add) => "add"@,
        Meaning::Arith(ArithOp::Sub) => "sub"@,
        Meaning::Arith(ArithOp::Mul) => "mult"@,
        Meaning::Arith(ArithOp::Div) => "div"@,
        Meaning::Arith(ArithOp::Rem) => "mod"@,
        Meaning::Test { less, equal, greater } => if less && !equal && !greater {
            "lt"@
        } else if less && equal && !greater {
            "le"@
        } else if !less && !equal && greater {
            "gt"@
        } else if !less && equal && greater {
            "ge"@
        } else if !less && equal && !greater {
            "eq"@
        } else {
            "ne"@
        },
    }
}

/// The name a typed op computing `m` on operands of type `k` has: a test as `int_ge`, an
/// arithmetic operation as `add_int`.
pub open spec fn typed_name(k: OperandKind, m: Meaning) -> Seq<char> {
    match m {
        Meaning::Test { .. } => kind_word(k) + "_"@ + meaning_word(m),
        Meaning::Arith(_) => meaning_word(m) + "_"@ + kind_word(k),
    }
}

/// The name an op's text starts with, for typed, immediate and compare-and-branch ops.
pub open spec fn op_name(op: Op) -> Seq<char> {
    match machine_meaning(op) {
        Some((_, _, _, k, m)) => typed_name(k, m),
        None => match imm_meaning(op) {
            Some((_, _, _, k, m)) => typed_name(k, m) + "_imm"@,
            None => match branch_meaning(op) {
                Some((_, _, r, k, m, t)) => "b"@ + typed_name(k, m) + (if r is Imm { "_imm"@ } else { Seq::empty() }) + (if t {
                    "_true"@
                } else {
                    "_false"@
                }),
                None => Seq::empty(),
            },
        },
    }
}

/// A bytecode dump names each typed op by what it computes: the operand type and the test
/// (`float_ge` for a float `>=`) or the arithmetic operation (`add_int`), `_imm` for an
/// immediate operand, and a compare-and-branch op as `b`, the test, and when it jumps; then its
/// registers, immediate and target in the order the op takes them.
pub proof fn lemma_typed_op_text(op: Op)
    ensures
        machine_meaning(op) matches Some((d, l, r, k, m)) ==> op_plain_text(op) == Some(
            name_col(op_name(op)) + reg_col(d) + reg_col(l) + reg_col(r),
        ),
        imm_meaning(op) matches Some((d, l, v, k, m)) ==> k == OperandKind::Float || op_plain_text(op) == Some(
            name_col(op_name(op)) + reg_col(d) + reg_col(l) + col(signed(v), 10),
        ),
        branch_meaning(op) matches Some((t, l, rhs, k, m, tr)) ==> (k == OperandKind::Float && rhs is Imm) || op_plain_text(
            op,
        ) == Some(
            name_col(op_name(op)) + target_col(t) + reg_col(l) + match rhs {
                Rhs::Reg(r) => reg_col(r),
                Rhs::Imm(v) => col(signed(v), 10),
            },
        ),
{
    lemma_typed_names(op);
    lemma_imm_names(op);
    lemma_branch_names_a(op);
    lemma_branch_names_b(op);
    lemma_branch_names_c(op);
}

#[verifier::spinoff_prover]
#[verifier::rlimit(100)]
proof fn lemma_typed_names(op: Op)
    ensures
        machine_meaning(op) matches Some((d, l, r, k, m)) ==> op_plain_text(op) == Some(
            name_col(op_name(op)) + reg_col(d) + reg_col(l) + reg_col(r),
        ),
{
    match op {
        Op::BoolEq { .. } => { reveal_strlit("bool_eq"); reveal_strlit("bool"); reveal_strlit("eq"); reveal_strlit("_"); assert(op_name(op) =~= "bool_eq"@); },
        Op::BoolNe { .. } => { reveal_strlit("bool_ne"); reveal_strlit("bool"); reveal_strlit("ne"); reveal_strlit("_"); assert(op_name(op) =~= "bool_ne"@); },
        Op::AddInt { .. } => { reveal_strlit("add_int"); reveal_strlit("add"); reveal_strlit("int"); reveal_strlit("_"); assert(op_name(op) =~= "add_int"@); },
        Op::SubInt { .. } => { reveal_strlit("sub_int"); reveal_strlit("sub"); reveal_strlit("int"); reveal_strlit("_"); assert(op_name(op) =~= "sub_int"@); },
        Op::MultInt { .. } => { reveal_strlit("mult_int"); reveal_strlit("mult"); reveal_strlit("int"); reveal_strlit("_"); assert(op_name(op) =~= "mult_int"@); },
        Op::ModInt { .. } => { reveal_strlit("mod_int"); reveal_strlit("mod"); reveal_strlit("int"); reveal_strlit("_"); assert(op_name(op) =~= "mod_int"@); },
        Op::IntLt { .. } => { reveal_strlit("int_lt"); reveal_strlit("int"); reveal_strlit("lt"); reveal_strlit("_"); assert(op_name(op) =~= "int_lt"@); },
        Op::IntLe { .. } => { reveal_strlit("int_le"); reveal_strlit("int"); reveal_strlit("le"); reveal_strlit("_"); assert(op_name(op) =~= "int_le"@); },
        Op::IntGt { .. } => { reveal_strlit("int_gt"); reveal_strlit("int"); reveal_strlit("gt"); reveal_strlit("_"); assert(op_name(op) =~= "int_gt"@); },
        Op::IntGe { .. } => { reveal_strlit("int_ge"); reveal_strlit("int"); reveal_strlit("ge"); reveal_strlit("_"); assert(op_name(op) =~= "int_ge"@); },
        Op::IntEq { .. } => { reveal_strlit("int_eq"); reveal_strlit("int"); reveal_strlit("eq"); reveal_strlit("_"); assert(op_name(op) =~= "int_eq"@); },
        Op::IntNe { .. } => { reveal_strlit("int_ne"); reveal_strlit("int"); reveal_strlit("ne"); reveal_strlit("_"); assert(op_name(op) =~= "int_ne"@); },
        Op::AddFloat { .. } => { reveal_strlit("add_float"); reveal_strlit("add"); reveal_strlit("float"); reveal_strlit("_"); assert(op_name(op) =~= "add_float"@); },
        Op::SubFloat { .. } => { reveal_strlit("sub_float"); reveal_strlit("sub"); reveal_strlit("float"); reveal_strlit("_"); assert(op_name(op) =~= "sub_float"@); },
        Op::MultFloat { .. } => { reveal_strlit("mult_float"); reveal_strlit("mult"); reveal_strlit("float"); reveal_strlit("_"); assert(op_name(op) =~= "mult_float"@); },
        Op::DivFloat { .. } => { reveal_strlit("div_float"); reveal_strlit("div"); reveal_strlit("float"); reveal_strlit("_"); assert(op_name(op) =~= "div_float"@); },
        Op::FloatLt { .. } => { reveal_strlit("float_lt"); reveal_strlit("float"); reveal_strlit("lt"); reveal_strlit("_"); assert(op_name(op) =~= "float_lt"@); },
        Op::FloatLe { .. } => { reveal_strlit("float_le"); reveal_strlit("float"); reveal_strlit("le"); reveal_strlit("_"); assert(op_name(op) =~= "float_le"@); },
        Op::FloatGt { .. } => { reveal_strlit("float_gt"); reveal_strlit("float"); reveal_strlit("gt"); reveal_strlit("_"); assert(op_name(op) =~= "float_gt"@); },
        Op::FloatGe { .. } => { reveal_strlit("float_ge"); reveal_strlit("float"); reveal_strlit("ge"); reveal_strlit("_"); assert(op_name(op) =~= "float_ge"@); },
        Op::FloatEq { .. } => { reveal_strlit("float_eq"); reveal_strlit("float"); reveal_strlit("eq"); reveal_strlit("_"); assert(op_name(op) =~= "float_eq"@); },
        Op::FloatNe { .. } => { reveal_strlit("float_ne"); reveal_strlit("float"); reveal_strlit("ne"); reveal_strlit("_"); assert(op_name(op) =~= "float_ne"@); },
        Op::StrEq { .. } => { reveal_strlit("str_eq"); reveal_strlit("str"); reveal_strlit("eq"); reveal_strlit("_"); assert(op_name(op) =~= "str_eq"@); },
        Op::StrNe { .. } => { reveal_strlit("str_ne"); reveal_strlit("str"); reveal_strlit("ne"); reveal_strlit("_"); assert(op_name(op) =~= "str_ne"@); },
        _ => {},
    }
}

#[verifier::spinoff_prover]
#[verifier::rlimit(100)]
proof fn lemma_imm_names(op: Op)
    ensures
        imm_meaning(op) matches Some((d, l, v, k, m)) ==> k == OperandKind::Float || op_plain_text(op) == Some(
            name_col(op_name(op)) + reg_col(d) + reg_col(l) + col(signed(v), 10),
        ),
{
    match op {
        Op::AddIntImm { .. } => { reveal_strlit("_imm"); reveal_strlit("add_int_imm"); reveal_strlit("add"); reveal_strlit("int"); reveal_strlit("imm"); reveal_strlit("_"); assert(op_name(op) =~= "add_int_imm"@); },
        Op::SubIntImm { .. } => { reveal_strlit("_imm"); reveal_strlit("sub_int_imm"); reveal_strlit("sub"); reveal_strlit("int"); reveal_strlit("imm"); reveal_strlit("_"); assert(op_name(op) =~= "sub_int_imm"@); },
        Op::MultIntImm { .. } => { reveal_strlit("_imm"); reveal_strlit("mult_int_imm"); reveal_strlit("mult"); reveal_strlit("int"); reveal_strlit("imm"); reveal_strlit("_"); assert(op_name(op) =~= "mult_int_imm"@); },
        Op::ModIntImm { .. } => { reveal_strlit("_imm"); reveal_strlit("mod_int_imm"); reveal_strlit("mod"); reveal_strlit("int"); reveal_strlit("imm"); reveal_strlit("_"); assert(op_name(op) =~= "mod_int_imm"@); },
        Op::IntLtImm { .. } => { reveal_strlit("_imm"); reveal_strlit("int_lt_imm"); reveal_strlit("int"); reveal_strlit("lt"); reveal_strlit("imm"); reveal_strlit("_"); assert(op_name(op) =~= "int_lt_imm"@); },
        Op::IntLeImm { .. } => { reveal_strlit("_imm"); reveal_strlit("int_le_imm"); reveal_strlit("int"); reveal_strlit("le"); reveal_strlit("imm"); reveal_strlit("_"); assert(op_name(op) =~= "int_le_imm"@); },
        Op::IntGtImm { .. } => { reveal_strlit("_imm"); reveal_strlit("int_gt_imm"); reveal_strlit("int"); reveal_strlit("gt"); reveal_strlit("imm"); reveal_strlit("_"); assert(op_name(op) =~= "int_gt_imm"@); },
        Op::IntGeImm { .. } => { reveal_strlit("_imm"); reveal_strlit("int_ge_imm"); reveal_strlit("int"); reveal_strlit("ge"); reveal_strlit("imm"); reveal_strlit("_"); assert(op_name(op) =~= "int_ge_imm"@); },
        Op::IntEqImm { .. } => { reveal_strlit("_imm"); reveal_strlit("int_eq_imm"); reveal_strlit("int"); reveal_strlit("eq"); reveal_strlit("imm"); reveal_strlit("_"); assert(op_name(op) =~= "int_eq_imm"@); },
        Op::IntNeImm { .. } => { reveal_strlit("_imm"); reveal_strlit("int_ne_imm"); reveal_strlit("int"); reveal_strlit("ne"); reveal_strlit("imm"); reveal_strlit("_"); assert(op_name(op) =~= "int_ne_imm"@); },
        _ => {},
    }
}

#[verifier::spinoff_prover]
#[verifier::rlimit(100)]
proof fn lemma_branch_names_a(op: Op)
    ensures
        (op is BIntLt || op is BIntLtImm || op is BIntLe || op is BIntLeImm || op is BIntGt || op is BIntGtImm) ==> (branch_meaning(op) matches Some((t, l, rhs, k, m, tr)) ==> (k == OperandKind::Float && rhs is Imm) || op_plain_text(
            op,
        ) == Some(
            name_col(op_name(op)) + target_col(t) + reg_col(l) + match rhs {
                Rhs::Reg(r) => reg_col(r),
                Rhs::Imm(v) => col(signed(v), 10),
            },
        )),
{
    match op {
        Op::BIntLt { is_true, .. } => { reveal_strlit("int"); reveal_strlit("float"); reveal_strlit("bint_lt_true"); reveal_strlit("bint_lt_false"); reveal_strlit("bint"); reveal_strlit("lt"); reveal_strlit("_"); reveal_strlit("true"); reveal_strlit("false"); reveal_strlit("b"); reveal_strlit("_imm"); reveal_strlit("_true"); reveal_strlit("_false"); if is_true { assert(op_name(op) =~= "bint_lt_true"@); } else { assert(op_name(op) =~= "bint_lt_false"@); } },
        Op::BIntLtImm { is_true, .. } => { reveal_strlit("int"); reveal_strlit("float"); reveal_strlit("bint_lt_imm_true"); reveal_strlit("bint_lt_imm_false"); reveal_strlit("bint"); reveal_strlit("lt"); reveal_strlit("imm"); reveal_strlit("_"); reveal_strlit("true"); reveal_strlit("false"); reveal_strlit("b"); reveal_strlit("_imm"); reveal_strlit("_true"); reveal_strlit("_false"); if is_true { assert(op_name(op) =~= "bint_lt_imm_true"@); } else { assert(op_name(op) =~= "bint_lt_imm_false"@); } },
        Op::BIntLe { is_true, .. } => { reveal_strlit("int"); reveal_strlit("float"); reveal_strlit("bint_le_true"); reveal_strlit("bint_le_false"); reveal_strlit("bint"); reveal_strlit("le"); reveal_strlit("_"); reveal_strlit("true"); reveal_strlit("false"); reveal_strlit("b"); reveal_strlit("_imm"); reveal_strlit("_true"); reveal_strlit("_false"); if is_true { assert(op_name(op) =~= "bint_le_true"@); } else { assert(op_name(op) =~= "bint_le_false"@); } },
        Op::BIntLeImm { is_true, .. } => { reveal_strlit("int"); reveal_strlit("float"); reveal_strlit("bint_le_imm_true"); reveal_strlit("bint_le_imm_false"); reveal_strlit("bint"); reveal_strlit("le"); reveal_strlit("imm"); reveal_strlit("_"); reveal_strlit("true"); reveal_strlit("false"); reveal_strlit("b"); reveal_strlit("_imm"); reveal_strlit("_true"); reveal_strlit("_false"); if is_true { assert(op_name(op) =~= "bint_le_imm_true"@); } else { assert(op_name(op) =~= "bint_le_imm_false"@); } },
        Op::BIntGt { is_true, .. } => { reveal_strlit("int"); reveal_strlit("float"); reveal_strlit("bint_gt_true"); reveal_strlit("bint_gt_false"); reveal_strlit("bint"); reveal_strlit("gt"); reveal_strlit("_"); reveal_strlit("true"); reveal_strlit("false"); reveal_strlit("b"); reveal_strlit("_imm"); reveal_strlit("_true"); reveal_strlit("_false"); if is_true { assert(op_name(op) =~= "bint_gt_true"@); } else { assert(op_name(op) =~= "bint_gt_false"@); } },
        Op::BIntGtImm { is_true, .. } => { reveal_strlit("int"); reveal_strlit("float"); reveal_strlit("bint_gt_imm_true"); reveal_strlit("bint_gt_imm_false"); reveal_strlit("bint"); reveal_strlit("gt"); reveal_strlit("imm"); reveal_strlit("_"); reveal_strlit("true"); reveal_strlit("false"); reveal_strlit("b"); reveal_strlit("_imm"); reveal_strlit("_true"); reveal_strlit("_false"); if is_true { assert(op_name(op) =~= "bint_gt_imm_true"@); } else { assert(op_name(op) =~= "bint_gt_imm_false"@); } },
        _ => {},
    }
}

#[verifier::spinoff_prover]
#[verifier::rlimit(100)]
proof fn lemma_branch_names_b(op: Op)
    ensures
        (op is BIntGe || op is BIntGeImm || op is BIntEq || op is BIntEqImm || op is BIntNe || op is BIntNeImm) ==> (branch_meaning(op) matches Some((t, l, rhs, k, m, tr)) ==> (k == OperandKind::Float && rhs is Imm) || op_plain_text(
            op,
        ) == Some(
            name_col(op_name(op)) + target_col(t) + reg_col(l) + match rhs {
                Rhs::Reg(r) => reg_col(r),
                Rhs::Imm(v) => col(signed(v), 10),
            },
        )),
{
    match op {
        Op::BIntGe { is_true, .. } => { reveal_strlit("int"); reveal_strlit("float"); reveal_strlit("bint_ge_true"); reveal_strlit("bint_ge_false"); reveal_strlit("bint"); reveal_strlit("ge"); reveal_strlit("_"); reveal_strlit("true"); reveal_strlit("false"); reveal_strlit("b"); reveal_strlit("_imm"); reveal_strlit("_true"); reveal_strlit("_false"); if is_true { assert(op_name(op) =~= "bint_ge_true"@); } else { assert(op_name(op) =~= "bint_ge_false"@); } },
        Op::BIntGeImm { is_true, .. } => { reveal_strlit("int"); reveal_strlit("float"); reveal_strlit("bint_ge_imm_true"); reveal_strlit("bint_ge_imm_false"); reveal_strlit("bint"); reveal_strlit("ge"); reveal_strlit("imm"); reveal_strlit("_"); reveal_strlit("true"); reveal_strlit("false"); reveal_strlit("b"); reveal_strlit("_imm"); reveal_strlit("_true"); reveal_strlit("_false"); if is_true { assert(op_name(op) =~= "bint_ge_imm_true"@); } else { assert(op_name(op) =~= "bint_ge_imm_false"@); } },
        Op::BIntEq { is_true, .. } => { reveal_strlit("int"); reveal_strlit("float"); reveal_strlit("bint_eq_true"); reveal_strlit("bint_eq_false"); reveal_strlit("bint"); reveal_strlit("eq"); reveal_strlit("_"); reveal_strlit("true"); reveal_strlit("false"); reveal_strlit("b"); reveal_strlit("_imm"); reveal_strlit("_true"); reveal_strlit("_false"); if is_true { assert(op_name(op) =~= "bint_eq_true"@); } else { assert(op_name(op) =~= "bint_eq_false"@); } },
        Op::BIntEqImm { is_true, .. } => { reveal_strlit("int"); reveal_strlit("float"); reveal_strlit("bint_eq_imm_true"); reveal_strlit("bint_eq_imm_false"); reveal_strlit("bint"); reveal_strlit("eq"); reveal_strlit("imm"); reveal_strlit("_"); reveal_strlit("true"); reveal_strlit("false"); reveal_strlit("b"); reveal_strlit("_imm"); reveal_strlit("_true"); reveal_strlit("_false"); if is_true { assert(op_name(op) =~= "bint_eq_imm_true"@); } else { assert(op_name(op) =~= "bint_eq_imm_false"@); } },
        Op::BIntNe { is_true, .. } => { reveal_strlit("int"); reveal_strlit("float"); reveal_strlit("bint_ne_true"); reveal_strlit("bint_ne_false"); reveal_strlit("bint"); reveal_strlit("ne"); reveal_strlit("_"); reveal_strlit("true"); reveal_strlit("false"); reveal_strlit("b"); reveal_strlit("_imm"); reveal_strlit("_true"); reveal_strlit("_false"); if is_true { assert(op_name(op) =~= "bint_ne_true"@); } else { assert(op_name(op) =~= "bint_ne_false"@); } },
        Op::BIntNeImm { is_true, .. } => { reveal_strlit("int"); reveal_strlit("float"); reveal_strlit("bint_ne_imm_true"); reveal_strlit("bint_ne_imm_false"); reveal_strlit("bint"); reveal_strlit("ne"); reveal_strlit("imm"); reveal_strlit("_"); reveal_strlit("true"); reveal_strlit("false"); reveal_strlit("b"); reveal_strlit("_imm"); reveal_strlit("_true"); reveal_strlit("_false"); if is_true { assert(op_name(op) =~= "bint_ne_imm_true"@); } else { assert(op_name(op) =~= "bint_ne_imm_false"@); } },
        _ => {},
    }
}

#[verifier::spinoff_prover]
#[verifier::rlimit(100)]
proof fn lemma_branch_names_c(op: Op)
    ensures
        (op is BFloatLt || op is BFloatLe || op is BFloatGt || op is BFloatGe || op is BFloatEq || op is BFloatNe) ==> (branch_meaning(op) matches Some((t, l, rhs, k, m, tr)) ==> (k == OperandKind::Float && rhs is Imm) || op_plain_text(
            op,
        ) == Some(
            name_col(op_name(op)) + target_col(t) + reg_col(l) + match rhs {
                Rhs::Reg(r) => reg_col(r),
                Rhs::Imm(v) => col(signed(v), 10),
            },
        )),
{
    match op {
        Op::BFloatLt { is_true, .. } => { reveal_strlit("int"); reveal_strlit("float"); reveal_strlit("bfloat_lt_true"); reveal_strlit("bfloat_lt_false"); reveal_strlit("bfloat"); reveal_strlit("lt"); reveal_strlit("_"); reveal_strlit("true"); reveal_strlit("false"); reveal_strlit("b"); reveal_strlit("_imm"); reveal_strlit("_true"); reveal_strlit("_false"); if is_true { assert(op_name(op) =~= "bfloat_lt_true"@); } else { assert(op_name(op) =~= "bfloat_lt_false"@); } },
        Op::BFloatLe { is_true, .. } => { reveal_strlit("int"); reveal_strlit("float"); reveal_strlit("bfloat_le_true"); reveal_strlit("bfloat_le_false"); reveal_strlit("bfloat"); reveal_strlit("le"); reveal_strlit("_"); reveal_strlit("true"); reveal_strlit("false"); reveal_strlit("b"); reveal_strlit("_imm"); reveal_strlit("_true"); reveal_strlit("_false"); if is_true { assert(op_name(op) =~= "bfloat_le_true"@); } else { assert(op_name(op) =~= "bfloat_le_false"@); } },
        Op::BFloatGt { is_true, .. } => { reveal_strlit("int"); reveal_strlit("float"); reveal_strlit("bfloat_gt_true"); reveal_strlit("bfloat_gt_false"); reveal_strlit("bfloat"); reveal_strlit("gt"); reveal_strlit("_"); reveal_strlit("true"); reveal_strlit("false"); reveal_strlit("b"); reveal_strlit("_imm"); reveal_strlit("_true"); reveal_strlit("_false"); if is_true { assert(op_name(op) =~= "bfloat_gt_true"@); } else { assert(op_name(op) =~= "bfloat_gt_false"@); } },
        Op::BFloatGe { is_true, .. } => { reveal_strlit("int"); reveal_strlit("float"); reveal_strlit("bfloat_ge_true"); reveal_strlit("bfloat_ge_false"); reveal_strlit("bfloat"); reveal_strlit("ge"); reveal_strlit("_"); reveal_strlit("true"); reveal_strlit("false"); reveal_strlit("b"); reveal_strlit("_imm"); reveal_strlit("_true"); reveal_strlit("_false"); if is_true { assert(op_name(op) =~= "bfloat_ge_true"@); } else { assert(op_name(op) =~= "bfloat_ge_false"@); } },
        Op::BFloatEq { is_true, .. } => { reveal_strlit("int"); reveal_strlit("float"); reveal_strlit("bfloat_eq_true"); reveal_strlit("bfloat_eq_false"); reveal_strlit("bfloat"); reveal_strlit("eq"); reveal_strlit("_"); reveal_strlit("true"); reveal_strlit("false"); reveal_strlit("b"); reveal_strlit("_imm"); reveal_strlit("_true"); reveal_strlit("_false"); if is_true { assert(op_name(op) =~= "bfloat_eq_true"@); } else { assert(op_name(op) =~= "bfloat_eq_false"@); } },
        Op::BFloatNe { is_true, .. } => { reveal_strlit("int"); reveal_strlit("float"); reveal_strlit("bfloat_ne_true"); reveal_strlit("bfloat_ne_false"); reveal_strlit("bfloat"); reveal_strlit("ne"); reveal_strlit("_"); reveal_strlit("true"); reveal_strlit("false"); reveal_strlit("b"); reveal_strlit("_imm"); reveal_strlit("_true"); reveal_strlit("_false"); if is_true { assert(op_name(op) =~= "bfloat_ne_true"@); } else { assert(op_name(op) =~= "bfloat_ne_false"@); } },
        _ => {},
    }
}


} // verus!
