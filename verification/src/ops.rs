//! Operators and operand kinds shared by the IR and the bytecode.
use vstd::prelude::*;

verus! {

/// A binary operator.
#[derive(Debug, Copy, Clone, Eq, PartialEq, Structural, Hash)]
pub enum BinOp {
    Add,
    Sub,
    Mult,
    Div,
    IDiv,
    Mod,
    Identity,
    NotEqual,
    LessThan,
    LessEqual,
    GreaterThan,
    GreaterEqual,
    And,
    Or,
    Xor,
    BitAnd,
    BitOr,
    BitXor,
    BitShiftLeft,
    BitShiftRight,
    Coalesce,
}

/// A unary operator.
#[derive(Debug, Copy, Clone, Eq, PartialEq, Structural, Hash)]
pub enum UnaryOp {
    Not,
    BitwiseNot,
    Positive,
    Negative,
}

/// How an index or field access treats a missing value: `Direct` faults, `Optional` yields null.
#[derive(Debug, Copy, Clone, Eq, PartialEq, Structural, Hash)]
pub enum AccessKind {
    Direct,
    Optional,
}

/// The operand type an IR binary operation was checked at.
#[derive(Debug, Copy, Clone, PartialEq, Eq, Structural)]
pub enum OperandKind {
    Bool,
    Int,
    Float,
    Str,
    Generic,
}

/// The wire byte of binary operator.
pub open spec fn bin_op_byte(v: BinOp) -> u8 {
    match v {
        BinOp::Add => 0,
        BinOp::Sub => 1,
        BinOp::Mult => 2,
        BinOp::Div => 3,
        BinOp::IDiv => 4,
        BinOp::Mod => 5,
        BinOp::Identity => 6,
        BinOp::NotEqual => 7,
        BinOp::LessThan => 8,
        BinOp::LessEqual => 9,
        BinOp::GreaterThan => 10,
        BinOp::GreaterEqual => 11,
        BinOp::And => 12,
        BinOp::Or => 13,
        BinOp::Xor => 14,
        BinOp::BitAnd => 15,
        BinOp::BitOr => 16,
        BinOp::BitXor => 17,
        BinOp::BitShiftLeft => 18,
        BinOp::BitShiftRight => 19,
        BinOp::Coalesce => 20,
    }
}

/// The binary operator a wire byte stands for, if any.
pub open spec fn bin_op_of_byte(b: u8) -> Option<BinOp> {
    if b == 0 {
        Some(BinOp::Add)
    } else if b == 1 {
        Some(BinOp::Sub)
    } else if b == 2 {
        Some(BinOp::Mult)
    } else if b == 3 {
        Some(BinOp::Div)
    } else if b == 4 {
        Some(BinOp::IDiv)
    } else if b == 5 {
        Some(BinOp::Mod)
    } else if b == 6 {
        Some(BinOp::Identity)
    } else if b == 7 {
        Some(BinOp::NotEqual)
    } else if b == 8 {
        Some(BinOp::LessThan)
    } else if b == 9 {
        Some(BinOp::LessEqual)
    } else if b == 10 {
        Some(BinOp::GreaterThan)
    } else if b == 11 {
        Some(BinOp::GreaterEqual)
    } else if b == 12 {
        Some(BinOp::And)
    } else if b == 13 {
        Some(BinOp::Or)
    } else if b == 14 {
        Some(BinOp::Xor)
    } else if b == 15 {
        Some(BinOp::BitAnd)
    } else if b == 16 {
        Some(BinOp::BitOr)
    } else if b == 17 {
        Some(BinOp::BitXor)
    } else if b == 18 {
        Some(BinOp::BitShiftLeft)
    } else if b == 19 {
        Some(BinOp::BitShiftRight)
    } else if b == 20 {
        Some(BinOp::Coalesce)
    } else {
        None
    }
}

impl BinOp {
    /// The wire byte of this value.
    pub fn to_byte(self) -> (b: u8)
        ensures
            b == bin_op_byte(self),
    {
        match self {
            BinOp::Add => 0,
            BinOp::Sub => 1,
            BinOp::Mult => 2,
            BinOp::Div => 3,
            BinOp::IDiv => 4,
            BinOp::Mod => 5,
            BinOp::Identity => 6,
            BinOp::NotEqual => 7,
            BinOp::LessThan => 8,
            BinOp::LessEqual => 9,
            BinOp::GreaterThan => 10,
            BinOp::GreaterEqual => 11,
            BinOp::And => 12,
            BinOp::Or => 13,
            BinOp::Xor => 14,
            BinOp::BitAnd => 15,
            BinOp::BitOr => 16,
            BinOp::BitXor => 17,
            BinOp::BitShiftLeft => 18,
            BinOp::BitShiftRight => 19,
            BinOp::Coalesce => 20,
        }
    }

    /// The value a wire byte stands for, if any.
    pub fn from_byte(b: u8) -> (r: Option<BinOp>)
        ensures
            r == bin_op_of_byte(b),
    {
        match b {
            0 => Some(BinOp::Add),
            1 => Some(BinOp::Sub),
            2 => Some(BinOp::Mult),
            3 => Some(BinOp::Div),
            4 => Some(BinOp::IDiv),
            5 => Some(BinOp::Mod),
            6 => Some(BinOp::Identity),
            7 => Some(BinOp::NotEqual),
            8 => Some(BinOp::LessThan),
            9 => Some(BinOp::LessEqual),
            10 => Some(BinOp::GreaterThan),
            11 => Some(BinOp::GreaterEqual),
            12 => Some(BinOp::And),
            13 => Some(BinOp::Or),
            14 => Some(BinOp::Xor),
            15 => Some(BinOp::BitAnd),
            16 => Some(BinOp::BitOr),
            17 => Some(BinOp::BitXor),
            18 => Some(BinOp::BitShiftLeft),
            19 => Some(BinOp::BitShiftRight),
            20 => Some(BinOp::Coalesce),
            _ => None,
        }
    }
}

/// Every binary operator survives its wire byte.
pub proof fn lemma_bin_op_byte_roundtrip(v: BinOp)
    ensures
        bin_op_of_byte(bin_op_byte(v)) == Some(v),
{
}

/// The wire byte of unary operator.
pub open spec fn unary_op_byte(v: UnaryOp) -> u8 {
    match v {
        UnaryOp::Not => 0,
        UnaryOp::BitwiseNot => 1,
        UnaryOp::Positive => 2,
        UnaryOp::Negative => 3,
    }
}

/// The unary operator a wire byte stands for, if any.
pub open spec fn unary_op_of_byte(b: u8) -> Option<UnaryOp> {
    if b == 0 {
        Some(UnaryOp::Not)
    } else if b == 1 {
        Some(UnaryOp::BitwiseNot)
    } else if b == 2 {
        Some(UnaryOp::Positive)
    } else if b == 3 {
        Some(UnaryOp::Negative)
    } else {
        None
    }
}

impl UnaryOp {
    /// The wire byte of this value.
    pub fn to_byte(self) -> (b: u8)
        ensures
            b == unary_op_byte(self),
    {
        match self {
            UnaryOp::Not => 0,
            UnaryOp::BitwiseNot => 1,
            UnaryOp::Positive => 2,
            UnaryOp::Negative => 3,
        }
    }

    /// The value a wire byte stands for, if any.
    pub fn from_byte(b: u8) -> (r: Option<UnaryOp>)
        ensures
            r == unary_op_of_byte(b),
    {
        match b {
            0 => Some(UnaryOp::Not),
            1 => Some(UnaryOp::BitwiseNot),
            2 => Some(UnaryOp::Positive),
            3 => Some(UnaryOp::Negative),
            _ => None,
        }
    }
}

/// Every unary operator survives its wire byte.
pub proof fn lemma_unary_op_byte_roundtrip(v: UnaryOp)
    ensures
        unary_op_of_byte(unary_op_byte(v)) == Some(v),
{
}

/// The wire byte of access kind.
pub open spec fn access_kind_byte(v: AccessKind) -> u8 {
    match v {
        AccessKind::Direct => 0,
        AccessKind::Optional => 1,
    }
}

/// The access kind a wire byte stands for, if any.
pub open spec fn access_kind_of_byte(b: u8) -> Option<AccessKind> {
    if b == 0 {
        Some(AccessKind::Direct)
    } else if b == 1 {
        Some(AccessKind::Optional)
    } else {
        None
    }
}

impl AccessKind {
    /// The wire byte of this value.
    pub fn to_byte(self) -> (b: u8)
        ensures
            b == access_kind_byte(self),
    {
        match self {
            AccessKind::Direct => 0,
            AccessKind::Optional => 1,
        }
    }

    /// The value a wire byte stands for, if any.
    pub fn from_byte(b: u8) -> (r: Option<AccessKind>)
        ensures
            r == access_kind_of_byte(b),
    {
        match b {
            0 => Some(AccessKind::Direct),
            1 => Some(AccessKind::Optional),
            _ => None,
        }
    }
}

/// Every access kind survives its wire byte.
pub proof fn lemma_access_kind_byte_roundtrip(v: AccessKind)
    ensures
        access_kind_of_byte(access_kind_byte(v)) == Some(v),
{
}

/// Why a binary operation on constants has no value.
#[derive(Debug, Copy, Clone, PartialEq, Eq, Structural)]
pub enum BinFault {
    Overflow,
    DivByZero,
    ModByZero,
    InvalidShift,
    Type,
}

/// The value of a binary operation on two integer constants. True division of integers gives a
/// float: `Quotient(num, den)` stands for that float, `num as f64 / den as f64`, which the caller
/// computes in floating point.
#[derive(Debug, Copy, Clone, PartialEq, Eq, Structural)]
pub enum Scalar {
    Int(i64),
    Bool(bool),
    Quotient(i64, i64),
}

/// Integer division rounding toward zero, as Rust's `/` on integers does.
pub open spec fn trunc_div(a: int, b: int) -> int {
    if a >= 0 {
        if b > 0 { a / b } else { -(a / (-b)) }
    } else {
        if b > 0 { -((-a) / b) } else { (-a) / (-b) }
    }
}

/// The remainder of [`trunc_div`]: it has the sign of `a`, as Rust's `%` on integers does.
pub open spec fn trunc_rem(a: int, b: int) -> int {
    let m = if b > 0 { b } else { -b };
    if a >= 0 { a % m } else { -((-a) % m) }
}

/// `v` as an `int` result, or an overflow when it doesn't fit an `i64`.
pub open spec fn int_result(v: int) -> Result<Scalar, BinFault> {
    if i64::MIN <= v <= i64::MAX {
        Ok(Scalar::Int(v as i64))
    } else {
        Err(BinFault::Overflow)
    }
}

/// What folding `a op b` gives for integer constants `a` and `b`.
pub open spec fn spec_eval_int(op: BinOp, a: i64, b: i64) -> Result<Scalar, BinFault> {
    match op {
        BinOp::Add => int_result(a + b),
        BinOp::Sub => int_result(a - b),
        BinOp::Mult => int_result(a * b),
        BinOp::Div => Ok(Scalar::Quotient(a, b)),
        BinOp::IDiv => if b == 0 {
            Err(BinFault::DivByZero)
        } else {
            int_result(trunc_div(a as int, b as int))
        },
        BinOp::Mod => if b == 0 {
            Err(BinFault::ModByZero)
        } else if a == i64::MIN && b == -1 {
            Err(BinFault::Overflow)
        } else {
            Ok(Scalar::Int(trunc_rem(a as int, b as int) as i64))
        },
        BinOp::Identity => Ok(Scalar::Bool(a == b)),
        BinOp::NotEqual => Ok(Scalar::Bool(a != b)),
        BinOp::LessThan => Ok(Scalar::Bool(a < b)),
        BinOp::LessEqual => Ok(Scalar::Bool(a <= b)),
        BinOp::GreaterThan => Ok(Scalar::Bool(a > b)),
        BinOp::GreaterEqual => Ok(Scalar::Bool(a >= b)),
        BinOp::BitAnd => Ok(Scalar::Int(a & b)),
        BinOp::BitOr => Ok(Scalar::Int(a | b)),
        BinOp::BitXor => Ok(Scalar::Int(a ^ b)),
        BinOp::BitShiftLeft => if 0 <= b < 64 {
            Ok(Scalar::Int(a << (b as u32)))
        } else {
            Err(BinFault::InvalidShift)
        },
        BinOp::BitShiftRight => if 0 <= b < 64 {
            Ok(Scalar::Int(a >> (b as u32)))
        } else {
            Err(BinFault::InvalidShift)
        },
        BinOp::And | BinOp::Or | BinOp::Xor | BinOp::Coalesce => Err(BinFault::Type),
    }
}

/// The shift amount of an `i64` operand, when it is a valid shift of an `i64`.
fn shift_amount(b: i64) -> (r: Option<u32>)
    ensures
        r == (if 0 <= b < 64 { Some(b as u32) } else { None::<u32> }),
{
    if 0 <= b && b < 64 {
        Some(b as u32)
    } else {
        None
    }
}

impl BinOp {
    /// Folds `a self b` for two integer constants, or says why it can't be folded (the runtime
    /// raises the same fault).
    pub fn eval_int(self, a: i64, b: i64) -> (r: Result<Scalar, BinFault>)
        ensures
            r == spec_eval_int(self, a, b),
    {
        match self {
            BinOp::Add => match a.checked_add(b) {
                Some(v) => Ok(Scalar::Int(v)),
                None => Err(BinFault::Overflow),
            },
            BinOp::Sub => match a.checked_sub(b) {
                Some(v) => Ok(Scalar::Int(v)),
                None => Err(BinFault::Overflow),
            },
            BinOp::Mult => match a.checked_mul(b) {
                Some(v) => Ok(Scalar::Int(v)),
                None => Err(BinFault::Overflow),
            },
            BinOp::Div => Ok(Scalar::Quotient(a, b)),
            BinOp::IDiv => {
                if b == 0 {
                    return Err(BinFault::DivByZero);
                }
                match a.checked_div(b) {
                    Some(v) => Ok(Scalar::Int(v)),
                    None => Err(BinFault::Overflow),
                }
            },
            BinOp::Mod => {
                if b == 0 {
                    return Err(BinFault::ModByZero);
                }
                match a.checked_rem(b) {
                    Some(v) => Ok(Scalar::Int(v)),
                    None => Err(BinFault::Overflow),
                }
            },
            BinOp::Identity => Ok(Scalar::Bool(a == b)),
            BinOp::NotEqual => Ok(Scalar::Bool(a != b)),
            BinOp::LessThan => Ok(Scalar::Bool(a < b)),
            BinOp::LessEqual => Ok(Scalar::Bool(a <= b)),
            BinOp::GreaterThan => Ok(Scalar::Bool(a > b)),
            BinOp::GreaterEqual => Ok(Scalar::Bool(a >= b)),
            BinOp::BitAnd => Ok(Scalar::Int(a & b)),
            BinOp::BitOr => Ok(Scalar::Int(a | b)),
            BinOp::BitXor => Ok(Scalar::Int(a ^ b)),
            BinOp::BitShiftLeft => match shift_amount(b) {
                Some(s) => Ok(Scalar::Int(a << s)),
                None => Err(BinFault::InvalidShift),
            },
            BinOp::BitShiftRight => match shift_amount(b) {
                Some(s) => Ok(Scalar::Int(a >> s)),
                None => Err(BinFault::InvalidShift),
            },
            BinOp::And | BinOp::Or | BinOp::Xor | BinOp::Coalesce => Err(BinFault::Type),
        }
    }
}


/// The name a listing shows for a binary operator.
pub open spec fn bin_op_name(op: BinOp) -> Seq<char> {
    match op {
        BinOp::Add => "add"@,
        BinOp::Sub => "sub"@,
        BinOp::Mult => "mult"@,
        BinOp::Div => "div"@,
        BinOp::IDiv => "idiv"@,
        BinOp::Mod => "mod"@,
        BinOp::Identity => "equal"@,
        BinOp::NotEqual => "not_equal"@,
        BinOp::LessThan => "less_than"@,
        BinOp::LessEqual => "less_equal"@,
        BinOp::GreaterThan => "greater_than"@,
        BinOp::GreaterEqual => "greater_equal"@,
        BinOp::And => "and"@,
        BinOp::Or => "or"@,
        BinOp::Xor => "xor"@,
        BinOp::BitAnd => "bit_and"@,
        BinOp::BitOr => "bit_or"@,
        BinOp::BitXor => "bit_xor"@,
        BinOp::BitShiftLeft => "bit_shift_left"@,
        BinOp::BitShiftRight => "bit_shift_right"@,
        BinOp::Coalesce => "null_coalesce"@,
    }
}

/// The name a listing shows for a unary operator.
pub open spec fn unary_op_name(op: UnaryOp) -> Seq<char> {
    match op {
        UnaryOp::Not => "not"@,
        UnaryOp::BitwiseNot => "bit_not"@,
        UnaryOp::Positive => "positive"@,
        UnaryOp::Negative => "negative"@,
    }
}

impl BinOp {
    /// The name a listing shows for this operator.
    pub fn name(self) -> (s: &'static str)
        ensures
            s@ == bin_op_name(self),
    {
        match self {
            BinOp::Add => "add",
            BinOp::Sub => "sub",
            BinOp::Mult => "mult",
            BinOp::Div => "div",
            BinOp::IDiv => "idiv",
            BinOp::Mod => "mod",
            BinOp::Identity => "equal",
            BinOp::NotEqual => "not_equal",
            BinOp::LessThan => "less_than",
            BinOp::LessEqual => "less_equal",
            BinOp::GreaterThan => "greater_than",
            BinOp::GreaterEqual => "greater_equal",
            BinOp::And => "and",
            BinOp::Or => "or",
            BinOp::Xor => "xor",
            BinOp::BitAnd => "bit_and",
            BinOp::BitOr => "bit_or",
            BinOp::BitXor => "bit_xor",
            BinOp::BitShiftLeft => "bit_shift_left",
            BinOp::BitShiftRight => "bit_shift_right",
            BinOp::Coalesce => "null_coalesce",
        }
    }
}

impl UnaryOp {
    /// The name a listing shows for this operator.
    pub fn name(self) -> (s: &'static str)
        ensures
            s@ == unary_op_name(self),
    {
        match self {
            UnaryOp::Not => "not",
            UnaryOp::BitwiseNot => "bit_not",
            UnaryOp::Positive => "positive",
            UnaryOp::Negative => "negative",
        }
    }
}

/// A name told apart by its length, its first two characters and its last one.
pub open spec fn name_key(s: Seq<char>) -> (nat, char, char, char) {
    (s.len(), s[0], s[1], s.last())
}

/// The operator a listing name's key stands for.
pub open spec fn bin_op_of_key(k: (nat, char, char, char)) -> Option<BinOp> {
    if k == (3nat, 'a', 'd', 'd') { Some(BinOp::Add) }
    else if k == (3nat, 's', 'u', 'b') { Some(BinOp::Sub) }
    else if k == (4nat, 'm', 'u', 't') { Some(BinOp::Mult) }
    else if k == (3nat, 'd', 'i', 'v') { Some(BinOp::Div) }
    else if k == (4nat, 'i', 'd', 'v') { Some(BinOp::IDiv) }
    else if k == (3nat, 'm', 'o', 'd') { Some(BinOp::Mod) }
    else if k == (5nat, 'e', 'q', 'l') { Some(BinOp::Identity) }
    else if k == (9nat, 'n', 'o', 'l') { Some(BinOp::NotEqual) }
    else if k == (9nat, 'l', 'e', 'n') { Some(BinOp::LessThan) }
    else if k == (10nat, 'l', 'e', 'l') { Some(BinOp::LessEqual) }
    else if k == (12nat, 'g', 'r', 'n') { Some(BinOp::GreaterThan) }
    else if k == (13nat, 'g', 'r', 'l') { Some(BinOp::GreaterEqual) }
    else if k == (3nat, 'a', 'n', 'd') { Some(BinOp::And) }
    else if k == (2nat, 'o', 'r', 'r') { Some(BinOp::Or) }
    else if k == (3nat, 'x', 'o', 'r') { Some(BinOp::Xor) }
    else if k == (7nat, 'b', 'i', 'd') { Some(BinOp::BitAnd) }
    else if k == (6nat, 'b', 'i', 'r') { Some(BinOp::BitOr) }
    else if k == (7nat, 'b', 'i', 'r') { Some(BinOp::BitXor) }
    else if k == (14nat, 'b', 'i', 't') { Some(BinOp::BitShiftLeft) }
    else if k == (15nat, 'b', 'i', 't') { Some(BinOp::BitShiftRight) }
    else if k == (13nat, 'n', 'u', 'e') { Some(BinOp::Coalesce) }
    else { None }
}

/// Each binary operator has a listing name of its own: two operators with the same name are
/// the same operator. A `<=` is listed as `less_equal`, never as another comparison.
pub proof fn lemma_bin_op_names_distinct(a: BinOp, b: BinOp)
    ensures
        bin_op_name(a) == bin_op_name(b) ==> a == b,
        bin_op_name(BinOp::LessEqual) == "less_equal"@,
        bin_op_name(BinOp::LessThan) == "less_than"@,
{
    lemma_bin_op_name_key(a);
    lemma_bin_op_name_key(b);
}

proof fn lemma_bin_op_name_key(a: BinOp)
    ensures
        bin_op_of_key(name_key(bin_op_name(a))) == Some(a),
{
    match a {
        BinOp::Add => { reveal_strlit("add"); },
        BinOp::Sub => { reveal_strlit("sub"); },
        BinOp::Mult => { reveal_strlit("mult"); },
        BinOp::Div => { reveal_strlit("div"); },
        BinOp::IDiv => { reveal_strlit("idiv"); },
        BinOp::Mod => { reveal_strlit("mod"); },
        BinOp::Identity => { reveal_strlit("equal"); },
        BinOp::NotEqual => { reveal_strlit("not_equal"); },
        BinOp::LessThan => { reveal_strlit("less_than"); },
        BinOp::LessEqual => { reveal_strlit("less_equal"); },
        BinOp::GreaterThan => { reveal_strlit("greater_than"); },
        BinOp::GreaterEqual => { reveal_strlit("greater_equal"); },
        BinOp::And => { reveal_strlit("and"); },
        BinOp::Or => { reveal_strlit("or"); },
        BinOp::Xor => { reveal_strlit("xor"); },
        BinOp::BitAnd => { reveal_strlit("bit_and"); },
        BinOp::BitOr => { reveal_strlit("bit_or"); },
        BinOp::BitXor => { reveal_strlit("bit_xor"); },
        BinOp::BitShiftLeft => { reveal_strlit("bit_shift_left"); },
        BinOp::BitShiftRight => { reveal_strlit("bit_shift_right"); },
        BinOp::Coalesce => { reveal_strlit("null_coalesce"); },
    }
}

/// Each unary operator has a listing name of its own.
pub proof fn lemma_unary_op_names_distinct(a: UnaryOp, b: UnaryOp)
    ensures
        unary_op_name(a) == unary_op_name(b) ==> a == b,
{
    reveal_strlit("not");
    reveal_strlit("bit_not");
    reveal_strlit("positive");
    reveal_strlit("negative");
    assert(unary_op_name(a).len() != unary_op_name(b).len() || unary_op_name(a)[0] != unary_op_name(b)[0] || a == b);
}

/// Folding a bitwise operation on two integer constants gives the integer whose bits are
/// what the operation makes of the operands' bits: an or holds every bit of both and nothing
/// else, an and holds exactly the bits both share, and an exclusive or turns one operand into
/// the other.
pub proof fn lemma_fold_bitwise(a: i64, b: i64)
    ensures
        spec_eval_int(BinOp::BitOr, a, b) matches Ok(Scalar::Int(r)) && r & a == a && r & b == b && r & !a & !b == 0,
        spec_eval_int(BinOp::BitAnd, a, b) matches Ok(Scalar::Int(r)) && r & a == r && r & b == r && a & b & !r == 0,
        spec_eval_int(BinOp::BitXor, a, b) matches Ok(Scalar::Int(r)) && r ^ a == b && r ^ b == a,
{
    let o = a | b;
    let n = a & b;
    let x = a ^ b;
    assert(o & a == a && o & b == b && o & !a & !b == 0) by (bit_vector)
        requires
            o == a | b,
    ;
    assert(n & a == n && n & b == n && a & b & !n == 0) by (bit_vector)
        requires
            n == a & b,
    ;
    assert(x ^ a == b && x ^ b == a) by (bit_vector)
        requires
            x == a ^ b,
    ;
}

/// Folding a sum, difference or product of two integer constants gives the exact value where
/// it fits an `i64`, and an overflow exactly where it doesn't.
pub proof fn lemma_fold_arith(a: i64, b: i64)
    ensures
        spec_eval_int(BinOp::Add, a, b) == if i64::MIN <= a + b <= i64::MAX {
            Ok::<Scalar, BinFault>(Scalar::Int((a + b) as i64))
        } else {
            Err(BinFault::Overflow)
        },
        spec_eval_int(BinOp::Sub, a, b) matches Ok(Scalar::Int(r)) ==> r == a - b,
        spec_eval_int(BinOp::Sub, a, b) is Err <==> !(i64::MIN <= a - b <= i64::MAX),
        spec_eval_int(BinOp::Mult, a, b) matches Ok(Scalar::Int(r)) ==> r == a * b,
        spec_eval_int(BinOp::Mult, a, b) is Err <==> !(i64::MIN <= a * b <= i64::MAX),
{
}

/// Folding a comparison of two integer constants tells whether the comparison holds of them.
pub proof fn lemma_fold_compare(a: i64, b: i64)
    ensures
        spec_eval_int(BinOp::LessThan, a, b) == Ok::<Scalar, BinFault>(Scalar::Bool(a < b)),
        spec_eval_int(BinOp::LessEqual, a, b) == Ok::<Scalar, BinFault>(Scalar::Bool(a < b || a == b)),
        spec_eval_int(BinOp::GreaterThan, a, b) == Ok::<Scalar, BinFault>(Scalar::Bool(b < a)),
        spec_eval_int(BinOp::GreaterEqual, a, b) == Ok::<Scalar, BinFault>(Scalar::Bool(b < a || a == b)),
        spec_eval_int(BinOp::Identity, a, b) == Ok::<Scalar, BinFault>(Scalar::Bool(a == b)),
        spec_eval_int(BinOp::NotEqual, a, b) == Ok::<Scalar, BinFault>(Scalar::Bool(!(a == b))),
{
}

/// Folding an integer division or remainder: by zero it faults; otherwise the quotient `q` and
/// remainder `m` of the same operands put `a` back together (`q * b + m == a`), the remainder
/// is smaller than the divisor and has the sign of `a`, as Rust's `/` and `%` do.
pub proof fn lemma_fold_division(a: i64, b: i64)
    ensures
        b == 0 ==> spec_eval_int(BinOp::IDiv, a, b) == Err::<Scalar, BinFault>(BinFault::DivByZero)
            && spec_eval_int(BinOp::Mod, a, b) == Err::<Scalar, BinFault>(BinFault::ModByZero),
        b != 0 && !(a == i64::MIN && b == -1) ==> (spec_eval_int(BinOp::IDiv, a, b) matches Ok(Scalar::Int(q))
            && spec_eval_int(BinOp::Mod, a, b) matches Ok(Scalar::Int(m)) && q * b + m == a
            && (if b > 0 { -b < m < b } else { b < m < -b }) && (m == 0 || (m > 0) == (a > 0))),
        b == -1 && a == i64::MIN ==> spec_eval_int(BinOp::IDiv, a, b) is Err && spec_eval_int(BinOp::Mod, a, b) is Err,
{
    if b != 0 {
        let ai = a as int;
        let bi = b as int;
        let q = trunc_div(ai, bi);
        let m = trunc_rem(ai, bi);
        assert(q * bi + m == ai && (if bi > 0 { -bi < m < bi } else { bi < m < -bi }) && (m == 0 || (m > 0) == (ai > 0))) by (nonlinear_arith)
            requires
                bi != 0,
                q == (if ai >= 0 {
                    if bi > 0 { ai / bi } else { -(ai / (-bi)) }
                } else {
                    if bi > 0 { -((-ai) / bi) } else { (-ai) / (-bi) }
                }),
                m == (if ai >= 0 { ai % (if bi > 0 { bi } else { -bi }) } else { -((-ai) % (if bi > 0 { bi } else { -bi })) }),
        ;
        if !(a == i64::MIN && b == -1) {
            assert(i64::MIN <= q <= i64::MAX) by (nonlinear_arith)
                requires
                    bi != 0,
                    !(ai == i64::MIN && bi == -1),
                    i64::MIN <= ai <= i64::MAX,
                    i64::MIN <= bi <= i64::MAX,
                    q * bi + m == ai,
                    (if bi > 0 { -bi < m < bi } else { bi < m < -bi }),
                    (m == 0 || (m > 0) == (ai > 0)),
            ;
        } else {
            assert(-bi == 1);
            assert((-ai) / 1 == -ai) by (nonlinear_arith);
            assert(q == i64::MAX + 1);
        }
    }
}

/// Folding a shift of two integer constants: a shift by `0..64` gives the bits of `a` moved by
/// `b` places (a left shift with zeros coming in below, a right shift keeping the sign, so that
/// shifting back left clears exactly the `b` lowest bits of `a`); any other amount faults.
pub proof fn lemma_fold_shift(a: i64, b: i64)
    ensures
        !(0 <= b < 64) ==> spec_eval_int(BinOp::BitShiftLeft, a, b) == Err::<Scalar, BinFault>(BinFault::InvalidShift)
            && spec_eval_int(BinOp::BitShiftRight, a, b) == Err::<Scalar, BinFault>(BinFault::InvalidShift),
        0 <= b < 64 ==> (spec_eval_int(BinOp::BitShiftLeft, a, b) matches Ok(Scalar::Int(r)) && r >> (b as u32) << (b
            as u32) == r && r == a << (b as u32)),
        0 <= b < 64 ==> (spec_eval_int(BinOp::BitShiftRight, a, b) matches Ok(Scalar::Int(r)) && r << (b as u32) == a
            & !(((1i64 << (b as u32)) - 1) as i64) && (r < 0) == (a < 0)),
{
    if 0 <= b < 64 {
        let s = b as u32;
        let l = a << s;
        let r = a >> s;
        assert(l >> s << s == l) by (bit_vector)
            requires
                l == a << s,
                s < 64,
        ;
        assert(r << s == a & !(((1i64 << s) - 1) as i64) && (r < 0) == (a < 0)) by (bit_vector)
            requires
                r == a >> s,
                s < 64,
        ;
    }
}

} // verus!
