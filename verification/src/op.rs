//! Bytecode ops: what each one holds, how it is written, and how it is read back.
use vstd::prelude::*;

use crate::constant::{prefixed, Constant};
use crate::field::{
    access_at, bin_at, copy_parts, copy_regs, copy_targets, flag_at, imm_at, jump_at, kinds,
    parse_field, reg_at, take_konst, take_parts, take_regs, take_table, unary_at, views, word_at,
    field_bytes, field_encodable, field_kind, field_wf, BlockTarget, Field, OpFormatPart, WireField,
    WireKind,
};
use crate::ids::{AdtId, BodyId, NativeId, Reg, StrId};
use crate::list::flat;
use crate::ops::{AccessKind, BinOp, UnaryOp};

verus! {

broadcast use vstd::seq_lib::group_seq_properties;

/// One instruction of the register machine. A field named `dst` is the register the op writes.
#[derive(Debug, Clone)]
pub enum Op {
    Move { dst: Reg, src: Reg },
    NewArray { dst: Reg },
    NewDict { dst: Reg },
    NewInstance { dst: Reg, adt: AdtId, fields: Vec<Reg> },
    NewClosure { dst: Reg, body: BodyId, captures: Vec<Reg> },
    Push { array: Reg, value: Reg },
    Insert { dict: Reg, key: StrId, value: Reg },
    SetIndex { set: Reg, index: Reg, value: Reg },
    SetField { receiver: Reg, slot: u32, value: Reg },
    LoadBody { dst: Reg, body: BodyId },
    LoadConst { dst: Reg, constant: Constant },
    Jump { target: BlockTarget },
    JumpIf { cond: Reg, target: BlockTarget, is_true: bool },
    ForNext { idx: Reg, bound: Reg, target: BlockTarget },
    Switch { scrut: Reg, base: u32, default: BlockTarget, table: Vec<BlockTarget> },
    Call { dst: Reg, callee: Reg, args: Vec<Reg> },
    CallDirect { dst: Reg, body: BodyId, args: Vec<Reg> },
    CallNative { dst: Reg, id: NativeId, args: Vec<Reg> },
    Return { val: Reg },
    Panic {},
    Raise { val: Reg },
    IsRaised { dst: Reg, src: Reg },
    UnwrapRaised { dst: Reg, src: Reg },
    Unwrap { dst: Reg, src: Reg },
    GetIndex { dst: Reg, set: Reg, index: Reg, kind: AccessKind },
    GetField { dst: Reg, src: Reg, slot: u32, kind: AccessKind },
    Len { dst: Reg, src: Reg },
    ToFloat { dst: Reg, src: Reg },
    Sqrt { dst: Reg, src: Reg },
    In { dst: Reg, needle: Reg, haystack: Reg, condition: bool },
    IsInstance { dst: Reg, src: Reg, adt: AdtId },
    Format { dst: Reg, parts: Vec<OpFormatPart> },
    Bin { dst: Reg, left: Reg, op: BinOp, right: Reg },
    Unary { dst: Reg, op: UnaryOp, src: Reg },
    BoolEq { dst: Reg, left: Reg, right: Reg },
    BoolNe { dst: Reg, left: Reg, right: Reg },
    AddInt { dst: Reg, left: Reg, right: Reg },
    SubInt { dst: Reg, left: Reg, right: Reg },
    MultInt { dst: Reg, left: Reg, right: Reg },
    ModInt { dst: Reg, left: Reg, right: Reg },
    IntLt { dst: Reg, left: Reg, right: Reg },
    IntLe { dst: Reg, left: Reg, right: Reg },
    IntGt { dst: Reg, left: Reg, right: Reg },
    IntGe { dst: Reg, left: Reg, right: Reg },
    IntEq { dst: Reg, left: Reg, right: Reg },
    IntNe { dst: Reg, left: Reg, right: Reg },
    AddIntImm { dst: Reg, left: Reg, val: i64 },
    SubIntImm { dst: Reg, left: Reg, val: i64 },
    MultIntImm { dst: Reg, left: Reg, val: i64 },
    ModIntImm { dst: Reg, left: Reg, val: i64 },
    IntLtImm { dst: Reg, left: Reg, val: i64 },
    IntLeImm { dst: Reg, left: Reg, val: i64 },
    IntGtImm { dst: Reg, left: Reg, val: i64 },
    IntGeImm { dst: Reg, left: Reg, val: i64 },
    IntEqImm { dst: Reg, left: Reg, val: i64 },
    IntNeImm { dst: Reg, left: Reg, val: i64 },
    BIntLt { target: BlockTarget, left: Reg, right: Reg, is_true: bool },
    BIntLe { target: BlockTarget, left: Reg, right: Reg, is_true: bool },
    BIntGt { target: BlockTarget, left: Reg, right: Reg, is_true: bool },
    BIntGe { target: BlockTarget, left: Reg, right: Reg, is_true: bool },
    BIntEq { target: BlockTarget, left: Reg, right: Reg, is_true: bool },
    BIntNe { target: BlockTarget, left: Reg, right: Reg, is_true: bool },
    BIntLtImm { target: BlockTarget, left: Reg, val: i64, is_true: bool },
    BIntLeImm { target: BlockTarget, left: Reg, val: i64, is_true: bool },
    BIntGtImm { target: BlockTarget, left: Reg, val: i64, is_true: bool },
    BIntGeImm { target: BlockTarget, left: Reg, val: i64, is_true: bool },
    BIntEqImm { target: BlockTarget, left: Reg, val: i64, is_true: bool },
    BIntNeImm { target: BlockTarget, left: Reg, val: i64, is_true: bool },
    AddFloat { dst: Reg, left: Reg, right: Reg },
    SubFloat { dst: Reg, left: Reg, right: Reg },
    MultFloat { dst: Reg, left: Reg, right: Reg },
    DivFloat { dst: Reg, left: Reg, right: Reg },
    FloatLt { dst: Reg, left: Reg, right: Reg },
    FloatLe { dst: Reg, left: Reg, right: Reg },
    FloatGt { dst: Reg, left: Reg, right: Reg },
    FloatGe { dst: Reg, left: Reg, right: Reg },
    FloatEq { dst: Reg, left: Reg, right: Reg },
    FloatNe { dst: Reg, left: Reg, right: Reg },
    AddFloatImm { dst: Reg, left: Reg, val: i64 },
    SubFloatImm { dst: Reg, left: Reg, val: i64 },
    MultFloatImm { dst: Reg, left: Reg, val: i64 },
    ModFloatImm { dst: Reg, left: Reg, val: i64 },
    FloatLtImm { dst: Reg, left: Reg, val: i64 },
    FloatLeImm { dst: Reg, left: Reg, val: i64 },
    FloatGtImm { dst: Reg, left: Reg, val: i64 },
    FloatGeImm { dst: Reg, left: Reg, val: i64 },
    FloatEqImm { dst: Reg, left: Reg, val: i64 },
    FloatNeImm { dst: Reg, left: Reg, val: i64 },
    BFloatLt { target: BlockTarget, left: Reg, right: Reg, is_true: bool },
    BFloatLe { target: BlockTarget, left: Reg, right: Reg, is_true: bool },
    BFloatGt { target: BlockTarget, left: Reg, right: Reg, is_true: bool },
    BFloatGe { target: BlockTarget, left: Reg, right: Reg, is_true: bool },
    BFloatEq { target: BlockTarget, left: Reg, right: Reg, is_true: bool },
    BFloatNe { target: BlockTarget, left: Reg, right: Reg, is_true: bool },
    BFloatLtImm { target: BlockTarget, left: Reg, val: i64, is_true: bool },
    BFloatLeImm { target: BlockTarget, left: Reg, val: i64, is_true: bool },
    BFloatGtImm { target: BlockTarget, left: Reg, val: i64, is_true: bool },
    BFloatGeImm { target: BlockTarget, left: Reg, val: i64, is_true: bool },
    BFloatEqImm { target: BlockTarget, left: Reg, val: i64, is_true: bool },
    BFloatNeImm { target: BlockTarget, left: Reg, val: i64, is_true: bool },
    StrEq { dst: Reg, left: Reg, right: Reg },
    StrNe { dst: Reg, left: Reg, right: Reg },
}

/// The kind of each [`Op`], numbered as the first byte of its encoding.
#[derive(Debug, Clone, Copy, PartialEq, Eq, Structural)]
pub enum OpCode {
    Move,
    NewArray,
    NewDict,
    NewInstance,
    NewClosure,
    Push,
    Insert,
    SetIndex,
    SetField,
    LoadBody,
    LoadConst,
    Jump,
    JumpIf,
    ForNext,
    Switch,
    Call,
    CallDirect,
    CallNative,
    Return,
    Panic,
    Raise,
    IsRaised,
    UnwrapRaised,
    Unwrap,
    GetIndex,
    GetField,
    Len,
    ToFloat,
    Sqrt,
    In,
    IsInstance,
    Format,
    Bin,
    Unary,
    BoolEq,
    BoolNe,
    AddInt,
    SubInt,
    MultInt,
    ModInt,
    IntLt,
    IntLe,
    IntGt,
    IntGe,
    IntEq,
    IntNe,
    AddIntImm,
    SubIntImm,
    MultIntImm,
    ModIntImm,
    IntLtImm,
    IntLeImm,
    IntGtImm,
    IntGeImm,
    IntEqImm,
    IntNeImm,
    BIntLt,
    BIntLe,
    BIntGt,
    BIntGe,
    BIntEq,
    BIntNe,
    BIntLtImm,
    BIntLeImm,
    BIntGtImm,
    BIntGeImm,
    BIntEqImm,
    BIntNeImm,
    AddFloat,
    SubFloat,
    MultFloat,
    DivFloat,
    FloatLt,
    FloatLe,
    FloatGt,
    FloatGe,
    FloatEq,
    FloatNe,
    AddFloatImm,
    SubFloatImm,
    MultFloatImm,
    ModFloatImm,
    FloatLtImm,
    FloatLeImm,
    FloatGtImm,
    FloatGeImm,
    FloatEqImm,
    FloatNeImm,
    BFloatLt,
    BFloatLe,
    BFloatGt,
    BFloatGe,
    BFloatEq,
    BFloatNe,
    BFloatLtImm,
    BFloatLeImm,
    BFloatGtImm,
    BFloatGeImm,
    BFloatEqImm,
    BFloatNeImm,
    StrEq,
    StrNe,
}

impl OpCode {
    /// How many kinds of op there are.
    pub const COUNT: usize = 102;
}

/// The byte that stands for each kind of op.
pub open spec fn opcode_byte(c: OpCode) -> u8 {
    match c {
        OpCode::Move => 0u8,
        OpCode::NewArray => 1u8,
        OpCode::NewDict => 2u8,
        OpCode::NewInstance => 3u8,
        OpCode::NewClosure => 4u8,
        OpCode::Push => 5u8,
        OpCode::Insert => 6u8,
        OpCode::SetIndex => 7u8,
        OpCode::SetField => 8u8,
        OpCode::LoadBody => 9u8,
        OpCode::LoadConst => 10u8,
        OpCode::Jump => 11u8,
        OpCode::JumpIf => 12u8,
        OpCode::ForNext => 13u8,
        OpCode::Switch => 14u8,
        OpCode::Call => 15u8,
        OpCode::CallDirect => 16u8,
        OpCode::CallNative => 17u8,
        OpCode::Return => 18u8,
        OpCode::Panic => 19u8,
        OpCode::Raise => 20u8,
        OpCode::IsRaised => 21u8,
        OpCode::UnwrapRaised => 22u8,
        OpCode::Unwrap => 23u8,
        OpCode::GetIndex => 24u8,
        OpCode::GetField => 25u8,
        OpCode::Len => 26u8,
        OpCode::ToFloat => 27u8,
        OpCode::Sqrt => 28u8,
        OpCode::In => 29u8,
        OpCode::IsInstance => 30u8,
        OpCode::Format => 31u8,
        OpCode::Bin => 32u8,
        OpCode::Unary => 33u8,
        OpCode::BoolEq => 34u8,
        OpCode::BoolNe => 35u8,
        OpCode::AddInt => 36u8,
        OpCode::SubInt => 37u8,
        OpCode::MultInt => 38u8,
        OpCode::ModInt => 39u8,
        OpCode::IntLt => 40u8,
        OpCode::IntLe => 41u8,
        OpCode::IntGt => 42u8,
        OpCode::IntGe => 43u8,
        OpCode::IntEq => 44u8,
        OpCode::IntNe => 45u8,
        OpCode::AddIntImm => 46u8,
        OpCode::SubIntImm => 47u8,
        OpCode::MultIntImm => 48u8,
        OpCode::ModIntImm => 49u8,
        OpCode::IntLtImm => 50u8,
        OpCode::IntLeImm => 51u8,
        OpCode::IntGtImm => 52u8,
        OpCode::IntGeImm => 53u8,
        OpCode::IntEqImm => 54u8,
        OpCode::IntNeImm => 55u8,
        OpCode::BIntLt => 56u8,
        OpCode::BIntLe => 57u8,
        OpCode::BIntGt => 58u8,
        OpCode::BIntGe => 59u8,
        OpCode::BIntEq => 60u8,
        OpCode::BIntNe => 61u8,
        OpCode::BIntLtImm => 62u8,
        OpCode::BIntLeImm => 63u8,
        OpCode::BIntGtImm => 64u8,
        OpCode::BIntGeImm => 65u8,
        OpCode::BIntEqImm => 66u8,
        OpCode::BIntNeImm => 67u8,
        OpCode::AddFloat => 68u8,
        OpCode::SubFloat => 69u8,
        OpCode::MultFloat => 70u8,
        OpCode::DivFloat => 71u8,
        OpCode::FloatLt => 72u8,
        OpCode::FloatLe => 73u8,
        OpCode::FloatGt => 74u8,
        OpCode::FloatGe => 75u8,
        OpCode::FloatEq => 76u8,
        OpCode::FloatNe => 77u8,
        OpCode::AddFloatImm => 78u8,
        OpCode::SubFloatImm => 79u8,
        OpCode::MultFloatImm => 80u8,
        OpCode::ModFloatImm => 81u8,
        OpCode::FloatLtImm => 82u8,
        OpCode::FloatLeImm => 83u8,
        OpCode::FloatGtImm => 84u8,
        OpCode::FloatGeImm => 85u8,
        OpCode::FloatEqImm => 86u8,
        OpCode::FloatNeImm => 87u8,
        OpCode::BFloatLt => 88u8,
        OpCode::BFloatLe => 89u8,
        OpCode::BFloatGt => 90u8,
        OpCode::BFloatGe => 91u8,
        OpCode::BFloatEq => 92u8,
        OpCode::BFloatNe => 93u8,
        OpCode::BFloatLtImm => 94u8,
        OpCode::BFloatLeImm => 95u8,
        OpCode::BFloatGtImm => 96u8,
        OpCode::BFloatGeImm => 97u8,
        OpCode::BFloatEqImm => 98u8,
        OpCode::BFloatNeImm => 99u8,
        OpCode::StrEq => 100u8,
        OpCode::StrNe => 101u8,
    }
}

/// The kind of op whose byte is `b`, if there is one.
pub open spec fn opcode_of(b: u8) -> Option<OpCode> {
    if b == 0 {
        Some(OpCode::Move)
    } else if b == 1 {
        Some(OpCode::NewArray)
    } else if b == 2 {
        Some(OpCode::NewDict)
    } else if b == 3 {
        Some(OpCode::NewInstance)
    } else if b == 4 {
        Some(OpCode::NewClosure)
    } else if b == 5 {
        Some(OpCode::Push)
    } else if b == 6 {
        Some(OpCode::Insert)
    } else if b == 7 {
        Some(OpCode::SetIndex)
    } else if b == 8 {
        Some(OpCode::SetField)
    } else if b == 9 {
        Some(OpCode::LoadBody)
    } else if b == 10 {
        Some(OpCode::LoadConst)
    } else if b == 11 {
        Some(OpCode::Jump)
    } else if b == 12 {
        Some(OpCode::JumpIf)
    } else if b == 13 {
        Some(OpCode::ForNext)
    } else if b == 14 {
        Some(OpCode::Switch)
    } else if b == 15 {
        Some(OpCode::Call)
    } else if b == 16 {
        Some(OpCode::CallDirect)
    } else if b == 17 {
        Some(OpCode::CallNative)
    } else if b == 18 {
        Some(OpCode::Return)
    } else if b == 19 {
        Some(OpCode::Panic)
    } else if b == 20 {
        Some(OpCode::Raise)
    } else if b == 21 {
        Some(OpCode::IsRaised)
    } else if b == 22 {
        Some(OpCode::UnwrapRaised)
    } else if b == 23 {
        Some(OpCode::Unwrap)
    } else if b == 24 {
        Some(OpCode::GetIndex)
    } else if b == 25 {
        Some(OpCode::GetField)
    } else if b == 26 {
        Some(OpCode::Len)
    } else if b == 27 {
        Some(OpCode::ToFloat)
    } else if b == 28 {
        Some(OpCode::Sqrt)
    } else if b == 29 {
        Some(OpCode::In)
    } else if b == 30 {
        Some(OpCode::IsInstance)
    } else if b == 31 {
        Some(OpCode::Format)
    } else if b == 32 {
        Some(OpCode::Bin)
    } else if b == 33 {
        Some(OpCode::Unary)
    } else if b == 34 {
        Some(OpCode::BoolEq)
    } else if b == 35 {
        Some(OpCode::BoolNe)
    } else if b == 36 {
        Some(OpCode::AddInt)
    } else if b == 37 {
        Some(OpCode::SubInt)
    } else if b == 38 {
        Some(OpCode::MultInt)
    } else if b == 39 {
        Some(OpCode::ModInt)
    } else if b == 40 {
        Some(OpCode::IntLt)
    } else if b == 41 {
        Some(OpCode::IntLe)
    } else if b == 42 {
        Some(OpCode::IntGt)
    } else if b == 43 {
        Some(OpCode::IntGe)
    } else if b == 44 {
        Some(OpCode::IntEq)
    } else if b == 45 {
        Some(OpCode::IntNe)
    } else if b == 46 {
        Some(OpCode::AddIntImm)
    } else if b == 47 {
        Some(OpCode::SubIntImm)
    } else if b == 48 {
        Some(OpCode::MultIntImm)
    } else if b == 49 {
        Some(OpCode::ModIntImm)
    } else if b == 50 {
        Some(OpCode::IntLtImm)
    } else if b == 51 {
        Some(OpCode::IntLeImm)
    } else if b == 52 {
        Some(OpCode::IntGtImm)
    } else if b == 53 {
        Some(OpCode::IntGeImm)
    } else if b == 54 {
        Some(OpCode::IntEqImm)
    } else if b == 55 {
        Some(OpCode::IntNeImm)
    } else if b == 56 {
        Some(OpCode::BIntLt)
    } else if b == 57 {
        Some(OpCode::BIntLe)
    } else if b == 58 {
        Some(OpCode::BIntGt)
    } else if b == 59 {
        Some(OpCode::BIntGe)
    } else if b == 60 {
        Some(OpCode::BIntEq)
    } else if b == 61 {
        Some(OpCode::BIntNe)
    } else if b == 62 {
        Some(OpCode::BIntLtImm)
    } else if b == 63 {
        Some(OpCode::BIntLeImm)
    } else if b == 64 {
        Some(OpCode::BIntGtImm)
    } else if b == 65 {
        Some(OpCode::BIntGeImm)
    } else if b == 66 {
        Some(OpCode::BIntEqImm)
    } else if b == 67 {
        Some(OpCode::BIntNeImm)
    } else if b == 68 {
        Some(OpCode::AddFloat)
    } else if b == 69 {
        Some(OpCode::SubFloat)
    } else if b == 70 {
        Some(OpCode::MultFloat)
    } else if b == 71 {
        Some(OpCode::DivFloat)
    } else if b == 72 {
        Some(OpCode::FloatLt)
    } else if b == 73 {
        Some(OpCode::FloatLe)
    } else if b == 74 {
        Some(OpCode::FloatGt)
    } else if b == 75 {
        Some(OpCode::FloatGe)
    } else if b == 76 {
        Some(OpCode::FloatEq)
    } else if b == 77 {
        Some(OpCode::FloatNe)
    } else if b == 78 {
        Some(OpCode::AddFloatImm)
    } else if b == 79 {
        Some(OpCode::SubFloatImm)
    } else if b == 80 {
        Some(OpCode::MultFloatImm)
    } else if b == 81 {
        Some(OpCode::ModFloatImm)
    } else if b == 82 {
        Some(OpCode::FloatLtImm)
    } else if b == 83 {
        Some(OpCode::FloatLeImm)
    } else if b == 84 {
        Some(OpCode::FloatGtImm)
    } else if b == 85 {
        Some(OpCode::FloatGeImm)
    } else if b == 86 {
        Some(OpCode::FloatEqImm)
    } else if b == 87 {
        Some(OpCode::FloatNeImm)
    } else if b == 88 {
        Some(OpCode::BFloatLt)
    } else if b == 89 {
        Some(OpCode::BFloatLe)
    } else if b == 90 {
        Some(OpCode::BFloatGt)
    } else if b == 91 {
        Some(OpCode::BFloatGe)
    } else if b == 92 {
        Some(OpCode::BFloatEq)
    } else if b == 93 {
        Some(OpCode::BFloatNe)
    } else if b == 94 {
        Some(OpCode::BFloatLtImm)
    } else if b == 95 {
        Some(OpCode::BFloatLeImm)
    } else if b == 96 {
        Some(OpCode::BFloatGtImm)
    } else if b == 97 {
        Some(OpCode::BFloatGeImm)
    } else if b == 98 {
        Some(OpCode::BFloatEqImm)
    } else if b == 99 {
        Some(OpCode::BFloatNeImm)
    } else if b == 100 {
        Some(OpCode::StrEq)
    } else if b == 101 {
        Some(OpCode::StrNe)
    } else {
        None
    }
}


impl OpCode {
    /// The byte that stands for this kind of op.
    pub fn to_byte(self) -> (b: u8)
        ensures
            b == opcode_byte(self),
    {
        match self {
            OpCode::Move => 0,
            OpCode::NewArray => 1,
            OpCode::NewDict => 2,
            OpCode::NewInstance => 3,
            OpCode::NewClosure => 4,
            OpCode::Push => 5,
            OpCode::Insert => 6,
            OpCode::SetIndex => 7,
            OpCode::SetField => 8,
            OpCode::LoadBody => 9,
            OpCode::LoadConst => 10,
            OpCode::Jump => 11,
            OpCode::JumpIf => 12,
            OpCode::ForNext => 13,
            OpCode::Switch => 14,
            OpCode::Call => 15,
            OpCode::CallDirect => 16,
            OpCode::CallNative => 17,
            OpCode::Return => 18,
            OpCode::Panic => 19,
            OpCode::Raise => 20,
            OpCode::IsRaised => 21,
            OpCode::UnwrapRaised => 22,
            OpCode::Unwrap => 23,
            OpCode::GetIndex => 24,
            OpCode::GetField => 25,
            OpCode::Len => 26,
            OpCode::ToFloat => 27,
            OpCode::Sqrt => 28,
            OpCode::In => 29,
            OpCode::IsInstance => 30,
            OpCode::Format => 31,
            OpCode::Bin => 32,
            OpCode::Unary => 33,
            OpCode::BoolEq => 34,
            OpCode::BoolNe => 35,
            OpCode::AddInt => 36,
            OpCode::SubInt => 37,
            OpCode::MultInt => 38,
            OpCode::ModInt => 39,
            OpCode::IntLt => 40,
            OpCode::IntLe => 41,
            OpCode::IntGt => 42,
            OpCode::IntGe => 43,
            OpCode::IntEq => 44,
            OpCode::IntNe => 45,
            OpCode::AddIntImm => 46,
            OpCode::SubIntImm => 47,
            OpCode::MultIntImm => 48,
            OpCode::ModIntImm => 49,
            OpCode::IntLtImm => 50,
            OpCode::IntLeImm => 51,
            OpCode::IntGtImm => 52,
            OpCode::IntGeImm => 53,
            OpCode::IntEqImm => 54,
            OpCode::IntNeImm => 55,
            OpCode::BIntLt => 56,
            OpCode::BIntLe => 57,
            OpCode::BIntGt => 58,
            OpCode::BIntGe => 59,
            OpCode::BIntEq => 60,
            OpCode::BIntNe => 61,
            OpCode::BIntLtImm => 62,
            OpCode::BIntLeImm => 63,
            OpCode::BIntGtImm => 64,
            OpCode::BIntGeImm => 65,
            OpCode::BIntEqImm => 66,
            OpCode::BIntNeImm => 67,
            OpCode::AddFloat => 68,
            OpCode::SubFloat => 69,
            OpCode::MultFloat => 70,
            OpCode::DivFloat => 71,
            OpCode::FloatLt => 72,
            OpCode::FloatLe => 73,
            OpCode::FloatGt => 74,
            OpCode::FloatGe => 75,
            OpCode::FloatEq => 76,
            OpCode::FloatNe => 77,
            OpCode::AddFloatImm => 78,
            OpCode::SubFloatImm => 79,
            OpCode::MultFloatImm => 80,
            OpCode::ModFloatImm => 81,
            OpCode::FloatLtImm => 82,
            OpCode::FloatLeImm => 83,
            OpCode::FloatGtImm => 84,
            OpCode::FloatGeImm => 85,
            OpCode::FloatEqImm => 86,
            OpCode::FloatNeImm => 87,
            OpCode::BFloatLt => 88,
            OpCode::BFloatLe => 89,
            OpCode::BFloatGt => 90,
            OpCode::BFloatGe => 91,
            OpCode::BFloatEq => 92,
            OpCode::BFloatNe => 93,
            OpCode::BFloatLtImm => 94,
            OpCode::BFloatLeImm => 95,
            OpCode::BFloatGtImm => 96,
            OpCode::BFloatGeImm => 97,
            OpCode::BFloatEqImm => 98,
            OpCode::BFloatNeImm => 99,
            OpCode::StrEq => 100,
            OpCode::StrNe => 101,
        }
    }

    /// The kind of op that `b` stands for, or `None` when `b` is not below [`OpCode::COUNT`].
    pub fn from_byte(b: u8) -> (r: Option<OpCode>)
        ensures
            r matches Some(c) ==> opcode_byte(c) == b,
            r is None <==> b >= 102,
    {
        match b {
            0 => Some(OpCode::Move),
            1 => Some(OpCode::NewArray),
            2 => Some(OpCode::NewDict),
            3 => Some(OpCode::NewInstance),
            4 => Some(OpCode::NewClosure),
            5 => Some(OpCode::Push),
            6 => Some(OpCode::Insert),
            7 => Some(OpCode::SetIndex),
            8 => Some(OpCode::SetField),
            9 => Some(OpCode::LoadBody),
            10 => Some(OpCode::LoadConst),
            11 => Some(OpCode::Jump),
            12 => Some(OpCode::JumpIf),
            13 => Some(OpCode::ForNext),
            14 => Some(OpCode::Switch),
            15 => Some(OpCode::Call),
            16 => Some(OpCode::CallDirect),
            17 => Some(OpCode::CallNative),
            18 => Some(OpCode::Return),
            19 => Some(OpCode::Panic),
            20 => Some(OpCode::Raise),
            21 => Some(OpCode::IsRaised),
            22 => Some(OpCode::UnwrapRaised),
            23 => Some(OpCode::Unwrap),
            24 => Some(OpCode::GetIndex),
            25 => Some(OpCode::GetField),
            26 => Some(OpCode::Len),
            27 => Some(OpCode::ToFloat),
            28 => Some(OpCode::Sqrt),
            29 => Some(OpCode::In),
            30 => Some(OpCode::IsInstance),
            31 => Some(OpCode::Format),
            32 => Some(OpCode::Bin),
            33 => Some(OpCode::Unary),
            34 => Some(OpCode::BoolEq),
            35 => Some(OpCode::BoolNe),
            36 => Some(OpCode::AddInt),
            37 => Some(OpCode::SubInt),
            38 => Some(OpCode::MultInt),
            39 => Some(OpCode::ModInt),
            40 => Some(OpCode::IntLt),
            41 => Some(OpCode::IntLe),
            42 => Some(OpCode::IntGt),
            43 => Some(OpCode::IntGe),
            44 => Some(OpCode::IntEq),
            45 => Some(OpCode::IntNe),
            46 => Some(OpCode::AddIntImm),
            47 => Some(OpCode::SubIntImm),
            48 => Some(OpCode::MultIntImm),
            49 => Some(OpCode::ModIntImm),
            50 => Some(OpCode::IntLtImm),
            51 => Some(OpCode::IntLeImm),
            52 => Some(OpCode::IntGtImm),
            53 => Some(OpCode::IntGeImm),
            54 => Some(OpCode::IntEqImm),
            55 => Some(OpCode::IntNeImm),
            56 => Some(OpCode::BIntLt),
            57 => Some(OpCode::BIntLe),
            58 => Some(OpCode::BIntGt),
            59 => Some(OpCode::BIntGe),
            60 => Some(OpCode::BIntEq),
            61 => Some(OpCode::BIntNe),
            62 => Some(OpCode::BIntLtImm),
            63 => Some(OpCode::BIntLeImm),
            64 => Some(OpCode::BIntGtImm),
            65 => Some(OpCode::BIntGeImm),
            66 => Some(OpCode::BIntEqImm),
            67 => Some(OpCode::BIntNeImm),
            68 => Some(OpCode::AddFloat),
            69 => Some(OpCode::SubFloat),
            70 => Some(OpCode::MultFloat),
            71 => Some(OpCode::DivFloat),
            72 => Some(OpCode::FloatLt),
            73 => Some(OpCode::FloatLe),
            74 => Some(OpCode::FloatGt),
            75 => Some(OpCode::FloatGe),
            76 => Some(OpCode::FloatEq),
            77 => Some(OpCode::FloatNe),
            78 => Some(OpCode::AddFloatImm),
            79 => Some(OpCode::SubFloatImm),
            80 => Some(OpCode::MultFloatImm),
            81 => Some(OpCode::ModFloatImm),
            82 => Some(OpCode::FloatLtImm),
            83 => Some(OpCode::FloatLeImm),
            84 => Some(OpCode::FloatGtImm),
            85 => Some(OpCode::FloatGeImm),
            86 => Some(OpCode::FloatEqImm),
            87 => Some(OpCode::FloatNeImm),
            88 => Some(OpCode::BFloatLt),
            89 => Some(OpCode::BFloatLe),
            90 => Some(OpCode::BFloatGt),
            91 => Some(OpCode::BFloatGe),
            92 => Some(OpCode::BFloatEq),
            93 => Some(OpCode::BFloatNe),
            94 => Some(OpCode::BFloatLtImm),
            95 => Some(OpCode::BFloatLeImm),
            96 => Some(OpCode::BFloatGtImm),
            97 => Some(OpCode::BFloatGeImm),
            98 => Some(OpCode::BFloatEqImm),
            99 => Some(OpCode::BFloatNeImm),
            100 => Some(OpCode::StrEq),
            101 => Some(OpCode::StrNe),
            _ => None,
        }
    }
}

/// The code of an op: the first byte of its encoding.
pub open spec fn op_code(op: Op) -> u8 {
    match op {
        Op::Move { .. } => 0u8,
        Op::NewArray { .. } => 1u8,
        Op::NewDict { .. } => 2u8,
        Op::NewInstance { .. } => 3u8,
        Op::NewClosure { .. } => 4u8,
        Op::Push { .. } => 5u8,
        Op::Insert { .. } => 6u8,
        Op::SetIndex { .. } => 7u8,
        Op::SetField { .. } => 8u8,
        Op::LoadBody { .. } => 9u8,
        Op::LoadConst { .. } => 10u8,
        Op::Jump { .. } => 11u8,
        Op::JumpIf { .. } => 12u8,
        Op::ForNext { .. } => 13u8,
        Op::Switch { .. } => 14u8,
        Op::Call { .. } => 15u8,
        Op::CallDirect { .. } => 16u8,
        Op::CallNative { .. } => 17u8,
        Op::Return { .. } => 18u8,
        Op::Panic { .. } => 19u8,
        Op::Raise { .. } => 20u8,
        Op::IsRaised { .. } => 21u8,
        Op::UnwrapRaised { .. } => 22u8,
        Op::Unwrap { .. } => 23u8,
        Op::GetIndex { .. } => 24u8,
        Op::GetField { .. } => 25u8,
        Op::Len { .. } => 26u8,
        Op::ToFloat { .. } => 27u8,
        Op::Sqrt { .. } => 28u8,
        Op::In { .. } => 29u8,
        Op::IsInstance { .. } => 30u8,
        Op::Format { .. } => 31u8,
        Op::Bin { .. } => 32u8,
        Op::Unary { .. } => 33u8,
        Op::BoolEq { .. } => 34u8,
        Op::BoolNe { .. } => 35u8,
        Op::AddInt { .. } => 36u8,
        Op::SubInt { .. } => 37u8,
        Op::MultInt { .. } => 38u8,
        Op::ModInt { .. } => 39u8,
        Op::IntLt { .. } => 40u8,
        Op::IntLe { .. } => 41u8,
        Op::IntGt { .. } => 42u8,
        Op::IntGe { .. } => 43u8,
        Op::IntEq { .. } => 44u8,
        Op::IntNe { .. } => 45u8,
        Op::AddIntImm { .. } => 46u8,
        Op::SubIntImm { .. } => 47u8,
        Op::MultIntImm { .. } => 48u8,
        Op::ModIntImm { .. } => 49u8,
        Op::IntLtImm { .. } => 50u8,
        Op::IntLeImm { .. } => 51u8,
        Op::IntGtImm { .. } => 52u8,
        Op::IntGeImm { .. } => 53u8,
        Op::IntEqImm { .. } => 54u8,
        Op::IntNeImm { .. } => 55u8,
        Op::BIntLt { .. } => 56u8,
        Op::BIntLe { .. } => 57u8,
        Op::BIntGt { .. } => 58u8,
        Op::BIntGe { .. } => 59u8,
        Op::BIntEq { .. } => 60u8,
        Op::BIntNe { .. } => 61u8,
        Op::BIntLtImm { .. } => 62u8,
        Op::BIntLeImm { .. } => 63u8,
        Op::BIntGtImm { .. } => 64u8,
        Op::BIntGeImm { .. } => 65u8,
        Op::BIntEqImm { .. } => 66u8,
        Op::BIntNeImm { .. } => 67u8,
        Op::AddFloat { .. } => 68u8,
        Op::SubFloat { .. } => 69u8,
        Op::MultFloat { .. } => 70u8,
        Op::DivFloat { .. } => 71u8,
        Op::FloatLt { .. } => 72u8,
        Op::FloatLe { .. } => 73u8,
        Op::FloatGt { .. } => 74u8,
        Op::FloatGe { .. } => 75u8,
        Op::FloatEq { .. } => 76u8,
        Op::FloatNe { .. } => 77u8,
        Op::AddFloatImm { .. } => 78u8,
        Op::SubFloatImm { .. } => 79u8,
        Op::MultFloatImm { .. } => 80u8,
        Op::ModFloatImm { .. } => 81u8,
        Op::FloatLtImm { .. } => 82u8,
        Op::FloatLeImm { .. } => 83u8,
        Op::FloatGtImm { .. } => 84u8,
        Op::FloatGeImm { .. } => 85u8,
        Op::FloatEqImm { .. } => 86u8,
        Op::FloatNeImm { .. } => 87u8,
        Op::BFloatLt { .. } => 88u8,
        Op::BFloatLe { .. } => 89u8,
        Op::BFloatGt { .. } => 90u8,
        Op::BFloatGe { .. } => 91u8,
        Op::BFloatEq { .. } => 92u8,
        Op::BFloatNe { .. } => 93u8,
        Op::BFloatLtImm { .. } => 94u8,
        Op::BFloatLeImm { .. } => 95u8,
        Op::BFloatGtImm { .. } => 96u8,
        Op::BFloatGeImm { .. } => 97u8,
        Op::BFloatEqImm { .. } => 98u8,
        Op::BFloatNeImm { .. } => 99u8,
        Op::StrEq { .. } => 100u8,
        Op::StrNe { .. } => 101u8,
    }
}

/// The values of an op's operands, in the order they are written.
pub open spec fn op_operands(op: Op) -> Seq<WireField> {
    match op {
        Op::Move { dst: a0, src: a1 } | Op::Push { array: a0, value: a1 } | Op::IsRaised { dst: a0, src: a1 } | Op::UnwrapRaised { dst: a0, src: a1 } | Op::Unwrap { dst: a0, src: a1 } | Op::Len { dst: a0, src: a1 } | Op::ToFloat { dst: a0, src: a1 } | Op::Sqrt { dst: a0, src: a1 } => seq![WireField::Reg(a0), WireField::Reg(a1)],
        Op::NewArray { dst: a0 } | Op::NewDict { dst: a0 } | Op::Return { val: a0 } | Op::Raise { val: a0 } => seq![WireField::Reg(a0)],
        Op::NewInstance { dst: a0, adt: a1, fields: a2 } => seq![WireField::Reg(a0), WireField::Word(a1.0), WireField::Regs(a2@)],
        Op::NewClosure { dst: a0, body: a1, captures: a2 } | Op::CallDirect { dst: a0, body: a1, args: a2 } => seq![WireField::Reg(a0), WireField::Word(a1.0), WireField::Regs(a2@)],
        Op::Insert { dict: a0, key: a1, value: a2 } => seq![WireField::Reg(a0), WireField::Word(a1.0), WireField::Reg(a2)],
        Op::SetIndex { set: a0, index: a1, value: a2 } | Op::BoolEq { dst: a0, left: a1, right: a2 } | Op::BoolNe { dst: a0, left: a1, right: a2 } | Op::AddInt { dst: a0, left: a1, right: a2 } | Op::SubInt { dst: a0, left: a1, right: a2 } | Op::MultInt { dst: a0, left: a1, right: a2 } | Op::ModInt { dst: a0, left: a1, right: a2 } | Op::IntLt { dst: a0, left: a1, right: a2 } | Op::IntLe { dst: a0, left: a1, right: a2 } | Op::IntGt { dst: a0, left: a1, right: a2 } | Op::IntGe { dst: a0, left: a1, right: a2 } | Op::IntEq { dst: a0, left: a1, right: a2 } | Op::IntNe { dst: a0, left: a1, right: a2 } | Op::AddFloat { dst: a0, left: a1, right: a2 } | Op::SubFloat { dst: a0, left: a1, right: a2 } | Op::MultFloat { dst: a0, left: a1, right: a2 } | Op::DivFloat { dst: a0, left: a1, right: a2 } | Op::FloatLt { dst: a0, left: a1, right: a2 } | Op::FloatLe { dst: a0, left: a1, right: a2 } | Op::FloatGt { dst: a0, left: a1, right: a2 } | Op::FloatGe { dst: a0, left: a1, right: a2 } | Op::FloatEq { dst: a0, left: a1, right: a2 } | Op::FloatNe { dst: a0, left: a1, right: a2 } | Op::StrEq { dst: a0, left: a1, right: a2 } | Op::StrNe { dst: a0, left: a1, right: a2 } => seq![WireField::Reg(a0), WireField::Reg(a1), WireField::Reg(a2)],
        Op::SetField { receiver: a0, slot: a1, value: a2 } => seq![WireField::Reg(a0), WireField::Word(a1), WireField::Reg(a2)],
        Op::LoadBody { dst: a0, body: a1 } => seq![WireField::Reg(a0), WireField::Word(a1.0)],
        Op::LoadConst { dst: a0, constant: a1 } => seq![WireField::Reg(a0), WireField::Konst(a1.model())],
        Op::Jump { target: a0 } => seq![WireField::Jump(a0)],
        Op::JumpIf { cond: a0, target: a1, is_true: a2 } => seq![WireField::Reg(a0), WireField::Jump(a1), WireField::Flag(a2)],
        Op::ForNext { idx: a0, bound: a1, target: a2 } => seq![WireField::Reg(a0), WireField::Reg(a1), WireField::Jump(a2)],
        Op::Switch { scrut: a0, base: a1, default: a2, table: a3 } => seq![WireField::Reg(a0), WireField::Word(a1), WireField::Jump(a2), WireField::Table(a3@)],
        Op::Call { dst: a0, callee: a1, args: a2 } => seq![WireField::Reg(a0), WireField::Reg(a1), WireField::Regs(a2@)],
        Op::CallNative { dst: a0, id: a1, args: a2 } => seq![WireField::Reg(a0), WireField::Word(a1.0), WireField::Regs(a2@)],
        Op::Panic {} => Seq::<WireField>::empty(),
        Op::GetIndex { dst: a0, set: a1, index: a2, kind: a3 } => seq![WireField::Reg(a0), WireField::Reg(a1), WireField::Reg(a2), WireField::Access(a3)],
        Op::GetField { dst: a0, src: a1, slot: a2, kind: a3 } => seq![WireField::Reg(a0), WireField::Reg(a1), WireField::Word(a2), WireField::Access(a3)],
        Op::In { dst: a0, needle: a1, haystack: a2, condition: a3 } => seq![WireField::Reg(a0), WireField::Reg(a1), WireField::Reg(a2), WireField::Flag(a3)],
        Op::IsInstance { dst: a0, src: a1, adt: a2 } => seq![WireField::Reg(a0), WireField::Reg(a1), WireField::Word(a2.0)],
        Op::Format { dst: a0, parts: a1 } => seq![WireField::Reg(a0), WireField::Parts(a1@)],
        Op::Bin { dst: a0, left: a1, op: a2, right: a3 } => seq![WireField::Reg(a0), WireField::Reg(a1), WireField::Bin(a2), WireField::Reg(a3)],
        Op::Unary { dst: a0, op: a1, src: a2 } => seq![WireField::Reg(a0), WireField::Unary(a1), WireField::Reg(a2)],
        Op::AddIntImm { dst: a0, left: a1, val: a2 } | Op::SubIntImm { dst: a0, left: a1, val: a2 } | Op::MultIntImm { dst: a0, left: a1, val: a2 } | Op::ModIntImm { dst: a0, left: a1, val: a2 } | Op::IntLtImm { dst: a0, left: a1, val: a2 } | Op::IntLeImm { dst: a0, left: a1, val: a2 } | Op::IntGtImm { dst: a0, left: a1, val: a2 } | Op::IntGeImm { dst: a0, left: a1, val: a2 } | Op::IntEqImm { dst: a0, left: a1, val: a2 } | Op::IntNeImm { dst: a0, left: a1, val: a2 } | Op::AddFloatImm { dst: a0, left: a1, val: a2 } | Op::SubFloatImm { dst: a0, left: a1, val: a2 } | Op::MultFloatImm { dst: a0, left: a1, val: a2 } | Op::ModFloatImm { dst: a0, left: a1, val: a2 } | Op::FloatLtImm { dst: a0, left: a1, val: a2 } | Op::FloatLeImm { dst: a0, left: a1, val: a2 } | Op::FloatGtImm { dst: a0, left: a1, val: a2 } | Op::FloatGeImm { dst: a0, left: a1, val: a2 } | Op::FloatEqImm { dst: a0, left: a1, val: a2 } | Op::FloatNeImm { dst: a0, left: a1, val: a2 } => seq![WireField::Reg(a0), WireField::Reg(a1), WireField::Imm(a2)],
        Op::BIntLt { target: a0, left: a1, right: a2, is_true: a3 } | Op::BIntLe { target: a0, left: a1, right: a2, is_true: a3 } | Op::BIntGt { target: a0, left: a1, right: a2, is_true: a3 } | Op::BIntGe { target: a0, left: a1, right: a2, is_true: a3 } | Op::BIntEq { target: a0, left: a1, right: a2, is_true: a3 } | Op::BIntNe { target: a0, left: a1, right: a2, is_true: a3 } | Op::BFloatLt { target: a0, left: a1, right: a2, is_true: a3 } | Op::BFloatLe { target: a0, left: a1, right: a2, is_true: a3 } | Op::BFloatGt { target: a0, left: a1, right: a2, is_true: a3 } | Op::BFloatGe { target: a0, left: a1, right: a2, is_true: a3 } | Op::BFloatEq { target: a0, left: a1, right: a2, is_true: a3 } | Op::BFloatNe { target: a0, left: a1, right: a2, is_true: a3 } => seq![WireField::Jump(a0), WireField::Reg(a1), WireField::Reg(a2), WireField::Flag(a3)],
        Op::BIntLtImm { target: a0, left: a1, val: a2, is_true: a3 } | Op::BIntLeImm { target: a0, left: a1, val: a2, is_true: a3 } | Op::BIntGtImm { target: a0, left: a1, val: a2, is_true: a3 } | Op::BIntGeImm { target: a0, left: a1, val: a2, is_true: a3 } | Op::BIntEqImm { target: a0, left: a1, val: a2, is_true: a3 } | Op::BIntNeImm { target: a0, left: a1, val: a2, is_true: a3 } | Op::BFloatLtImm { target: a0, left: a1, val: a2, is_true: a3 } | Op::BFloatLeImm { target: a0, left: a1, val: a2, is_true: a3 } | Op::BFloatGtImm { target: a0, left: a1, val: a2, is_true: a3 } | Op::BFloatGeImm { target: a0, left: a1, val: a2, is_true: a3 } | Op::BFloatEqImm { target: a0, left: a1, val: a2, is_true: a3 } | Op::BFloatNeImm { target: a0, left: a1, val: a2, is_true: a3 } => seq![WireField::Jump(a0), WireField::Reg(a1), WireField::Imm(a2), WireField::Flag(a3)],
    }
}

/// An op's code and the values of its operands.
pub open spec fn op_model(op: Op) -> (u8, Seq<WireField>) {
    (op_code(op), op_operands(op))
}

/// The kinds of the operands of the op with code `code`, or `None` for a byte that is no op's
/// code.
pub open spec fn op_shape(code: u8) -> Option<Seq<WireKind>> {
    match code {
        0 | 5 | 21 | 22 | 23 | 26 | 27 | 28 => Some(seq![WireKind::Reg, WireKind::Reg]),
        1 | 2 | 18 | 20 => Some(seq![WireKind::Reg]),
        3 | 4 | 16 | 17 => Some(seq![WireKind::Reg, WireKind::Word, WireKind::Regs]),
        6 | 8 => Some(seq![WireKind::Reg, WireKind::Word, WireKind::Reg]),
        7 | 34 | 35 | 36 | 37 | 38 | 39 | 40 | 41 | 42 | 43 | 44 | 45 | 68 | 69 | 70 | 71 | 72 | 73 | 74 | 75 | 76 | 77 | 100 | 101 => Some(seq![WireKind::Reg, WireKind::Reg, WireKind::Reg]),
        9 => Some(seq![WireKind::Reg, WireKind::Word]),
        10 => Some(seq![WireKind::Reg, WireKind::Konst]),
        11 => Some(seq![WireKind::Jump]),
        12 => Some(seq![WireKind::Reg, WireKind::Jump, WireKind::Flag]),
        13 => Some(seq![WireKind::Reg, WireKind::Reg, WireKind::Jump]),
        14 => Some(seq![WireKind::Reg, WireKind::Word, WireKind::Jump, WireKind::Table]),
        15 => Some(seq![WireKind::Reg, WireKind::Reg, WireKind::Regs]),
        19 => Some(Seq::<WireKind>::empty()),
        24 => Some(seq![WireKind::Reg, WireKind::Reg, WireKind::Reg, WireKind::Access]),
        25 => Some(seq![WireKind::Reg, WireKind::Reg, WireKind::Word, WireKind::Access]),
        29 => Some(seq![WireKind::Reg, WireKind::Reg, WireKind::Reg, WireKind::Flag]),
        30 => Some(seq![WireKind::Reg, WireKind::Reg, WireKind::Word]),
        31 => Some(seq![WireKind::Reg, WireKind::Parts]),
        32 => Some(seq![WireKind::Reg, WireKind::Reg, WireKind::Bin, WireKind::Reg]),
        33 => Some(seq![WireKind::Reg, WireKind::Unary, WireKind::Reg]),
        46 | 47 | 48 | 49 | 50 | 51 | 52 | 53 | 54 | 55 | 78 | 79 | 80 | 81 | 82 | 83 | 84 | 85 | 86 | 87 => Some(seq![WireKind::Reg, WireKind::Reg, WireKind::Imm]),
        56 | 57 | 58 | 59 | 60 | 61 | 88 | 89 | 90 | 91 | 92 | 93 => Some(seq![WireKind::Jump, WireKind::Reg, WireKind::Reg, WireKind::Flag]),
        62 | 63 | 64 | 65 | 66 | 67 | 94 | 95 | 96 | 97 | 98 | 99 => Some(seq![WireKind::Jump, WireKind::Reg, WireKind::Imm, WireKind::Flag]),
        _ => None,
    }
}

/// The register an op writes, if it writes one.
pub open spec fn op_dst(op: Op) -> Option<Reg> {
    match op {
        Op::Move { dst, .. }
        | Op::NewArray { dst, .. }
        | Op::NewDict { dst, .. }
        | Op::NewInstance { dst, .. }
        | Op::NewClosure { dst, .. }
        | Op::LoadBody { dst, .. }
        | Op::LoadConst { dst, .. }
        | Op::Call { dst, .. }
        | Op::CallDirect { dst, .. }
        | Op::CallNative { dst, .. }
        | Op::IsRaised { dst, .. }
        | Op::UnwrapRaised { dst, .. }
        | Op::Unwrap { dst, .. }
        | Op::GetIndex { dst, .. }
        | Op::GetField { dst, .. }
        | Op::Len { dst, .. }
        | Op::ToFloat { dst, .. }
        | Op::Sqrt { dst, .. }
        | Op::In { dst, .. }
        | Op::IsInstance { dst, .. }
        | Op::Format { dst, .. }
        | Op::Bin { dst, .. }
        | Op::Unary { dst, .. }
        | Op::BoolEq { dst, .. }
        | Op::BoolNe { dst, .. }
        | Op::AddInt { dst, .. }
        | Op::SubInt { dst, .. }
        | Op::MultInt { dst, .. }
        | Op::ModInt { dst, .. }
        | Op::IntLt { dst, .. }
        | Op::IntLe { dst, .. }
        | Op::IntGt { dst, .. }
        | Op::IntGe { dst, .. }
        | Op::IntEq { dst, .. }
        | Op::IntNe { dst, .. }
        | Op::AddIntImm { dst, .. }
        | Op::SubIntImm { dst, .. }
        | Op::MultIntImm { dst, .. }
        | Op::ModIntImm { dst, .. }
        | Op::IntLtImm { dst, .. }
        | Op::IntLeImm { dst, .. }
        | Op::IntGtImm { dst, .. }
        | Op::IntGeImm { dst, .. }
        | Op::IntEqImm { dst, .. }
        | Op::IntNeImm { dst, .. }
        | Op::AddFloat { dst, .. }
        | Op::SubFloat { dst, .. }
        | Op::MultFloat { dst, .. }
        | Op::DivFloat { dst, .. }
        | Op::FloatLt { dst, .. }
        | Op::FloatLe { dst, .. }
        | Op::FloatGt { dst, .. }
        | Op::FloatGe { dst, .. }
        | Op::FloatEq { dst, .. }
        | Op::FloatNe { dst, .. }
        | Op::AddFloatImm { dst, .. }
        | Op::SubFloatImm { dst, .. }
        | Op::MultFloatImm { dst, .. }
        | Op::ModFloatImm { dst, .. }
        | Op::FloatLtImm { dst, .. }
        | Op::FloatLeImm { dst, .. }
        | Op::FloatGtImm { dst, .. }
        | Op::FloatGeImm { dst, .. }
        | Op::FloatEqImm { dst, .. }
        | Op::FloatNeImm { dst, .. }
        | Op::StrEq { dst, .. }
        | Op::StrNe { dst, .. } => Some(dst),
        _ => None,
    }
}

/// Whether an op compares two values into a bool register.
pub open spec fn op_is_comparison(op: Op) -> bool {
    match op {
        Op::IntLt { .. }
        | Op::IntLe { .. }
        | Op::IntGt { .. }
        | Op::IntGe { .. }
        | Op::IntEq { .. }
        | Op::IntNe { .. }
        | Op::FloatLt { .. }
        | Op::FloatLe { .. }
        | Op::FloatGt { .. }
        | Op::FloatGe { .. }
        | Op::FloatEq { .. }
        | Op::FloatNe { .. }
        | Op::IntLtImm { .. }
        | Op::IntLeImm { .. }
        | Op::IntGtImm { .. }
        | Op::IntGeImm { .. }
        | Op::IntEqImm { .. }
        | Op::IntNeImm { .. }
        | Op::FloatLtImm { .. }
        | Op::FloatLeImm { .. }
        | Op::FloatGtImm { .. }
        | Op::FloatGeImm { .. }
        | Op::FloatEqImm { .. }
        | Op::FloatNeImm { .. } => true,
        _ => false,
    }
}

/// The bytes of an op: its code, then each operand.
pub open spec fn op_bytes(op: Op) -> Seq<u8> {
    seq![op_code(op)] + flat(op_operands(op), |f: WireField| field_bytes(f))
}

/// Every operand of the op can be written (see [`field_encodable`]).
pub open spec fn op_encodable(op: Op) -> bool {
    forall|i: int| 0 <= i < op_operands(op).len() ==> field_encodable(#[trigger] op_operands(op)[i])
}

/// Every operand of the op reads back as itself (see [`field_wf`]).
pub open spec fn op_wf(op: Op) -> bool {
    forall|i: int| 0 <= i < op_operands(op).len() ==> field_wf(#[trigger] op_operands(op)[i])
}

/// Reads operands of kinds `ks`, one after the other, from the start of `s`.
pub open spec fn parse_fields(ks: Seq<WireKind>, s: Seq<u8>) -> Option<(Seq<WireField>, nat)>
    decreases ks.len(),
{
    if ks.len() == 0 {
        Some((Seq::empty(), 0))
    } else {
        match parse_field(ks[0], s) {
            Some((f, k)) => prefixed(seq![f], k, parse_fields(ks.drop_first(), s.skip(k as int))),
            None => None,
        }
    }
}

/// Reads an op from the start of `s`: its code and operands, and how many bytes it took.
pub open spec fn parse_op(s: Seq<u8>) -> Option<((u8, Seq<WireField>), nat)> {
    if s.len() >= 1 && op_shape(s[0]) is Some {
        match parse_fields(op_shape(s[0])->0, s.skip(1)) {
            Some((fs, n)) => Some(((s[0], fs), 1 + n)),
            None => None,
        }
    } else {
        None
    }
}

/// Each op's operands are of the kinds its code lists.
pub proof fn lemma_op_shape(op: Op)
    ensures
        op_shape(op_code(op)) == Some(kinds(op_operands(op))),
{
    match op {
        Op::Move { .. } | Op::Push { .. } | Op::IsRaised { .. } | Op::UnwrapRaised { .. } | Op::Unwrap { .. } | Op::Len { .. } | Op::ToFloat { .. } | Op::Sqrt { .. } => {
            assert(kinds(op_operands(op)) =~= seq![WireKind::Reg, WireKind::Reg]);
        },
        Op::NewArray { .. } | Op::NewDict { .. } | Op::Return { .. } | Op::Raise { .. } => {
            assert(kinds(op_operands(op)) =~= seq![WireKind::Reg]);
        },
        Op::NewInstance { .. } => {
            assert(kinds(op_operands(op)) =~= seq![WireKind::Reg, WireKind::Word, WireKind::Regs]);
        },
        Op::NewClosure { .. } | Op::CallDirect { .. } => {
            assert(kinds(op_operands(op)) =~= seq![WireKind::Reg, WireKind::Word, WireKind::Regs]);
        },
        Op::Insert { .. } => {
            assert(kinds(op_operands(op)) =~= seq![WireKind::Reg, WireKind::Word, WireKind::Reg]);
        },
        Op::SetIndex { .. } | Op::BoolEq { .. } | Op::BoolNe { .. } | Op::AddInt { .. } | Op::SubInt { .. } | Op::MultInt { .. } | Op::ModInt { .. } | Op::IntLt { .. } | Op::IntLe { .. } | Op::IntGt { .. } | Op::IntGe { .. } | Op::IntEq { .. } | Op::IntNe { .. } | Op::AddFloat { .. } | Op::SubFloat { .. } | Op::MultFloat { .. } | Op::DivFloat { .. } | Op::FloatLt { .. } | Op::FloatLe { .. } | Op::FloatGt { .. } | Op::FloatGe { .. } | Op::FloatEq { .. } | Op::FloatNe { .. } | Op::StrEq { .. } | Op::StrNe { .. } => {
            assert(kinds(op_operands(op)) =~= seq![WireKind::Reg, WireKind::Reg, WireKind::Reg]);
        },
        Op::SetField { .. } => {
            assert(kinds(op_operands(op)) =~= seq![WireKind::Reg, WireKind::Word, WireKind::Reg]);
        },
        Op::LoadBody { .. } => {
            assert(kinds(op_operands(op)) =~= seq![WireKind::Reg, WireKind::Word]);
        },
        Op::LoadConst { .. } => {
            assert(kinds(op_operands(op)) =~= seq![WireKind::Reg, WireKind::Konst]);
        },
        Op::Jump { .. } => {
            assert(kinds(op_operands(op)) =~= seq![WireKind::Jump]);
        },
        Op::JumpIf { .. } => {
            assert(kinds(op_operands(op)) =~= seq![WireKind::Reg, WireKind::Jump, WireKind::Flag]);
        },
        Op::ForNext { .. } => {
            assert(kinds(op_operands(op)) =~= seq![WireKind::Reg, WireKind::Reg, WireKind::Jump]);
        },
        Op::Switch { .. } => {
            assert(kinds(op_operands(op)) =~= seq![WireKind::Reg, WireKind::Word, WireKind::Jump, WireKind::Table]);
        },
        Op::Call { .. } => {
            assert(kinds(op_operands(op)) =~= seq![WireKind::Reg, WireKind::Reg, WireKind::Regs]);
        },
        Op::CallNative { .. } => {
            assert(kinds(op_operands(op)) =~= seq![WireKind::Reg, WireKind::Word, WireKind::Regs]);
        },
        Op::Panic { .. } => {
            assert(kinds(op_operands(op)) =~= Seq::<WireKind>::empty());
        },
        Op::GetIndex { .. } => {
            assert(kinds(op_operands(op)) =~= seq![WireKind::Reg, WireKind::Reg, WireKind::Reg, WireKind::Access]);
        },
        Op::GetField { .. } => {
            assert(kinds(op_operands(op)) =~= seq![WireKind::Reg, WireKind::Reg, WireKind::Word, WireKind::Access]);
        },
        Op::In { .. } => {
            assert(kinds(op_operands(op)) =~= seq![WireKind::Reg, WireKind::Reg, WireKind::Reg, WireKind::Flag]);
        },
        Op::IsInstance { .. } => {
            assert(kinds(op_operands(op)) =~= seq![WireKind::Reg, WireKind::Reg, WireKind::Word]);
        },
        Op::Format { .. } => {
            assert(kinds(op_operands(op)) =~= seq![WireKind::Reg, WireKind::Parts]);
        },
        Op::Bin { .. } => {
            assert(kinds(op_operands(op)) =~= seq![WireKind::Reg, WireKind::Reg, WireKind::Bin, WireKind::Reg]);
        },
        Op::Unary { .. } => {
            assert(kinds(op_operands(op)) =~= seq![WireKind::Reg, WireKind::Unary, WireKind::Reg]);
        },
        Op::AddIntImm { .. } | Op::SubIntImm { .. } | Op::MultIntImm { .. } | Op::ModIntImm { .. } | Op::IntLtImm { .. } | Op::IntLeImm { .. } | Op::IntGtImm { .. } | Op::IntGeImm { .. } | Op::IntEqImm { .. } | Op::IntNeImm { .. } | Op::AddFloatImm { .. } | Op::SubFloatImm { .. } | Op::MultFloatImm { .. } | Op::ModFloatImm { .. } | Op::FloatLtImm { .. } | Op::FloatLeImm { .. } | Op::FloatGtImm { .. } | Op::FloatGeImm { .. } | Op::FloatEqImm { .. } | Op::FloatNeImm { .. } => {
            assert(kinds(op_operands(op)) =~= seq![WireKind::Reg, WireKind::Reg, WireKind::Imm]);
        },
        Op::BIntLt { .. } | Op::BIntLe { .. } | Op::BIntGt { .. } | Op::BIntGe { .. } | Op::BIntEq { .. } | Op::BIntNe { .. } | Op::BFloatLt { .. } | Op::BFloatLe { .. } | Op::BFloatGt { .. } | Op::BFloatGe { .. } | Op::BFloatEq { .. } | Op::BFloatNe { .. } => {
            assert(kinds(op_operands(op)) =~= seq![WireKind::Jump, WireKind::Reg, WireKind::Reg, WireKind::Flag]);
        },
        Op::BIntLtImm { .. } | Op::BIntLeImm { .. } | Op::BIntGtImm { .. } | Op::BIntGeImm { .. } | Op::BIntEqImm { .. } | Op::BIntNeImm { .. } | Op::BFloatLtImm { .. } | Op::BFloatLeImm { .. } | Op::BFloatGtImm { .. } | Op::BFloatGeImm { .. } | Op::BFloatEqImm { .. } | Op::BFloatNeImm { .. } => {
            assert(kinds(op_operands(op)) =~= seq![WireKind::Jump, WireKind::Reg, WireKind::Imm, WireKind::Flag]);
        },
    }
}

impl Op {
    /// This op's code, the first byte of its encoding.
    pub fn discriminant(&self) -> (c: u8)
        ensures
            c == op_code(*self),
    {
        match self {
            Op::Move { .. } => 0,
            Op::NewArray { .. } => 1,
            Op::NewDict { .. } => 2,
            Op::NewInstance { .. } => 3,
            Op::NewClosure { .. } => 4,
            Op::Push { .. } => 5,
            Op::Insert { .. } => 6,
            Op::SetIndex { .. } => 7,
            Op::SetField { .. } => 8,
            Op::LoadBody { .. } => 9,
            Op::LoadConst { .. } => 10,
            Op::Jump { .. } => 11,
            Op::JumpIf { .. } => 12,
            Op::ForNext { .. } => 13,
            Op::Switch { .. } => 14,
            Op::Call { .. } => 15,
            Op::CallDirect { .. } => 16,
            Op::CallNative { .. } => 17,
            Op::Return { .. } => 18,
            Op::Panic { .. } => 19,
            Op::Raise { .. } => 20,
            Op::IsRaised { .. } => 21,
            Op::UnwrapRaised { .. } => 22,
            Op::Unwrap { .. } => 23,
            Op::GetIndex { .. } => 24,
            Op::GetField { .. } => 25,
            Op::Len { .. } => 26,
            Op::ToFloat { .. } => 27,
            Op::Sqrt { .. } => 28,
            Op::In { .. } => 29,
            Op::IsInstance { .. } => 30,
            Op::Format { .. } => 31,
            Op::Bin { .. } => 32,
            Op::Unary { .. } => 33,
            Op::BoolEq { .. } => 34,
            Op::BoolNe { .. } => 35,
            Op::AddInt { .. } => 36,
            Op::SubInt { .. } => 37,
            Op::MultInt { .. } => 38,
            Op::ModInt { .. } => 39,
            Op::IntLt { .. } => 40,
            Op::IntLe { .. } => 41,
            Op::IntGt { .. } => 42,
            Op::IntGe { .. } => 43,
            Op::IntEq { .. } => 44,
            Op::IntNe { .. } => 45,
            Op::AddIntImm { .. } => 46,
            Op::SubIntImm { .. } => 47,
            Op::MultIntImm { .. } => 48,
            Op::ModIntImm { .. } => 49,
            Op::IntLtImm { .. } => 50,
            Op::IntLeImm { .. } => 51,
            Op::IntGtImm { .. } => 52,
            Op::IntGeImm { .. } => 53,
            Op::IntEqImm { .. } => 54,
            Op::IntNeImm { .. } => 55,
            Op::BIntLt { .. } => 56,
            Op::BIntLe { .. } => 57,
            Op::BIntGt { .. } => 58,
            Op::BIntGe { .. } => 59,
            Op::BIntEq { .. } => 60,
            Op::BIntNe { .. } => 61,
            Op::BIntLtImm { .. } => 62,
            Op::BIntLeImm { .. } => 63,
            Op::BIntGtImm { .. } => 64,
            Op::BIntGeImm { .. } => 65,
            Op::BIntEqImm { .. } => 66,
            Op::BIntNeImm { .. } => 67,
            Op::AddFloat { .. } => 68,
            Op::SubFloat { .. } => 69,
            Op::MultFloat { .. } => 70,
            Op::DivFloat { .. } => 71,
            Op::FloatLt { .. } => 72,
            Op::FloatLe { .. } => 73,
            Op::FloatGt { .. } => 74,
            Op::FloatGe { .. } => 75,
            Op::FloatEq { .. } => 76,
            Op::FloatNe { .. } => 77,
            Op::AddFloatImm { .. } => 78,
            Op::SubFloatImm { .. } => 79,
            Op::MultFloatImm { .. } => 80,
            Op::ModFloatImm { .. } => 81,
            Op::FloatLtImm { .. } => 82,
            Op::FloatLeImm { .. } => 83,
            Op::FloatGtImm { .. } => 84,
            Op::FloatGeImm { .. } => 85,
            Op::FloatEqImm { .. } => 86,
            Op::FloatNeImm { .. } => 87,
            Op::BFloatLt { .. } => 88,
            Op::BFloatLe { .. } => 89,
            Op::BFloatGt { .. } => 90,
            Op::BFloatGe { .. } => 91,
            Op::BFloatEq { .. } => 92,
            Op::BFloatNe { .. } => 93,
            Op::BFloatLtImm { .. } => 94,
            Op::BFloatLeImm { .. } => 95,
            Op::BFloatGtImm { .. } => 96,
            Op::BFloatGeImm { .. } => 97,
            Op::BFloatEqImm { .. } => 98,
            Op::BFloatNeImm { .. } => 99,
            Op::StrEq { .. } => 100,
            Op::StrNe { .. } => 101,
        }
    }

    /// A copy of each of this op's operands, in the order they are written.
    pub fn operands(&self) -> (v: Vec<Field>)
        ensures
            views(v@) == op_operands(*self),
    {
        match self {
            Op::Move { dst: a0, src: a1 } | Op::Push { array: a0, value: a1 } | Op::IsRaised { dst: a0, src: a1 } | Op::UnwrapRaised { dst: a0, src: a1 } | Op::Unwrap { dst: a0, src: a1 } | Op::Len { dst: a0, src: a1 } | Op::ToFloat { dst: a0, src: a1 } | Op::Sqrt { dst: a0, src: a1 } => {
                let v: Vec<Field> = vec![Field::Reg(*a0), Field::Reg(*a1)];
                assert(views(v@) =~= op_operands(*self));
                v
            },
            Op::NewArray { dst: a0 } | Op::NewDict { dst: a0 } | Op::Return { val: a0 } | Op::Raise { val: a0 } => {
                let v: Vec<Field> = vec![Field::Reg(*a0)];
                assert(views(v@) =~= op_operands(*self));
                v
            },
            Op::NewInstance { dst: a0, adt: a1, fields: a2 } => {
                let v: Vec<Field> = vec![Field::Reg(*a0), Field::Word(a1.0), Field::Regs(copy_regs(a2))];
                assert(views(v@) =~= op_operands(*self));
                v
            },
            Op::NewClosure { dst: a0, body: a1, captures: a2 } | Op::CallDirect { dst: a0, body: a1, args: a2 } => {
                let v: Vec<Field> = vec![Field::Reg(*a0), Field::Word(a1.0), Field::Regs(copy_regs(a2))];
                assert(views(v@) =~= op_operands(*self));
                v
            },
            Op::Insert { dict: a0, key: a1, value: a2 } => {
                let v: Vec<Field> = vec![Field::Reg(*a0), Field::Word(a1.0), Field::Reg(*a2)];
                assert(views(v@) =~= op_operands(*self));
                v
            },
            Op::SetIndex { set: a0, index: a1, value: a2 } | Op::BoolEq { dst: a0, left: a1, right: a2 } | Op::BoolNe { dst: a0, left: a1, right: a2 } | Op::AddInt { dst: a0, left: a1, right: a2 } | Op::SubInt { dst: a0, left: a1, right: a2 } | Op::MultInt { dst: a0, left: a1, right: a2 } | Op::ModInt { dst: a0, left: a1, right: a2 } | Op::IntLt { dst: a0, left: a1, right: a2 } | Op::IntLe { dst: a0, left: a1, right: a2 } | Op::IntGt { dst: a0, left: a1, right: a2 } | Op::IntGe { dst: a0, left: a1, right: a2 } | Op::IntEq { dst: a0, left: a1, right: a2 } | Op::IntNe { dst: a0, left: a1, right: a2 } | Op::AddFloat { dst: a0, left: a1, right: a2 } | Op::SubFloat { dst: a0, left: a1, right: a2 } | Op::MultFloat { dst: a0, left: a1, right: a2 } | Op::DivFloat { dst: a0, left: a1, right: a2 } | Op::FloatLt { dst: a0, left: a1, right: a2 } | Op::FloatLe { dst: a0, left: a1, right: a2 } | Op::FloatGt { dst: a0, left: a1, right: a2 } | Op::FloatGe { dst: a0, left: a1, right: a2 } | Op::FloatEq { dst: a0, left: a1, right: a2 } | Op::FloatNe { dst: a0, left: a1, right: a2 } | Op::StrEq { dst: a0, left: a1, right: a2 } | Op::StrNe { dst: a0, left: a1, right: a2 } => {
                let v: Vec<Field> = vec![Field::Reg(*a0), Field::Reg(*a1), Field::Reg(*a2)];
                assert(views(v@) =~= op_operands(*self));
                v
            },
            Op::SetField { receiver: a0, slot: a1, value: a2 } => {
                let v: Vec<Field> = vec![Field::Reg(*a0), Field::Word(*a1), Field::Reg(*a2)];
                assert(views(v@) =~= op_operands(*self));
                v
            },
            Op::LoadBody { dst: a0, body: a1 } => {
                let v: Vec<Field> = vec![Field::Reg(*a0), Field::Word(a1.0)];
                assert(views(v@) =~= op_operands(*self));
                v
            },
            Op::LoadConst { dst: a0, constant: a1 } => {
                let v: Vec<Field> = vec![Field::Reg(*a0), Field::Konst(a1.duplicate())];
                assert(views(v@) =~= op_operands(*self));
                v
            },
            Op::Jump { target: a0 } => {
                let v: Vec<Field> = vec![Field::Jump(*a0)];
                assert(views(v@) =~= op_operands(*self));
                v
            },
            Op::JumpIf { cond: a0, target: a1, is_true: a2 } => {
                let v: Vec<Field> = vec![Field::Reg(*a0), Field::Jump(*a1), Field::Flag(*a2)];
                assert(views(v@) =~= op_operands(*self));
                v
            },
            Op::ForNext { idx: a0, bound: a1, target: a2 } => {
                let v: Vec<Field> = vec![Field::Reg(*a0), Field::Reg(*a1), Field::Jump(*a2)];
                assert(views(v@) =~= op_operands(*self));
                v
            },
            Op::Switch { scrut: a0, base: a1, default: a2, table: a3 } => {
                let v: Vec<Field> = vec![Field::Reg(*a0), Field::Word(*a1), Field::Jump(*a2), Field::Table(copy_targets(a3))];
                assert(views(v@) =~= op_operands(*self));
                v
            },
            Op::Call { dst: a0, callee: a1, args: a2 } => {
                let v: Vec<Field> = vec![Field::Reg(*a0), Field::Reg(*a1), Field::Regs(copy_regs(a2))];
                assert(views(v@) =~= op_operands(*self));
                v
            },
            Op::CallNative { dst: a0, id: a1, args: a2 } => {
                let v: Vec<Field> = vec![Field::Reg(*a0), Field::Word(a1.0), Field::Regs(copy_regs(a2))];
                assert(views(v@) =~= op_operands(*self));
                v
            },
            Op::Panic {} => {
                let v: Vec<Field> = Vec::new();
                assert(views(v@) =~= op_operands(*self));
                v
            },
            Op::GetIndex { dst: a0, set: a1, index: a2, kind: a3 } => {
                let v: Vec<Field> = vec![Field::Reg(*a0), Field::Reg(*a1), Field::Reg(*a2), Field::Access(*a3)];
                assert(views(v@) =~= op_operands(*self));
                v
            },
            Op::GetField { dst: a0, src: a1, slot: a2, kind: a3 } => {
                let v: Vec<Field> = vec![Field::Reg(*a0), Field::Reg(*a1), Field::Word(*a2), Field::Access(*a3)];
                assert(views(v@) =~= op_operands(*self));
                v
            },
            Op::In { dst: a0, needle: a1, haystack: a2, condition: a3 } => {
                let v: Vec<Field> = vec![Field::Reg(*a0), Field::Reg(*a1), Field::Reg(*a2), Field::Flag(*a3)];
                assert(views(v@) =~= op_operands(*self));
                v
            },
            Op::IsInstance { dst: a0, src: a1, adt: a2 } => {
                let v: Vec<Field> = vec![Field::Reg(*a0), Field::Reg(*a1), Field::Word(a2.0)];
                assert(views(v@) =~= op_operands(*self));
                v
            },
            Op::Format { dst: a0, parts: a1 } => {
                let v: Vec<Field> = vec![Field::Reg(*a0), Field::Parts(copy_parts(a1))];
                assert(views(v@) =~= op_operands(*self));
                v
            },
            Op::Bin { dst: a0, left: a1, op: a2, right: a3 } => {
                let v: Vec<Field> = vec![Field::Reg(*a0), Field::Reg(*a1), Field::Bin(*a2), Field::Reg(*a3)];
                assert(views(v@) =~= op_operands(*self));
                v
            },
            Op::Unary { dst: a0, op: a1, src: a2 } => {
                let v: Vec<Field> = vec![Field::Reg(*a0), Field::Unary(*a1), Field::Reg(*a2)];
                assert(views(v@) =~= op_operands(*self));
                v
            },
            Op::AddIntImm { dst: a0, left: a1, val: a2 } | Op::SubIntImm { dst: a0, left: a1, val: a2 } | Op::MultIntImm { dst: a0, left: a1, val: a2 } | Op::ModIntImm { dst: a0, left: a1, val: a2 } | Op::IntLtImm { dst: a0, left: a1, val: a2 } | Op::IntLeImm { dst: a0, left: a1, val: a2 } | Op::IntGtImm { dst: a0, left: a1, val: a2 } | Op::IntGeImm { dst: a0, left: a1, val: a2 } | Op::IntEqImm { dst: a0, left: a1, val: a2 } | Op::IntNeImm { dst: a0, left: a1, val: a2 } | Op::AddFloatImm { dst: a0, left: a1, val: a2 } | Op::SubFloatImm { dst: a0, left: a1, val: a2 } | Op::MultFloatImm { dst: a0, left: a1, val: a2 } | Op::ModFloatImm { dst: a0, left: a1, val: a2 } | Op::FloatLtImm { dst: a0, left: a1, val: a2 } | Op::FloatLeImm { dst: a0, left: a1, val: a2 } | Op::FloatGtImm { dst: a0, left: a1, val: a2 } | Op::FloatGeImm { dst: a0, left: a1, val: a2 } | Op::FloatEqImm { dst: a0, left: a1, val: a2 } | Op::FloatNeImm { dst: a0, left: a1, val: a2 } => {
                let v: Vec<Field> = vec![Field::Reg(*a0), Field::Reg(*a1), Field::Imm(*a2)];
                assert(views(v@) =~= op_operands(*self));
                v
            },
            Op::BIntLt { target: a0, left: a1, right: a2, is_true: a3 } | Op::BIntLe { target: a0, left: a1, right: a2, is_true: a3 } | Op::BIntGt { target: a0, left: a1, right: a2, is_true: a3 } | Op::BIntGe { target: a0, left: a1, right: a2, is_true: a3 } | Op::BIntEq { target: a0, left: a1, right: a2, is_true: a3 } | Op::BIntNe { target: a0, left: a1, right: a2, is_true: a3 } | Op::BFloatLt { target: a0, left: a1, right: a2, is_true: a3 } | Op::BFloatLe { target: a0, left: a1, right: a2, is_true: a3 } | Op::BFloatGt { target: a0, left: a1, right: a2, is_true: a3 } | Op::BFloatGe { target: a0, left: a1, right: a2, is_true: a3 } | Op::BFloatEq { target: a0, left: a1, right: a2, is_true: a3 } | Op::BFloatNe { target: a0, left: a1, right: a2, is_true: a3 } => {
                let v: Vec<Field> = vec![Field::Jump(*a0), Field::Reg(*a1), Field::Reg(*a2), Field::Flag(*a3)];
                assert(views(v@) =~= op_operands(*self));
                v
            },
            Op::BIntLtImm { target: a0, left: a1, val: a2, is_true: a3 } | Op::BIntLeImm { target: a0, left: a1, val: a2, is_true: a3 } | Op::BIntGtImm { target: a0, left: a1, val: a2, is_true: a3 } | Op::BIntGeImm { target: a0, left: a1, val: a2, is_true: a3 } | Op::BIntEqImm { target: a0, left: a1, val: a2, is_true: a3 } | Op::BIntNeImm { target: a0, left: a1, val: a2, is_true: a3 } | Op::BFloatLtImm { target: a0, left: a1, val: a2, is_true: a3 } | Op::BFloatLeImm { target: a0, left: a1, val: a2, is_true: a3 } | Op::BFloatGtImm { target: a0, left: a1, val: a2, is_true: a3 } | Op::BFloatGeImm { target: a0, left: a1, val: a2, is_true: a3 } | Op::BFloatEqImm { target: a0, left: a1, val: a2, is_true: a3 } | Op::BFloatNeImm { target: a0, left: a1, val: a2, is_true: a3 } => {
                let v: Vec<Field> = vec![Field::Jump(*a0), Field::Reg(*a1), Field::Imm(*a2), Field::Flag(*a3)];
                assert(views(v@) =~= op_operands(*self));
                v
            },
        }
    }

    /// The register this op writes, or `None` if it writes none.
    pub fn reg(&self) -> (r: Option<Reg>)
        ensures
            r == op_dst(*self),
    {
        match self {
            Op::Move { dst, .. }
            | Op::NewArray { dst, .. }
            | Op::NewDict { dst, .. }
            | Op::NewInstance { dst, .. }
            | Op::NewClosure { dst, .. }
            | Op::LoadBody { dst, .. }
            | Op::LoadConst { dst, .. }
            | Op::Call { dst, .. }
            | Op::CallDirect { dst, .. }
            | Op::CallNative { dst, .. }
            | Op::IsRaised { dst, .. }
            | Op::UnwrapRaised { dst, .. }
            | Op::Unwrap { dst, .. }
            | Op::GetIndex { dst, .. }
            | Op::GetField { dst, .. }
            | Op::Len { dst, .. }
            | Op::ToFloat { dst, .. }
            | Op::Sqrt { dst, .. }
            | Op::In { dst, .. }
            | Op::IsInstance { dst, .. }
            | Op::Format { dst, .. }
            | Op::Bin { dst, .. }
            | Op::Unary { dst, .. }
            | Op::BoolEq { dst, .. }
            | Op::BoolNe { dst, .. }
            | Op::AddInt { dst, .. }
            | Op::SubInt { dst, .. }
            | Op::MultInt { dst, .. }
            | Op::ModInt { dst, .. }
            | Op::IntLt { dst, .. }
            | Op::IntLe { dst, .. }
            | Op::IntGt { dst, .. }
            | Op::IntGe { dst, .. }
            | Op::IntEq { dst, .. }
            | Op::IntNe { dst, .. }
            | Op::AddIntImm { dst, .. }
            | Op::SubIntImm { dst, .. }
            | Op::MultIntImm { dst, .. }
            | Op::ModIntImm { dst, .. }
            | Op::IntLtImm { dst, .. }
            | Op::IntLeImm { dst, .. }
            | Op::IntGtImm { dst, .. }
            | Op::IntGeImm { dst, .. }
            | Op::IntEqImm { dst, .. }
            | Op::IntNeImm { dst, .. }
            | Op::AddFloat { dst, .. }
            | Op::SubFloat { dst, .. }
            | Op::MultFloat { dst, .. }
            | Op::DivFloat { dst, .. }
            | Op::FloatLt { dst, .. }
            | Op::FloatLe { dst, .. }
            | Op::FloatGt { dst, .. }
            | Op::FloatGe { dst, .. }
            | Op::FloatEq { dst, .. }
            | Op::FloatNe { dst, .. }
            | Op::AddFloatImm { dst, .. }
            | Op::SubFloatImm { dst, .. }
            | Op::MultFloatImm { dst, .. }
            | Op::ModFloatImm { dst, .. }
            | Op::FloatLtImm { dst, .. }
            | Op::FloatLeImm { dst, .. }
            | Op::FloatGtImm { dst, .. }
            | Op::FloatGeImm { dst, .. }
            | Op::FloatEqImm { dst, .. }
            | Op::FloatNeImm { dst, .. }
            | Op::StrEq { dst, .. }
            | Op::StrNe { dst, .. } => Some(*dst),
            _ => None,
        }
    }

    /// Whether this is a comparison op (one that a following conditional jump can fuse with).
    pub fn is_comparison(&self) -> (b: bool)
        ensures
            b == op_is_comparison(*self),
    {
        match self {
            Op::IntLt { .. }
            | Op::IntLe { .. }
            | Op::IntGt { .. }
            | Op::IntGe { .. }
            | Op::IntEq { .. }
            | Op::IntNe { .. }
            | Op::FloatLt { .. }
            | Op::FloatLe { .. }
            | Op::FloatGt { .. }
            | Op::FloatGe { .. }
            | Op::FloatEq { .. }
            | Op::FloatNe { .. }
            | Op::IntLtImm { .. }
            | Op::IntLeImm { .. }
            | Op::IntGtImm { .. }
            | Op::IntGeImm { .. }
            | Op::IntEqImm { .. }
            | Op::IntNeImm { .. }
            | Op::FloatLtImm { .. }
            | Op::FloatLeImm { .. }
            | Op::FloatGtImm { .. }
            | Op::FloatGeImm { .. }
            | Op::FloatEqImm { .. }
            | Op::FloatNeImm { .. } => true,
            _ => false,
        }
    }

    /// Rewrites the register this op writes; an op that writes none is left as it is.
    pub fn set_reg(&mut self, new_dst: Reg)
        ensures
            op_code(*final(self)) == op_code(*old(self)),
            op_dst(*old(self)) is Some ==> op_operands(*final(self)) == op_operands(*old(self)).update(
                0,
                WireField::Reg(new_dst),
            ),
            op_dst(*old(self)) is None ==> *final(self) == *old(self),
            op_dst(*final(self)) == (if op_dst(*old(self)) is Some {
                Some(new_dst)
            } else {
                None
            }),
    {
        match self {
            Op::Move { dst, .. } => {
                *dst = new_dst;
            },
            Op::NewArray { dst, .. } => {
                *dst = new_dst;
            },
            Op::NewDict { dst, .. } => {
                *dst = new_dst;
            },
            Op::NewInstance { dst, .. } => {
                *dst = new_dst;
            },
            Op::NewClosure { dst, .. } => {
                *dst = new_dst;
            },
            Op::LoadBody { dst, .. } => {
                *dst = new_dst;
            },
            Op::LoadConst { dst, .. } => {
                *dst = new_dst;
            },
            Op::Call { dst, .. } => {
                *dst = new_dst;
            },
            Op::CallDirect { dst, .. } => {
                *dst = new_dst;
            },
            Op::CallNative { dst, .. } => {
                *dst = new_dst;
            },
            Op::IsRaised { dst, .. } => {
                *dst = new_dst;
            },
            Op::UnwrapRaised { dst, .. } => {
                *dst = new_dst;
            },
            Op::Unwrap { dst, .. } => {
                *dst = new_dst;
            },
            Op::GetIndex { dst, .. } => {
                *dst = new_dst;
            },
            Op::GetField { dst, .. } => {
                *dst = new_dst;
            },
            Op::Len { dst, .. } => {
                *dst = new_dst;
            },
            Op::ToFloat { dst, .. } => {
                *dst = new_dst;
            },
            Op::Sqrt { dst, .. } => {
                *dst = new_dst;
            },
            Op::In { dst, .. } => {
                *dst = new_dst;
            },
            Op::IsInstance { dst, .. } => {
                *dst = new_dst;
            },
            Op::Format { dst, .. } => {
                *dst = new_dst;
            },
            Op::Bin { dst, .. } => {
                *dst = new_dst;
            },
            Op::Unary { dst, .. } => {
                *dst = new_dst;
            },
            Op::BoolEq { dst, .. } => {
                *dst = new_dst;
            },
            Op::BoolNe { dst, .. } => {
                *dst = new_dst;
            },
            Op::AddInt { dst, .. } => {
                *dst = new_dst;
            },
            Op::SubInt { dst, .. } => {
                *dst = new_dst;
            },
            Op::MultInt { dst, .. } => {
                *dst = new_dst;
            },
            Op::ModInt { dst, .. } => {
                *dst = new_dst;
            },
            Op::IntLt { dst, .. } => {
                *dst = new_dst;
            },
            Op::IntLe { dst, .. } => {
                *dst = new_dst;
            },
            Op::IntGt { dst, .. } => {
                *dst = new_dst;
            },
            Op::IntGe { dst, .. } => {
                *dst = new_dst;
            },
            Op::IntEq { dst, .. } => {
                *dst = new_dst;
            },
            Op::IntNe { dst, .. } => {
                *dst = new_dst;
            },
            Op::AddIntImm { dst, .. } => {
                *dst = new_dst;
            },
            Op::SubIntImm { dst, .. } => {
                *dst = new_dst;
            },
            Op::MultIntImm { dst, .. } => {
                *dst = new_dst;
            },
            Op::ModIntImm { dst, .. } => {
                *dst = new_dst;
            },
            Op::IntLtImm { dst, .. } => {
                *dst = new_dst;
            },
            Op::IntLeImm { dst, .. } => {
                *dst = new_dst;
            },
            Op::IntGtImm { dst, .. } => {
                *dst = new_dst;
            },
            Op::IntGeImm { dst, .. } => {
                *dst = new_dst;
            },
            Op::IntEqImm { dst, .. } => {
                *dst = new_dst;
            },
            Op::IntNeImm { dst, .. } => {
                *dst = new_dst;
            },
            Op::AddFloat { dst, .. } => {
                *dst = new_dst;
            },
            Op::SubFloat { dst, .. } => {
                *dst = new_dst;
            },
            Op::MultFloat { dst, .. } => {
                *dst = new_dst;
            },
            Op::DivFloat { dst, .. } => {
                *dst = new_dst;
            },
            Op::FloatLt { dst, .. } => {
                *dst = new_dst;
            },
            Op::FloatLe { dst, .. } => {
                *dst = new_dst;
            },
            Op::FloatGt { dst, .. } => {
                *dst = new_dst;
            },
            Op::FloatGe { dst, .. } => {
                *dst = new_dst;
            },
            Op::FloatEq { dst, .. } => {
                *dst = new_dst;
            },
            Op::FloatNe { dst, .. } => {
                *dst = new_dst;
            },
            Op::AddFloatImm { dst, .. } => {
                *dst = new_dst;
            },
            Op::SubFloatImm { dst, .. } => {
                *dst = new_dst;
            },
            Op::MultFloatImm { dst, .. } => {
                *dst = new_dst;
            },
            Op::ModFloatImm { dst, .. } => {
                *dst = new_dst;
            },
            Op::FloatLtImm { dst, .. } => {
                *dst = new_dst;
            },
            Op::FloatLeImm { dst, .. } => {
                *dst = new_dst;
            },
            Op::FloatGtImm { dst, .. } => {
                *dst = new_dst;
            },
            Op::FloatGeImm { dst, .. } => {
                *dst = new_dst;
            },
            Op::FloatEqImm { dst, .. } => {
                *dst = new_dst;
            },
            Op::FloatNeImm { dst, .. } => {
                *dst = new_dst;
            },
            Op::StrEq { dst, .. } => {
                *dst = new_dst;
            },
            Op::StrNe { dst, .. } => {
                *dst = new_dst;
            },
            _ => {},
        }
        assert(op_dst(*old(self)) is Some ==> op_operands(*self) =~= op_operands(*old(self)).update(
            0,
            WireField::Reg(new_dst),
        ));
    }

    /// Builds the op with code `code` from its operands, in the order they are written.
    pub fn assemble(code: u8, fields: Vec<Field>) -> (op: Op)
        requires
            op_shape(code) == Some(kinds(views(fields@))),
        ensures
            op_model(op) == (code, views(fields@)),
    {
        match code {
            0 | 5 | 21 | 22 | 23 | 26 | 27 | 28 => assemble_reg_reg(code, fields),
            1 | 2 | 18 | 20 => assemble_reg(code, fields),
            3 => assemble_reg_adt_regs(code, fields),
            4 | 16 => assemble_reg_body_regs(code, fields),
            6 => assemble_reg_str_reg(code, fields),
            7 | 34 | 35 | 36 | 37 | 38 | 39 | 40 | 41 | 42 | 43 | 44 | 45 | 68 | 69 | 70 | 71 | 72 | 73 | 74 | 75 | 76 | 77 | 100 | 101 => assemble_reg_reg_reg(code, fields),
            8 => assemble_reg_word_reg(code, fields),
            9 => assemble_reg_body(code, fields),
            10 => assemble_reg_konst(code, fields),
            11 => assemble_target(code, fields),
            12 => assemble_reg_target_flag(code, fields),
            13 => assemble_reg_reg_target(code, fields),
            14 => assemble_reg_word_target_table(code, fields),
            15 => assemble_reg_reg_regs(code, fields),
            17 => assemble_reg_native_regs(code, fields),
            19 => assemble_bare(code, fields),
            24 => assemble_reg_reg_reg_access(code, fields),
            25 => assemble_reg_reg_word_access(code, fields),
            29 => assemble_reg_reg_reg_flag(code, fields),
            30 => assemble_reg_reg_adt(code, fields),
            31 => assemble_reg_parts(code, fields),
            32 => assemble_reg_reg_bin_reg(code, fields),
            33 => assemble_reg_unary_reg(code, fields),
            46 | 47 | 48 | 49 | 50 | 51 | 52 | 53 | 54 | 55 | 78 | 79 | 80 | 81 | 82 | 83 | 84 | 85 | 86 | 87 => assemble_reg_reg_imm(code, fields),
            56 | 57 | 58 | 59 | 60 | 61 | 88 | 89 | 90 | 91 | 92 | 93 => assemble_target_reg_reg_flag(code, fields),
            62 | 63 | 64 | 65 | 66 | 67 | 94 | 95 | 96 | 97 | 98 | 99 => assemble_target_reg_imm_flag(code, fields),
            _ => {
                assert(false);
                Op::Panic {}
            },
        }
    }
}

/// Builds an op whose operands are, in order, `Reg`, `Reg`.
fn assemble_reg_reg(code: u8, fields: Vec<Field>) -> (op: Op)
    requires
        code == 0 || code == 5 || code == 21 || code == 22 || code == 23 || code == 26 || code == 27 || code == 28,
        op_shape(code) == Some(kinds(views(fields@))),
    ensures
        op_model(op) == (code, views(fields@)),
{
    let ghost fs = views(fields@);
    assert(kinds(fs) == seq![WireKind::Reg, WireKind::Reg]);
    assert(fields@.len() == 2);
    assert(kinds(fs)[0] == field_kind(fs[0]));
    assert(field_kind(fs[0]) == WireKind::Reg);
    assert(kinds(fs)[1] == field_kind(fs[1]));
    assert(field_kind(fs[1]) == WireKind::Reg);
    let mut fields = fields;
    let a0 = reg_at(&fields, 0);
    let a1 = reg_at(&fields, 1);
    let op = match code {
        0 => Op::Move { dst: a0, src: a1 },
        5 => Op::Push { array: a0, value: a1 },
        21 => Op::IsRaised { dst: a0, src: a1 },
        22 => Op::UnwrapRaised { dst: a0, src: a1 },
        23 => Op::Unwrap { dst: a0, src: a1 },
        26 => Op::Len { dst: a0, src: a1 },
        27 => Op::ToFloat { dst: a0, src: a1 },
        28 => Op::Sqrt { dst: a0, src: a1 },
        _ => {
            assert(false);
            Op::Panic {}
        },
    };
    assert(op_operands(op) =~= fs);
    op
}

/// Builds an op whose operands are, in order, `Reg`.
fn assemble_reg(code: u8, fields: Vec<Field>) -> (op: Op)
    requires
        code == 1 || code == 2 || code == 18 || code == 20,
        op_shape(code) == Some(kinds(views(fields@))),
    ensures
        op_model(op) == (code, views(fields@)),
{
    let ghost fs = views(fields@);
    assert(kinds(fs) == seq![WireKind::Reg]);
    assert(fields@.len() == 1);
    assert(kinds(fs)[0] == field_kind(fs[0]));
    assert(field_kind(fs[0]) == WireKind::Reg);
    let mut fields = fields;
    let a0 = reg_at(&fields, 0);
    let op = match code {
        1 => Op::NewArray { dst: a0 },
        2 => Op::NewDict { dst: a0 },
        18 => Op::Return { val: a0 },
        20 => Op::Raise { val: a0 },
        _ => {
            assert(false);
            Op::Panic {}
        },
    };
    assert(op_operands(op) =~= fs);
    op
}

/// Builds an op whose operands are, in order, `Reg`, `AdtId`, `Vec<Reg>`.
fn assemble_reg_adt_regs(code: u8, fields: Vec<Field>) -> (op: Op)
    requires
        code == 3,
        op_shape(code) == Some(kinds(views(fields@))),
    ensures
        op_model(op) == (code, views(fields@)),
{
    let ghost fs = views(fields@);
    assert(kinds(fs) == seq![WireKind::Reg, WireKind::Word, WireKind::Regs]);
    assert(fields@.len() == 3);
    assert(kinds(fs)[0] == field_kind(fs[0]));
    assert(field_kind(fs[0]) == WireKind::Reg);
    assert(kinds(fs)[1] == field_kind(fs[1]));
    assert(field_kind(fs[1]) == WireKind::Word);
    assert(kinds(fs)[2] == field_kind(fs[2]));
    assert(field_kind(fs[2]) == WireKind::Regs);
    let mut fields = fields;
    let a0 = reg_at(&fields, 0);
    let a1 = AdtId(word_at(&fields, 1));
    let a2 = take_regs(&mut fields);
    let op = match code {
        3 => Op::NewInstance { dst: a0, adt: a1, fields: a2 },
        _ => {
            assert(false);
            Op::Panic {}
        },
    };
    assert(op_operands(op) =~= fs);
    op
}

/// Builds an op whose operands are, in order, `Reg`, `BodyId`, `Vec<Reg>`.
fn assemble_reg_body_regs(code: u8, fields: Vec<Field>) -> (op: Op)
    requires
        code == 4 || code == 16,
        op_shape(code) == Some(kinds(views(fields@))),
    ensures
        op_model(op) == (code, views(fields@)),
{
    let ghost fs = views(fields@);
    assert(kinds(fs) == seq![WireKind::Reg, WireKind::Word, WireKind::Regs]);
    assert(fields@.len() == 3);
    assert(kinds(fs)[0] == field_kind(fs[0]));
    assert(field_kind(fs[0]) == WireKind::Reg);
    assert(kinds(fs)[1] == field_kind(fs[1]));
    assert(field_kind(fs[1]) == WireKind::Word);
    assert(kinds(fs)[2] == field_kind(fs[2]));
    assert(field_kind(fs[2]) == WireKind::Regs);
    let mut fields = fields;
    let a0 = reg_at(&fields, 0);
    let a1 = BodyId(word_at(&fields, 1));
    let a2 = take_regs(&mut fields);
    let op = match code {
        4 => Op::NewClosure { dst: a0, body: a1, captures: a2 },
        16 => Op::CallDirect { dst: a0, body: a1, args: a2 },
        _ => {
            assert(false);
            Op::Panic {}
        },
    };
    assert(op_operands(op) =~= fs);
    op
}

/// Builds an op whose operands are, in order, `Reg`, `StrId`, `Reg`.
fn assemble_reg_str_reg(code: u8, fields: Vec<Field>) -> (op: Op)
    requires
        code == 6,
        op_shape(code) == Some(kinds(views(fields@))),
    ensures
        op_model(op) == (code, views(fields@)),
{
    let ghost fs = views(fields@);
    assert(kinds(fs) == seq![WireKind::Reg, WireKind::Word, WireKind::Reg]);
    assert(fields@.len() == 3);
    assert(kinds(fs)[0] == field_kind(fs[0]));
    assert(field_kind(fs[0]) == WireKind::Reg);
    assert(kinds(fs)[1] == field_kind(fs[1]));
    assert(field_kind(fs[1]) == WireKind::Word);
    assert(kinds(fs)[2] == field_kind(fs[2]));
    assert(field_kind(fs[2]) == WireKind::Reg);
    let mut fields = fields;
    let a0 = reg_at(&fields, 0);
    let a1 = StrId(word_at(&fields, 1));
    let a2 = reg_at(&fields, 2);
    let op = match code {
        6 => Op::Insert { dict: a0, key: a1, value: a2 },
        _ => {
            assert(false);
            Op::Panic {}
        },
    };
    assert(op_operands(op) =~= fs);
    op
}

/// Builds an op whose operands are, in order, `Reg`, `Reg`, `Reg`.
fn assemble_reg_reg_reg(code: u8, fields: Vec<Field>) -> (op: Op)
    requires
        code == 7 || code == 34 || code == 35 || code == 36 || code == 37 || code == 38 || code == 39 || code == 40 || code == 41 || code == 42 || code == 43 || code == 44 || code == 45 || code == 68 || code == 69 || code == 70 || code == 71 || code == 72 || code == 73 || code == 74 || code == 75 || code == 76 || code == 77 || code == 100 || code == 101,
        op_shape(code) == Some(kinds(views(fields@))),
    ensures
        op_model(op) == (code, views(fields@)),
{
    let ghost fs = views(fields@);
    assert(kinds(fs) == seq![WireKind::Reg, WireKind::Reg, WireKind::Reg]);
    assert(fields@.len() == 3);
    assert(kinds(fs)[0] == field_kind(fs[0]));
    assert(field_kind(fs[0]) == WireKind::Reg);
    assert(kinds(fs)[1] == field_kind(fs[1]));
    assert(field_kind(fs[1]) == WireKind::Reg);
    assert(kinds(fs)[2] == field_kind(fs[2]));
    assert(field_kind(fs[2]) == WireKind::Reg);
    let mut fields = fields;
    let a0 = reg_at(&fields, 0);
    let a1 = reg_at(&fields, 1);
    let a2 = reg_at(&fields, 2);
    let op = match code {
        7 => Op::SetIndex { set: a0, index: a1, value: a2 },
        34 => Op::BoolEq { dst: a0, left: a1, right: a2 },
        35 => Op::BoolNe { dst: a0, left: a1, right: a2 },
        36 => Op::AddInt { dst: a0, left: a1, right: a2 },
        37 => Op::SubInt { dst: a0, left: a1, right: a2 },
        38 => Op::MultInt { dst: a0, left: a1, right: a2 },
        39 => Op::ModInt { dst: a0, left: a1, right: a2 },
        40 => Op::IntLt { dst: a0, left: a1, right: a2 },
        41 => Op::IntLe { dst: a0, left: a1, right: a2 },
        42 => Op::IntGt { dst: a0, left: a1, right: a2 },
        43 => Op::IntGe { dst: a0, left: a1, right: a2 },
        44 => Op::IntEq { dst: a0, left: a1, right: a2 },
        45 => Op::IntNe { dst: a0, left: a1, right: a2 },
        68 => Op::AddFloat { dst: a0, left: a1, right: a2 },
        69 => Op::SubFloat { dst: a0, left: a1, right: a2 },
        70 => Op::MultFloat { dst: a0, left: a1, right: a2 },
        71 => Op::DivFloat { dst: a0, left: a1, right: a2 },
        72 => Op::FloatLt { dst: a0, left: a1, right: a2 },
        73 => Op::FloatLe { dst: a0, left: a1, right: a2 },
        74 => Op::FloatGt { dst: a0, left: a1, right: a2 },
        75 => Op::FloatGe { dst: a0, left: a1, right: a2 },
        76 => Op::FloatEq { dst: a0, left: a1, right: a2 },
        77 => Op::FloatNe { dst: a0, left: a1, right: a2 },
        100 => Op::StrEq { dst: a0, left: a1, right: a2 },
        101 => Op::StrNe { dst: a0, left: a1, right: a2 },
        _ => {
            assert(false);
            Op::Panic {}
        },
    };
    assert(op_operands(op) =~= fs);
    op
}

/// Builds an op whose operands are, in order, `Reg`, `u32`, `Reg`.
fn assemble_reg_word_reg(code: u8, fields: Vec<Field>) -> (op: Op)
    requires
        code == 8,
        op_shape(code) == Some(kinds(views(fields@))),
    ensures
        op_model(op) == (code, views(fields@)),
{
    let ghost fs = views(fields@);
    assert(kinds(fs) == seq![WireKind::Reg, WireKind::Word, WireKind::Reg]);
    assert(fields@.len() == 3);
    assert(kinds(fs)[0] == field_kind(fs[0]));
    assert(field_kind(fs[0]) == WireKind::Reg);
    assert(kinds(fs)[1] == field_kind(fs[1]));
    assert(field_kind(fs[1]) == WireKind::Word);
    assert(kinds(fs)[2] == field_kind(fs[2]));
    assert(field_kind(fs[2]) == WireKind::Reg);
    let mut fields = fields;
    let a0 = reg_at(&fields, 0);
    let a1 = word_at(&fields, 1);
    let a2 = reg_at(&fields, 2);
    let op = match code {
        8 => Op::SetField { receiver: a0, slot: a1, value: a2 },
        _ => {
            assert(false);
            Op::Panic {}
        },
    };
    assert(op_operands(op) =~= fs);
    op
}

/// Builds an op whose operands are, in order, `Reg`, `BodyId`.
fn assemble_reg_body(code: u8, fields: Vec<Field>) -> (op: Op)
    requires
        code == 9,
        op_shape(code) == Some(kinds(views(fields@))),
    ensures
        op_model(op) == (code, views(fields@)),
{
    let ghost fs = views(fields@);
    assert(kinds(fs) == seq![WireKind::Reg, WireKind::Word]);
    assert(fields@.len() == 2);
    assert(kinds(fs)[0] == field_kind(fs[0]));
    assert(field_kind(fs[0]) == WireKind::Reg);
    assert(kinds(fs)[1] == field_kind(fs[1]));
    assert(field_kind(fs[1]) == WireKind::Word);
    let mut fields = fields;
    let a0 = reg_at(&fields, 0);
    let a1 = BodyId(word_at(&fields, 1));
    let op = match code {
        9 => Op::LoadBody { dst: a0, body: a1 },
        _ => {
            assert(false);
            Op::Panic {}
        },
    };
    assert(op_operands(op) =~= fs);
    op
}

/// Builds an op whose operands are, in order, `Reg`, `Constant`.
fn assemble_reg_konst(code: u8, fields: Vec<Field>) -> (op: Op)
    requires
        code == 10,
        op_shape(code) == Some(kinds(views(fields@))),
    ensures
        op_model(op) == (code, views(fields@)),
{
    let ghost fs = views(fields@);
    assert(kinds(fs) == seq![WireKind::Reg, WireKind::Konst]);
    assert(fields@.len() == 2);
    assert(kinds(fs)[0] == field_kind(fs[0]));
    assert(field_kind(fs[0]) == WireKind::Reg);
    assert(kinds(fs)[1] == field_kind(fs[1]));
    assert(field_kind(fs[1]) == WireKind::Konst);
    let mut fields = fields;
    let a0 = reg_at(&fields, 0);
    let a1 = take_konst(&mut fields);
    let op = match code {
        10 => Op::LoadConst { dst: a0, constant: a1 },
        _ => {
            assert(false);
            Op::Panic {}
        },
    };
    assert(op_operands(op) =~= fs);
    op
}

/// Builds an op whose operands are, in order, `BlockTarget`.
fn assemble_target(code: u8, fields: Vec<Field>) -> (op: Op)
    requires
        code == 11,
        op_shape(code) == Some(kinds(views(fields@))),
    ensures
        op_model(op) == (code, views(fields@)),
{
    let ghost fs = views(fields@);
    assert(kinds(fs) == seq![WireKind::Jump]);
    assert(fields@.len() == 1);
    assert(kinds(fs)[0] == field_kind(fs[0]));
    assert(field_kind(fs[0]) == WireKind::Jump);
    let mut fields = fields;
    let a0 = jump_at(&fields, 0);
    let op = match code {
        11 => Op::Jump { target: a0 },
        _ => {
            assert(false);
            Op::Panic {}
        },
    };
    assert(op_operands(op) =~= fs);
    op
}

/// Builds an op whose operands are, in order, `Reg`, `BlockTarget`, `bool`.
fn assemble_reg_target_flag(code: u8, fields: Vec<Field>) -> (op: Op)
    requires
        code == 12,
        op_shape(code) == Some(kinds(views(fields@))),
    ensures
        op_model(op) == (code, views(fields@)),
{
    let ghost fs = views(fields@);
    assert(kinds(fs) == seq![WireKind::Reg, WireKind::Jump, WireKind::Flag]);
    assert(fields@.len() == 3);
    assert(kinds(fs)[0] == field_kind(fs[0]));
    assert(field_kind(fs[0]) == WireKind::Reg);
    assert(kinds(fs)[1] == field_kind(fs[1]));
    assert(field_kind(fs[1]) == WireKind::Jump);
    assert(kinds(fs)[2] == field_kind(fs[2]));
    assert(field_kind(fs[2]) == WireKind::Flag);
    let mut fields = fields;
    let a0 = reg_at(&fields, 0);
    let a1 = jump_at(&fields, 1);
    let a2 = flag_at(&fields, 2);
    let op = match code {
        12 => Op::JumpIf { cond: a0, target: a1, is_true: a2 },
        _ => {
            assert(false);
            Op::Panic {}
        },
    };
    assert(op_operands(op) =~= fs);
    op
}

/// Builds an op whose operands are, in order, `Reg`, `Reg`, `BlockTarget`.
fn assemble_reg_reg_target(code: u8, fields: Vec<Field>) -> (op: Op)
    requires
        code == 13,
        op_shape(code) == Some(kinds(views(fields@))),
    ensures
        op_model(op) == (code, views(fields@)),
{
    let ghost fs = views(fields@);
    assert(kinds(fs) == seq![WireKind::Reg, WireKind::Reg, WireKind::Jump]);
    assert(fields@.len() == 3);
    assert(kinds(fs)[0] == field_kind(fs[0]));
    assert(field_kind(fs[0]) == WireKind::Reg);
    assert(kinds(fs)[1] == field_kind(fs[1]));
    assert(field_kind(fs[1]) == WireKind::Reg);
    assert(kinds(fs)[2] == field_kind(fs[2]));
    assert(field_kind(fs[2]) == WireKind::Jump);
    let mut fields = fields;
    let a0 = reg_at(&fields, 0);
    let a1 = reg_at(&fields, 1);
    let a2 = jump_at(&fields, 2);
    let op = match code {
        13 => Op::ForNext { idx: a0, bound: a1, target: a2 },
        _ => {
            assert(false);
            Op::Panic {}
        },
    };
    assert(op_operands(op) =~= fs);
    op
}

/// Builds an op whose operands are, in order, `Reg`, `u32`, `BlockTarget`, `Vec<BlockTarget>`.
fn assemble_reg_word_target_table(code: u8, fields: Vec<Field>) -> (op: Op)
    requires
        code == 14,
        op_shape(code) == Some(kinds(views(fields@))),
    ensures
        op_model(op) == (code, views(fields@)),
{
    let ghost fs = views(fields@);
    assert(kinds(fs) == seq![WireKind::Reg, WireKind::Word, WireKind::Jump, WireKind::Table]);
    assert(fields@.len() == 4);
    assert(kinds(fs)[0] == field_kind(fs[0]));
    assert(field_kind(fs[0]) == WireKind::Reg);
    assert(kinds(fs)[1] == field_kind(fs[1]));
    assert(field_kind(fs[1]) == WireKind::Word);
    assert(kinds(fs)[2] == field_kind(fs[2]));
    assert(field_kind(fs[2]) == WireKind::Jump);
    assert(kinds(fs)[3] == field_kind(fs[3]));
    assert(field_kind(fs[3]) == WireKind::Table);
    let mut fields = fields;
    let a0 = reg_at(&fields, 0);
    let a1 = word_at(&fields, 1);
    let a2 = jump_at(&fields, 2);
    let a3 = take_table(&mut fields);
    let op = match code {
        14 => Op::Switch { scrut: a0, base: a1, default: a2, table: a3 },
        _ => {
            assert(false);
            Op::Panic {}
        },
    };
    assert(op_operands(op) =~= fs);
    op
}

/// Builds an op whose operands are, in order, `Reg`, `Reg`, `Vec<Reg>`.
fn assemble_reg_reg_regs(code: u8, fields: Vec<Field>) -> (op: Op)
    requires
        code == 15,
        op_shape(code) == Some(kinds(views(fields@))),
    ensures
        op_model(op) == (code, views(fields@)),
{
    let ghost fs = views(fields@);
    assert(kinds(fs) == seq![WireKind::Reg, WireKind::Reg, WireKind::Regs]);
    assert(fields@.len() == 3);
    assert(kinds(fs)[0] == field_kind(fs[0]));
    assert(field_kind(fs[0]) == WireKind::Reg);
    assert(kinds(fs)[1] == field_kind(fs[1]));
    assert(field_kind(fs[1]) == WireKind::Reg);
    assert(kinds(fs)[2] == field_kind(fs[2]));
    assert(field_kind(fs[2]) == WireKind::Regs);
    let mut fields = fields;
    let a0 = reg_at(&fields, 0);
    let a1 = reg_at(&fields, 1);
    let a2 = take_regs(&mut fields);
    let op = match code {
        15 => Op::Call { dst: a0, callee: a1, args: a2 },
        _ => {
            assert(false);
            Op::Panic {}
        },
    };
    assert(op_operands(op) =~= fs);
    op
}

/// Builds an op whose operands are, in order, `Reg`, `NativeId`, `Vec<Reg>`.
fn assemble_reg_native_regs(code: u8, fields: Vec<Field>) -> (op: Op)
    requires
        code == 17,
        op_shape(code) == Some(kinds(views(fields@))),
    ensures
        op_model(op) == (code, views(fields@)),
{
    let ghost fs = views(fields@);
    assert(kinds(fs) == seq![WireKind::Reg, WireKind::Word, WireKind::Regs]);
    assert(fields@.len() == 3);
    assert(kinds(fs)[0] == field_kind(fs[0]));
    assert(field_kind(fs[0]) == WireKind::Reg);
    assert(kinds(fs)[1] == field_kind(fs[1]));
    assert(field_kind(fs[1]) == WireKind::Word);
    assert(kinds(fs)[2] == field_kind(fs[2]));
    assert(field_kind(fs[2]) == WireKind::Regs);
    let mut fields = fields;
    let a0 = reg_at(&fields, 0);
    let a1 = NativeId(word_at(&fields, 1));
    let a2 = take_regs(&mut fields);
    let op = match code {
        17 => Op::CallNative { dst: a0, id: a1, args: a2 },
        _ => {
            assert(false);
            Op::Panic {}
        },
    };
    assert(op_operands(op) =~= fs);
    op
}

/// Builds an op whose operands are, in order, none.
fn assemble_bare(code: u8, fields: Vec<Field>) -> (op: Op)
    requires
        code == 19,
        op_shape(code) == Some(kinds(views(fields@))),
    ensures
        op_model(op) == (code, views(fields@)),
{
    let ghost fs = views(fields@);
    assert(kinds(fs) == Seq::<WireKind>::empty());
    assert(fields@.len() == 0);
    let op = match code {
        19 => Op::Panic {},
        _ => {
            assert(false);
            Op::Panic {}
        },
    };
    assert(op_operands(op) =~= fs);
    op
}

/// Builds an op whose operands are, in order, `Reg`, `Reg`, `Reg`, `AccessKind`.
fn assemble_reg_reg_reg_access(code: u8, fields: Vec<Field>) -> (op: Op)
    requires
        code == 24,
        op_shape(code) == Some(kinds(views(fields@))),
    ensures
        op_model(op) == (code, views(fields@)),
{
    let ghost fs = views(fields@);
    assert(kinds(fs) == seq![WireKind::Reg, WireKind::Reg, WireKind::Reg, WireKind::Access]);
    assert(fields@.len() == 4);
    assert(kinds(fs)[0] == field_kind(fs[0]));
    assert(field_kind(fs[0]) == WireKind::Reg);
    assert(kinds(fs)[1] == field_kind(fs[1]));
    assert(field_kind(fs[1]) == WireKind::Reg);
    assert(kinds(fs)[2] == field_kind(fs[2]));
    assert(field_kind(fs[2]) == WireKind::Reg);
    assert(kinds(fs)[3] == field_kind(fs[3]));
    assert(field_kind(fs[3]) == WireKind::Access);
    let mut fields = fields;
    let a0 = reg_at(&fields, 0);
    let a1 = reg_at(&fields, 1);
    let a2 = reg_at(&fields, 2);
    let a3 = access_at(&fields, 3);
    let op = match code {
        24 => Op::GetIndex { dst: a0, set: a1, index: a2, kind: a3 },
        _ => {
            assert(false);
            Op::Panic {}
        },
    };
    assert(op_operands(op) =~= fs);
    op
}

/// Builds an op whose operands are, in order, `Reg`, `Reg`, `u32`, `AccessKind`.
fn assemble_reg_reg_word_access(code: u8, fields: Vec<Field>) -> (op: Op)
    requires
        code == 25,
        op_shape(code) == Some(kinds(views(fields@))),
    ensures
        op_model(op) == (code, views(fields@)),
{
    let ghost fs = views(fields@);
    assert(kinds(fs) == seq![WireKind::Reg, WireKind::Reg, WireKind::Word, WireKind::Access]);
    assert(fields@.len() == 4);
    assert(kinds(fs)[0] == field_kind(fs[0]));
    assert(field_kind(fs[0]) == WireKind::Reg);
    assert(kinds(fs)[1] == field_kind(fs[1]));
    assert(field_kind(fs[1]) == WireKind::Reg);
    assert(kinds(fs)[2] == field_kind(fs[2]));
    assert(field_kind(fs[2]) == WireKind::Word);
    assert(kinds(fs)[3] == field_kind(fs[3]));
    assert(field_kind(fs[3]) == WireKind::Access);
    let mut fields = fields;
    let a0 = reg_at(&fields, 0);
    let a1 = reg_at(&fields, 1);
    let a2 = word_at(&fields, 2);
    let a3 = access_at(&fields, 3);
    let op = match code {
        25 => Op::GetField { dst: a0, src: a1, slot: a2, kind: a3 },
        _ => {
            assert(false);
            Op::Panic {}
        },
    };
    assert(op_operands(op) =~= fs);
    op
}

/// Builds an op whose operands are, in order, `Reg`, `Reg`, `Reg`, `bool`.
fn assemble_reg_reg_reg_flag(code: u8, fields: Vec<Field>) -> (op: Op)
    requires
        code == 29,
        op_shape(code) == Some(kinds(views(fields@))),
    ensures
        op_model(op) == (code, views(fields@)),
{
    let ghost fs = views(fields@);
    assert(kinds(fs) == seq![WireKind::Reg, WireKind::Reg, WireKind::Reg, WireKind::Flag]);
    assert(fields@.len() == 4);
    assert(kinds(fs)[0] == field_kind(fs[0]));
    assert(field_kind(fs[0]) == WireKind::Reg);
    assert(kinds(fs)[1] == field_kind(fs[1]));
    assert(field_kind(fs[1]) == WireKind::Reg);
    assert(kinds(fs)[2] == field_kind(fs[2]));
    assert(field_kind(fs[2]) == WireKind::Reg);
    assert(kinds(fs)[3] == field_kind(fs[3]));
    assert(field_kind(fs[3]) == WireKind::Flag);
    let mut fields = fields;
    let a0 = reg_at(&fields, 0);
    let a1 = reg_at(&fields, 1);
    let a2 = reg_at(&fields, 2);
    let a3 = flag_at(&fields, 3);
    let op = match code {
        29 => Op::In { dst: a0, needle: a1, haystack: a2, condition: a3 },
        _ => {
            assert(false);
            Op::Panic {}
        },
    };
    assert(op_operands(op) =~= fs);
    op
}

/// Builds an op whose operands are, in order, `Reg`, `Reg`, `AdtId`.
fn assemble_reg_reg_adt(code: u8, fields: Vec<Field>) -> (op: Op)
    requires
        code == 30,
        op_shape(code) == Some(kinds(views(fields@))),
    ensures
        op_model(op) == (code, views(fields@)),
{
    let ghost fs = views(fields@);
    assert(kinds(fs) == seq![WireKind::Reg, WireKind::Reg, WireKind::Word]);
    assert(fields@.len() == 3);
    assert(kinds(fs)[0] == field_kind(fs[0]));
    assert(field_kind(fs[0]) == WireKind::Reg);
    assert(kinds(fs)[1] == field_kind(fs[1]));
    assert(field_kind(fs[1]) == WireKind::Reg);
    assert(kinds(fs)[2] == field_kind(fs[2]));
    assert(field_kind(fs[2]) == WireKind::Word);
    let mut fields = fields;
    let a0 = reg_at(&fields, 0);
    let a1 = reg_at(&fields, 1);
    let a2 = AdtId(word_at(&fields, 2));
    let op = match code {
        30 => Op::IsInstance { dst: a0, src: a1, adt: a2 },
        _ => {
            assert(false);
            Op::Panic {}
        },
    };
    assert(op_operands(op) =~= fs);
    op
}

/// Builds an op whose operands are, in order, `Reg`, `Vec<OpFormatPart>`.
fn assemble_reg_parts(code: u8, fields: Vec<Field>) -> (op: Op)
    requires
        code == 31,
        op_shape(code) == Some(kinds(views(fields@))),
    ensures
        op_model(op) == (code, views(fields@)),
{
    let ghost fs = views(fields@);
    assert(kinds(fs) == seq![WireKind::Reg, WireKind::Parts]);
    assert(fields@.len() == 2);
    assert(kinds(fs)[0] == field_kind(fs[0]));
    assert(field_kind(fs[0]) == WireKind::Reg);
    assert(kinds(fs)[1] == field_kind(fs[1]));
    assert(field_kind(fs[1]) == WireKind::Parts);
    let mut fields = fields;
    let a0 = reg_at(&fields, 0);
    let a1 = take_parts(&mut fields);
    let op = match code {
        31 => Op::Format { dst: a0, parts: a1 },
        _ => {
            assert(false);
            Op::Panic {}
        },
    };
    assert(op_operands(op) =~= fs);
    op
}

/// Builds an op whose operands are, in order, `Reg`, `Reg`, `BinOp`, `Reg`.
fn assemble_reg_reg_bin_reg(code: u8, fields: Vec<Field>) -> (op: Op)
    requires
        code == 32,
        op_shape(code) == Some(kinds(views(fields@))),
    ensures
        op_model(op) == (code, views(fields@)),
{
    let ghost fs = views(fields@);
    assert(kinds(fs) == seq![WireKind::Reg, WireKind::Reg, WireKind::Bin, WireKind::Reg]);
    assert(fields@.len() == 4);
    assert(kinds(fs)[0] == field_kind(fs[0]));
    assert(field_kind(fs[0]) == WireKind::Reg);
    assert(kinds(fs)[1] == field_kind(fs[1]));
    assert(field_kind(fs[1]) == WireKind::Reg);
    assert(kinds(fs)[2] == field_kind(fs[2]));
    assert(field_kind(fs[2]) == WireKind::Bin);
    assert(kinds(fs)[3] == field_kind(fs[3]));
    assert(field_kind(fs[3]) == WireKind::Reg);
    let mut fields = fields;
    let a0 = reg_at(&fields, 0);
    let a1 = reg_at(&fields, 1);
    let a2 = bin_at(&fields, 2);
    let a3 = reg_at(&fields, 3);
    let op = match code {
        32 => Op::Bin { dst: a0, left: a1, op: a2, right: a3 },
        _ => {
            assert(false);
            Op::Panic {}
        },
    };
    assert(op_operands(op) =~= fs);
    op
}

/// Builds an op whose operands are, in order, `Reg`, `UnaryOp`, `Reg`.
fn assemble_reg_unary_reg(code: u8, fields: Vec<Field>) -> (op: Op)
    requires
        code == 33,
        op_shape(code) == Some(kinds(views(fields@))),
    ensures
        op_model(op) == (code, views(fields@)),
{
    let ghost fs = views(fields@);
    assert(kinds(fs) == seq![WireKind::Reg, WireKind::Unary, WireKind::Reg]);
    assert(fields@.len() == 3);
    assert(kinds(fs)[0] == field_kind(fs[0]));
    assert(field_kind(fs[0]) == WireKind::Reg);
    assert(kinds(fs)[1] == field_kind(fs[1]));
    assert(field_kind(fs[1]) == WireKind::Unary);
    assert(kinds(fs)[2] == field_kind(fs[2]));
    assert(field_kind(fs[2]) == WireKind::Reg);
    let mut fields = fields;
    let a0 = reg_at(&fields, 0);
    let a1 = unary_at(&fields, 1);
    let a2 = reg_at(&fields, 2);
    let op = match code {
        33 => Op::Unary { dst: a0, op: a1, src: a2 },
        _ => {
            assert(false);
            Op::Panic {}
        },
    };
    assert(op_operands(op) =~= fs);
    op
}

/// Builds an op whose operands are, in order, `Reg`, `Reg`, `i64`.
fn assemble_reg_reg_imm(code: u8, fields: Vec<Field>) -> (op: Op)
    requires
        code == 46 || code == 47 || code == 48 || code == 49 || code == 50 || code == 51 || code == 52 || code == 53 || code == 54 || code == 55 || code == 78 || code == 79 || code == 80 || code == 81 || code == 82 || code == 83 || code == 84 || code == 85 || code == 86 || code == 87,
        op_shape(code) == Some(kinds(views(fields@))),
    ensures
        op_model(op) == (code, views(fields@)),
{
    let ghost fs = views(fields@);
    assert(kinds(fs) == seq![WireKind::Reg, WireKind::Reg, WireKind::Imm]);
    assert(fields@.len() == 3);
    assert(kinds(fs)[0] == field_kind(fs[0]));
    assert(field_kind(fs[0]) == WireKind::Reg);
    assert(kinds(fs)[1] == field_kind(fs[1]));
    assert(field_kind(fs[1]) == WireKind::Reg);
    assert(kinds(fs)[2] == field_kind(fs[2]));
    assert(field_kind(fs[2]) == WireKind::Imm);
    let mut fields = fields;
    let a0 = reg_at(&fields, 0);
    let a1 = reg_at(&fields, 1);
    let a2 = imm_at(&fields, 2);
    let op = match code {
        46 => Op::AddIntImm { dst: a0, left: a1, val: a2 },
        47 => Op::SubIntImm { dst: a0, left: a1, val: a2 },
        48 => Op::MultIntImm { dst: a0, left: a1, val: a2 },
        49 => Op::ModIntImm { dst: a0, left: a1, val: a2 },
        50 => Op::IntLtImm { dst: a0, left: a1, val: a2 },
        51 => Op::IntLeImm { dst: a0, left: a1, val: a2 },
        52 => Op::IntGtImm { dst: a0, left: a1, val: a2 },
        53 => Op::IntGeImm { dst: a0, left: a1, val: a2 },
        54 => Op::IntEqImm { dst: a0, left: a1, val: a2 },
        55 => Op::IntNeImm { dst: a0, left: a1, val: a2 },
        78 => Op::AddFloatImm { dst: a0, left: a1, val: a2 },
        79 => Op::SubFloatImm { dst: a0, left: a1, val: a2 },
        80 => Op::MultFloatImm { dst: a0, left: a1, val: a2 },
        81 => Op::ModFloatImm { dst: a0, left: a1, val: a2 },
        82 => Op::FloatLtImm { dst: a0, left: a1, val: a2 },
        83 => Op::FloatLeImm { dst: a0, left: a1, val: a2 },
        84 => Op::FloatGtImm { dst: a0, left: a1, val: a2 },
        85 => Op::FloatGeImm { dst: a0, left: a1, val: a2 },
        86 => Op::FloatEqImm { dst: a0, left: a1, val: a2 },
        87 => Op::FloatNeImm { dst: a0, left: a1, val: a2 },
        _ => {
            assert(false);
            Op::Panic {}
        },
    };
    assert(op_operands(op) =~= fs);
    op
}

/// Builds an op whose operands are, in order, `BlockTarget`, `Reg`, `Reg`, `bool`.
fn assemble_target_reg_reg_flag(code: u8, fields: Vec<Field>) -> (op: Op)
    requires
        code == 56 || code == 57 || code == 58 || code == 59 || code == 60 || code == 61 || code == 88 || code == 89 || code == 90 || code == 91 || code == 92 || code == 93,
        op_shape(code) == Some(kinds(views(fields@))),
    ensures
        op_model(op) == (code, views(fields@)),
{
    let ghost fs = views(fields@);
    assert(kinds(fs) == seq![WireKind::Jump, WireKind::Reg, WireKind::Reg, WireKind::Flag]);
    assert(fields@.len() == 4);
    assert(kinds(fs)[0] == field_kind(fs[0]));
    assert(field_kind(fs[0]) == WireKind::Jump);
    assert(kinds(fs)[1] == field_kind(fs[1]));
    assert(field_kind(fs[1]) == WireKind::Reg);
    assert(kinds(fs)[2] == field_kind(fs[2]));
    assert(field_kind(fs[2]) == WireKind::Reg);
    assert(kinds(fs)[3] == field_kind(fs[3]));
    assert(field_kind(fs[3]) == WireKind::Flag);
    let mut fields = fields;
    let a0 = jump_at(&fields, 0);
    let a1 = reg_at(&fields, 1);
    let a2 = reg_at(&fields, 2);
    let a3 = flag_at(&fields, 3);
    let op = match code {
        56 => Op::BIntLt { target: a0, left: a1, right: a2, is_true: a3 },
        57 => Op::BIntLe { target: a0, left: a1, right: a2, is_true: a3 },
        58 => Op::BIntGt { target: a0, left: a1, right: a2, is_true: a3 },
        59 => Op::BIntGe { target: a0, left: a1, right: a2, is_true: a3 },
        60 => Op::BIntEq { target: a0, left: a1, right: a2, is_true: a3 },
        61 => Op::BIntNe { target: a0, left: a1, right: a2, is_true: a3 },
        88 => Op::BFloatLt { target: a0, left: a1, right: a2, is_true: a3 },
        89 => Op::BFloatLe { target: a0, left: a1, right: a2, is_true: a3 },
        90 => Op::BFloatGt { target: a0, left: a1, right: a2, is_true: a3 },
        91 => Op::BFloatGe { target: a0, left: a1, right: a2, is_true: a3 },
        92 => Op::BFloatEq { target: a0, left: a1, right: a2, is_true: a3 },
        93 => Op::BFloatNe { target: a0, left: a1, right: a2, is_true: a3 },
        _ => {
            assert(false);
            Op::Panic {}
        },
    };
    assert(op_operands(op) =~= fs);
    op
}

/// Builds an op whose operands are, in order, `BlockTarget`, `Reg`, `i64`, `bool`.
fn assemble_target_reg_imm_flag(code: u8, fields: Vec<Field>) -> (op: Op)
    requires
        code == 62 || code == 63 || code == 64 || code == 65 || code == 66 || code == 67 || code == 94 || code == 95 || code == 96 || code == 97 || code == 98 || code == 99,
        op_shape(code) == Some(kinds(views(fields@))),
    ensures
        op_model(op) == (code, views(fields@)),
{
    let ghost fs = views(fields@);
    assert(kinds(fs) == seq![WireKind::Jump, WireKind::Reg, WireKind::Imm, WireKind::Flag]);
    assert(fields@.len() == 4);
    assert(kinds(fs)[0] == field_kind(fs[0]));
    assert(field_kind(fs[0]) == WireKind::Jump);
    assert(kinds(fs)[1] == field_kind(fs[1]));
    assert(field_kind(fs[1]) == WireKind::Reg);
    assert(kinds(fs)[2] == field_kind(fs[2]));
    assert(field_kind(fs[2]) == WireKind::Imm);
    assert(kinds(fs)[3] == field_kind(fs[3]));
    assert(field_kind(fs[3]) == WireKind::Flag);
    let mut fields = fields;
    let a0 = jump_at(&fields, 0);
    let a1 = reg_at(&fields, 1);
    let a2 = imm_at(&fields, 2);
    let a3 = flag_at(&fields, 3);
    let op = match code {
        62 => Op::BIntLtImm { target: a0, left: a1, val: a2, is_true: a3 },
        63 => Op::BIntLeImm { target: a0, left: a1, val: a2, is_true: a3 },
        64 => Op::BIntGtImm { target: a0, left: a1, val: a2, is_true: a3 },
        65 => Op::BIntGeImm { target: a0, left: a1, val: a2, is_true: a3 },
        66 => Op::BIntEqImm { target: a0, left: a1, val: a2, is_true: a3 },
        67 => Op::BIntNeImm { target: a0, left: a1, val: a2, is_true: a3 },
        94 => Op::BFloatLtImm { target: a0, left: a1, val: a2, is_true: a3 },
        95 => Op::BFloatLeImm { target: a0, left: a1, val: a2, is_true: a3 },
        96 => Op::BFloatGtImm { target: a0, left: a1, val: a2, is_true: a3 },
        97 => Op::BFloatGeImm { target: a0, left: a1, val: a2, is_true: a3 },
        98 => Op::BFloatEqImm { target: a0, left: a1, val: a2, is_true: a3 },
        99 => Op::BFloatNeImm { target: a0, left: a1, val: a2, is_true: a3 },
        _ => {
            assert(false);
            Op::Panic {}
        },
    };
    assert(op_operands(op) =~= fs);
    op
}

/// The kinds of the operands of the op with code `code`, or `None` for a byte that is no op's
/// code.
pub fn operand_kinds(code: u8) -> (r: Option<Vec<WireKind>>)
    ensures
        match r {
            Some(v) => op_shape(code) == Some(v@),
            None => op_shape(code) is None,
        },
{
    match code {
        0 | 5 | 21 | 22 | 23 | 26 | 27 | 28 => {
            let v: Vec<WireKind> = vec![WireKind::Reg, WireKind::Reg];
            assert(v@ =~= op_shape(code)->0);
            Some(v)
        },
        1 | 2 | 18 | 20 => {
            let v: Vec<WireKind> = vec![WireKind::Reg];
            assert(v@ =~= op_shape(code)->0);
            Some(v)
        },
        3 | 4 | 16 | 17 => {
            let v: Vec<WireKind> = vec![WireKind::Reg, WireKind::Word, WireKind::Regs];
            assert(v@ =~= op_shape(code)->0);
            Some(v)
        },
        6 | 8 => {
            let v: Vec<WireKind> = vec![WireKind::Reg, WireKind::Word, WireKind::Reg];
            assert(v@ =~= op_shape(code)->0);
            Some(v)
        },
        7 | 34 | 35 | 36 | 37 | 38 | 39 | 40 | 41 | 42 | 43 | 44 | 45 | 68 | 69 | 70 | 71 | 72 | 73 | 74 | 75 | 76 | 77 | 100 | 101 => {
            let v: Vec<WireKind> = vec![WireKind::Reg, WireKind::Reg, WireKind::Reg];
            assert(v@ =~= op_shape(code)->0);
            Some(v)
        },
        9 => {
            let v: Vec<WireKind> = vec![WireKind::Reg, WireKind::Word];
            assert(v@ =~= op_shape(code)->0);
            Some(v)
        },
        10 => {
            let v: Vec<WireKind> = vec![WireKind::Reg, WireKind::Konst];
            assert(v@ =~= op_shape(code)->0);
            Some(v)
        },
        11 => {
            let v: Vec<WireKind> = vec![WireKind::Jump];
            assert(v@ =~= op_shape(code)->0);
            Some(v)
        },
        12 => {
            let v: Vec<WireKind> = vec![WireKind::Reg, WireKind::Jump, WireKind::Flag];
            assert(v@ =~= op_shape(code)->0);
            Some(v)
        },
        13 => {
            let v: Vec<WireKind> = vec![WireKind::Reg, WireKind::Reg, WireKind::Jump];
            assert(v@ =~= op_shape(code)->0);
            Some(v)
        },
        14 => {
            let v: Vec<WireKind> = vec![WireKind::Reg, WireKind::Word, WireKind::Jump, WireKind::Table];
            assert(v@ =~= op_shape(code)->0);
            Some(v)
        },
        15 => {
            let v: Vec<WireKind> = vec![WireKind::Reg, WireKind::Reg, WireKind::Regs];
            assert(v@ =~= op_shape(code)->0);
            Some(v)
        },
        19 => {
            let v: Vec<WireKind> = Vec::new();
            assert(v@ =~= op_shape(code)->0);
            Some(v)
        },
        24 => {
            let v: Vec<WireKind> = vec![WireKind::Reg, WireKind::Reg, WireKind::Reg, WireKind::Access];
            assert(v@ =~= op_shape(code)->0);
            Some(v)
        },
        25 => {
            let v: Vec<WireKind> = vec![WireKind::Reg, WireKind::Reg, WireKind::Word, WireKind::Access];
            assert(v@ =~= op_shape(code)->0);
            Some(v)
        },
        29 => {
            let v: Vec<WireKind> = vec![WireKind::Reg, WireKind::Reg, WireKind::Reg, WireKind::Flag];
            assert(v@ =~= op_shape(code)->0);
            Some(v)
        },
        30 => {
            let v: Vec<WireKind> = vec![WireKind::Reg, WireKind::Reg, WireKind::Word];
            assert(v@ =~= op_shape(code)->0);
            Some(v)
        },
        31 => {
            let v: Vec<WireKind> = vec![WireKind::Reg, WireKind::Parts];
            assert(v@ =~= op_shape(code)->0);
            Some(v)
        },
        32 => {
            let v: Vec<WireKind> = vec![WireKind::Reg, WireKind::Reg, WireKind::Bin, WireKind::Reg];
            assert(v@ =~= op_shape(code)->0);
            Some(v)
        },
        33 => {
            let v: Vec<WireKind> = vec![WireKind::Reg, WireKind::Unary, WireKind::Reg];
            assert(v@ =~= op_shape(code)->0);
            Some(v)
        },
        46 | 47 | 48 | 49 | 50 | 51 | 52 | 53 | 54 | 55 | 78 | 79 | 80 | 81 | 82 | 83 | 84 | 85 | 86 | 87 => {
            let v: Vec<WireKind> = vec![WireKind::Reg, WireKind::Reg, WireKind::Imm];
            assert(v@ =~= op_shape(code)->0);
            Some(v)
        },
        56 | 57 | 58 | 59 | 60 | 61 | 88 | 89 | 90 | 91 | 92 | 93 => {
            let v: Vec<WireKind> = vec![WireKind::Jump, WireKind::Reg, WireKind::Reg, WireKind::Flag];
            assert(v@ =~= op_shape(code)->0);
            Some(v)
        },
        62 | 63 | 64 | 65 | 66 | 67 | 94 | 95 | 96 | 97 | 98 | 99 => {
            let v: Vec<WireKind> = vec![WireKind::Jump, WireKind::Reg, WireKind::Imm, WireKind::Flag];
            assert(v@ =~= op_shape(code)->0);
            Some(v)
        },
        _ => None,
    }
}

} // verus!
