use std::collections::HashSet;

use mimas::constant::{constant_discriminant, Constant};
use mimas::field::{BlockTarget, OpFormatPart};
use mimas::ids::{AdtId, BodyId, NativeId, Reg, StrId};
use mimas::op::{Op, OpCode};
use mimas::ops::{AccessKind, BinOp, UnaryOp};
use mimas::wire::{Decoder, Encoder};

fn r(n: u32) -> Reg {
    Reg::from(n)
}

fn encode_bytes(op: &Op) -> Vec<u8> {
    let mut e = Encoder::new();
    op.clone().encode(&mut e);
    e.finish()
}

fn decode_op(bytes: Vec<u8>) -> (Op, usize) {
    let mut d = Decoder { bytes, ip: 0 };
    let op = Op::try_decode(&mut d).expect("the bytes decode to an op");
    (op, d.ip)
}

// encodes, checks the length, decodes, and re-encodes byte for byte; returns the op's code
fn roundtrip(op: Op) -> u8 {
    let code = op.discriminant();
    let bytes = encode_bytes(&op);
    assert_eq!(bytes.len(), op.encoded_len(), "encoded_len != bytes written for {op:?}");
    let (decoded, read) = decode_op(bytes.clone());
    assert_eq!(read, bytes.len(), "decoding stopped early for {op:?}");
    assert_eq!(format!("{decoded:?}"), format!("{op:?}"), "decoded op differs");
    assert_eq!(encode_bytes(&decoded), bytes, "re-encode differs for {op:?}");
    code
}

// one representative op per variant, with distinct nonzero operands
fn all_ops() -> Vec<Op> {
    vec![
        Op::Move { dst: r(2), src: r(2) },
        Op::NewArray { dst: r(2) },
        Op::NewDict { dst: r(2) },
        Op::NewInstance { dst: r(2), adt: AdtId::from(11), fields: vec![r(3), r(4)] },
        Op::NewClosure { dst: r(2), body: BodyId::from(9), captures: vec![r(3), r(4)] },
        Op::Push { array: r(2), value: r(2) },
        Op::Insert { dict: r(2), key: StrId::from(7), value: r(2) },
        Op::SetIndex { set: r(2), index: r(2), value: r(2) },
        Op::SetField { receiver: r(2), slot: 7, value: r(2) },
        Op::LoadBody { dst: r(2), body: BodyId::from(9) },
        Op::LoadConst { dst: r(2), constant: Constant::Int(-9223372036854775808) },
        Op::Jump { target: BlockTarget::ByteOffset(123) },
        Op::JumpIf { cond: r(2), target: BlockTarget::ByteOffset(123), is_true: true },
        Op::ForNext { idx: r(2), bound: r(2), target: BlockTarget::ByteOffset(123) },
        Op::Switch { scrut: r(2), base: 7, default: BlockTarget::ByteOffset(123), table: vec![BlockTarget::ByteOffset(10), BlockTarget::ByteOffset(20)] },
        Op::Call { dst: r(2), callee: r(2), args: vec![r(3), r(4)] },
        Op::CallDirect { dst: r(2), body: BodyId::from(9), args: vec![r(3), r(4)] },
        Op::CallNative { dst: r(2), id: NativeId::from(13), args: vec![r(3), r(4)] },
        Op::Return { val: r(2) },
        Op::Panic {},
        Op::Raise { val: r(2) },
        Op::IsRaised { dst: r(2), src: r(2) },
        Op::UnwrapRaised { dst: r(2), src: r(2) },
        Op::Unwrap { dst: r(2), src: r(2) },
        Op::GetIndex { dst: r(2), set: r(2), index: r(2), kind: AccessKind::Optional },
        Op::GetField { dst: r(2), src: r(2), slot: 7, kind: AccessKind::Optional },
        Op::Len { dst: r(2), src: r(2) },
        Op::ToFloat { dst: r(2), src: r(2) },
        Op::Sqrt { dst: r(2), src: r(2) },
        Op::In { dst: r(2), needle: r(2), haystack: r(2), condition: true },
        Op::IsInstance { dst: r(2), src: r(2), adt: AdtId::from(11) },
        Op::Format { dst: r(2), parts: vec![OpFormatPart::Literal(StrId::from(7)), OpFormatPart::Value(r(2))] },
        Op::Bin { dst: r(2), left: r(2), op: BinOp::Div, right: r(2) },
        Op::Unary { dst: r(2), op: UnaryOp::Not, src: r(2) },
        Op::BoolEq { dst: r(2), left: r(2), right: r(2) },
        Op::BoolNe { dst: r(2), left: r(2), right: r(2) },
        Op::AddInt { dst: r(2), left: r(2), right: r(2) },
        Op::SubInt { dst: r(2), left: r(2), right: r(2) },
        Op::MultInt { dst: r(2), left: r(2), right: r(2) },
        Op::ModInt { dst: r(2), left: r(2), right: r(2) },
        Op::IntLt { dst: r(2), left: r(2), right: r(2) },
        Op::IntLe { dst: r(2), left: r(2), right: r(2) },
        Op::IntGt { dst: r(2), left: r(2), right: r(2) },
        Op::IntGe { dst: r(2), left: r(2), right: r(2) },
        Op::IntEq { dst: r(2), left: r(2), right: r(2) },
        Op::IntNe { dst: r(2), left: r(2), right: r(2) },
        Op::AddIntImm { dst: r(2), left: r(2), val: -5 },
        Op::SubIntImm { dst: r(2), left: r(2), val: -5 },
        Op::MultIntImm { dst: r(2), left: r(2), val: -5 },
        Op::ModIntImm { dst: r(2), left: r(2), val: -5 },
        Op::IntLtImm { dst: r(2), left: r(2), val: -5 },
        Op::IntLeImm { dst: r(2), left: r(2), val: -5 },
        Op::IntGtImm { dst: r(2), left: r(2), val: -5 },
        Op::IntGeImm { dst: r(2), left: r(2), val: -5 },
        Op::IntEqImm { dst: r(2), left: r(2), val: -5 },
        Op::IntNeImm { dst: r(2), left: r(2), val: -5 },
        Op::BIntLt { target: BlockTarget::ByteOffset(123), left: r(2), right: r(2), is_true: true },
        Op::BIntLe { target: BlockTarget::ByteOffset(123), left: r(2), right: r(2), is_true: true },
        Op::BIntGt { target: BlockTarget::ByteOffset(123), left: r(2), right: r(2), is_true: true },
        Op::BIntGe { target: BlockTarget::ByteOffset(123), left: r(2), right: r(2), is_true: true },
        Op::BIntEq { target: BlockTarget::ByteOffset(123), left: r(2), right: r(2), is_true: true },
        Op::BIntNe { target: BlockTarget::ByteOffset(123), left: r(2), right: r(2), is_true: true },
        Op::BIntLtImm { target: BlockTarget::ByteOffset(123), left: r(2), val: -5, is_true: true },
        Op::BIntLeImm { target: BlockTarget::ByteOffset(123), left: r(2), val: -5, is_true: true },
        Op::BIntGtImm { target: BlockTarget::ByteOffset(123), left: r(2), val: -5, is_true: true },
        Op::BIntGeImm { target: BlockTarget::ByteOffset(123), left: r(2), val: -5, is_true: true },
        Op::BIntEqImm { target: BlockTarget::ByteOffset(123), left: r(2), val: -5, is_true: true },
        Op::BIntNeImm { target: BlockTarget::ByteOffset(123), left: r(2), val: -5, is_true: true },
        Op::AddFloat { dst: r(2), left: r(2), right: r(2) },
        Op::SubFloat { dst: r(2), left: r(2), right: r(2) },
        Op::MultFloat { dst: r(2), left: r(2), right: r(2) },
        Op::DivFloat { dst: r(2), left: r(2), right: r(2) },
        Op::FloatLt { dst: r(2), left: r(2), right: r(2) },
        Op::FloatLe { dst: r(2), left: r(2), right: r(2) },
        Op::FloatGt { dst: r(2), left: r(2), right: r(2) },
        Op::FloatGe { dst: r(2), left: r(2), right: r(2) },
        Op::FloatEq { dst: r(2), left: r(2), right: r(2) },
        Op::FloatNe { dst: r(2), left: r(2), right: r(2) },
        Op::AddFloatImm { dst: r(2), left: r(2), val: -5 },
        Op::SubFloatImm { dst: r(2), left: r(2), val: -5 },
        Op::MultFloatImm { dst: r(2), left: r(2), val: -5 },
        Op::ModFloatImm { dst: r(2), left: r(2), val: -5 },
        Op::FloatLtImm { dst: r(2), left: r(2), val: -5 },
        Op::FloatLeImm { dst: r(2), left: r(2), val: -5 },
        Op::FloatGtImm { dst: r(2), left: r(2), val: -5 },
        Op::FloatGeImm { dst: r(2), left: r(2), val: -5 },
        Op::FloatEqImm { dst: r(2), left: r(2), val: -5 },
        Op::FloatNeImm { dst: r(2), left: r(2), val: -5 },
        Op::BFloatLt { target: BlockTarget::ByteOffset(123), left: r(2), right: r(2), is_true: true },
        Op::BFloatLe { target: BlockTarget::ByteOffset(123), left: r(2), right: r(2), is_true: true },
        Op::BFloatGt { target: BlockTarget::ByteOffset(123), left: r(2), right: r(2), is_true: true },
        Op::BFloatGe { target: BlockTarget::ByteOffset(123), left: r(2), right: r(2), is_true: true },
        Op::BFloatEq { target: BlockTarget::ByteOffset(123), left: r(2), right: r(2), is_true: true },
        Op::BFloatNe { target: BlockTarget::ByteOffset(123), left: r(2), right: r(2), is_true: true },
        Op::BFloatLtImm { target: BlockTarget::ByteOffset(123), left: r(2), val: -5, is_true: true },
        Op::BFloatLeImm { target: BlockTarget::ByteOffset(123), left: r(2), val: -5, is_true: true },
        Op::BFloatGtImm { target: BlockTarget::ByteOffset(123), left: r(2), val: -5, is_true: true },
        Op::BFloatGeImm { target: BlockTarget::ByteOffset(123), left: r(2), val: -5, is_true: true },
        Op::BFloatEqImm { target: BlockTarget::ByteOffset(123), left: r(2), val: -5, is_true: true },
        Op::BFloatNeImm { target: BlockTarget::ByteOffset(123), left: r(2), val: -5, is_true: true },
        Op::StrEq { dst: r(2), left: r(2), right: r(2) },
        Op::StrNe { dst: r(2), left: r(2), right: r(2) },
    ]
}

#[test]
fn roundtrip_covers_every_opcode() {
    let seen: HashSet<u8> = all_ops().into_iter().map(roundtrip).collect();
    assert_eq!(
        seen.len(),
        OpCode::COUNT,
        "roundtrip list missed {} opcode(s)",
        OpCode::COUNT - seen.len()
    );
}

#[test]
fn op_discriminant_in_range_for_every_op() {
    for op in all_ops() {
        let code = op.discriminant();
        assert!((code as usize) < OpCode::COUNT, "discriminant {code} out of range for {op:?}");
        assert_eq!(encode_bytes(&op)[0], code, "first byte != discriminant for {op:?}");
    }
}

#[test]
fn empty_vec_fields_roundtrip() {
    roundtrip(Op::NewInstance { dst: r(1), adt: AdtId::from(11), fields: vec![] });
    roundtrip(Op::NewClosure { dst: r(1), body: BodyId::from(9), captures: vec![] });
    roundtrip(Op::Call { dst: r(1), callee: r(2), args: vec![] });
    roundtrip(Op::CallDirect { dst: r(1), body: BodyId::from(9), args: vec![] });
    roundtrip(Op::CallNative { dst: r(1), id: NativeId::from(13), args: vec![] });
    roundtrip(Op::Switch {
        scrut: r(1),
        base: 5,
        default: BlockTarget::ByteOffset(123),
        table: vec![],
    });
    roundtrip(Op::Format { dst: r(1), parts: vec![] });
}

#[test]
fn all_constant_kinds_roundtrip() {
    for c in [
        Constant::Null,
        Constant::Bool(true),
        Constant::Bool(false),
        Constant::Int(-9223372036854775808),
        Constant::Float(3.5f64.to_bits()),
        Constant::Str(StrId::from(7)),
        Constant::Array(vec![]),
        Constant::Array(vec![
            Constant::Int(1),
            Constant::Bool(true),
            Constant::Array(vec![Constant::Str(StrId::from(7)), Constant::Null]),
        ]),
    ] {
        roundtrip(Op::LoadConst { dst: r(1), constant: c });
    }
}

#[test]
fn extreme_int_immediate_roundtrips() {
    roundtrip(Op::AddIntImm { dst: r(0), left: r(1), val: i64::MAX });
    roundtrip(Op::SubIntImm { dst: r(0), left: r(1), val: i64::MIN });
    roundtrip(Op::LoadConst { dst: r(0), constant: Constant::Int(i64::MIN) });
    roundtrip(Op::LoadConst { dst: r(0), constant: Constant::Int(i64::MAX) });
}

#[test]
fn special_floats_roundtrip_bitexact() {
    for f in [
        0.0f64,
        -0.0,
        f64::INFINITY,
        f64::NEG_INFINITY,
        f64::MIN,
        f64::MAX,
        std::f64::consts::PI,
    ] {
        roundtrip(Op::LoadConst { dst: r(0), constant: Constant::Float(f.to_bits()) });
    }
    // NaN: the codec keeps its bits
    let bytes = encode_bytes(&Op::LoadConst { dst: r(0), constant: Constant::Float(f64::NAN.to_bits()) });
    let got = match decode_op(bytes).0 {
        Op::LoadConst { constant: Constant::Float(bits), .. } => f64::from_bits(bits),
        _ => panic!("expected float const"),
    };
    assert!(got.is_nan(), "NaN const lost its NaN-ness");
}

#[test]
fn wide_register_index_roundtrips() {
    roundtrip(Op::Move { dst: r(60000), src: r(1) });
}

#[test]
fn large_switch_and_arg_lists_roundtrip() {
    roundtrip(Op::Switch {
        scrut: r(0),
        base: 0,
        default: BlockTarget::ByteOffset(0),
        table: (0..300).map(BlockTarget::ByteOffset).collect(),
    });
    roundtrip(Op::Call { dst: r(0), callee: r(1), args: (0..200).map(r).collect() });
}

#[test]
fn truncated_bytes_do_not_decode() {
    let bytes = encode_bytes(&Op::Move { dst: r(300), src: r(1) });
    for cut in 0..bytes.len() {
        let mut d = Decoder { bytes: bytes[..cut].to_vec(), ip: 0 };
        assert!(Op::try_decode(&mut d).is_none(), "a {cut}-byte prefix decoded");
    }
}

#[test]
fn unknown_opcode_does_not_decode() {
    let mut d = Decoder { bytes: vec![OpCode::COUNT as u8, 0, 0, 0, 0], ip: 0 };
    assert!(Op::try_decode(&mut d).is_none());
    assert_eq!(OpCode::from_byte(OpCode::COUNT as u8), None);
    assert_eq!(OpCode::from_byte(0), Some(OpCode::Move));
}

#[test]
fn move_encodes_code_then_little_endian_registers() {
    assert_eq!(encode_bytes(&Op::Move { dst: r(0x0102), src: r(3) }), vec![0, 0x02, 0x01, 3, 0]);
}

#[test]
fn constant_tags_follow_declaration_order() {
    let all = [
        Constant::Bool(true),
        Constant::Int(-3),
        Constant::Float(1.5f64.to_bits()),
        Constant::Str(StrId::from(2)),
        Constant::Array(vec![Constant::Null]),
        Constant::Null,
    ];
    let tags: Vec<u8> = all.iter().map(constant_discriminant).collect();
    assert_eq!(tags, vec![0, 1, 2, 3, 4, 5]);
}

#[test]
fn float_words_are_the_floats_own_bytes() {
    let x = -1234.5f64;
    let mut e = Encoder::new();
    e.float_bits(x.to_bits());
    let bytes = e.finish();
    assert_eq!(bytes, x.to_le_bytes().to_vec());
    let mut d = Decoder { bytes, ip: 0 };
    assert_eq!(f64::from_bits(d.float_bits()), x);
    assert_eq!(d.ip, 8);
}
