use mimas::constant::Constant;
use mimas::disasm::{op_text, ops_text};
use mimas::field::{BlockTarget, OpFormatPart};
use mimas::ids::{AdtId, BlockId, Reg, StrId};
use mimas::op::Op;
use mimas::ops::{AccessKind, BinOp};

fn col(s: &str, w: usize) -> String {
    format!("{s:<w$}")
}

fn name(s: &str) -> String {
    col(s, 18)
}

fn arg(s: &str) -> String {
    col(s, 10)
}

#[test]
fn registers_and_names_sit_in_their_columns() {
    let t = op_text(&Op::Move { dst: Reg(1), src: Reg(2) }).unwrap();
    assert_eq!(t, format!("{}{}{}", name("move"), arg("r1"), arg("r2")));
    assert_eq!(t.len(), 38);
}

#[test]
fn byte_offsets_show_four_digits_at_least() {
    let short = op_text(&Op::Jump { target: BlockTarget::ByteOffset(7) }).unwrap();
    assert_eq!(short, format!("{}0007      ", name("jump")));
    let long = op_text(&Op::Jump { target: BlockTarget::ByteOffset(12345) }).unwrap();
    assert_eq!(long, format!("{}12345      ", name("jump")));
    let block = op_text(&Op::Jump { target: BlockTarget::Block(BlockId(2)) }).unwrap();
    assert_eq!(block, format!("{}{}", name("jump"), arg("b2")));
}

#[test]
fn switch_arms_count_from_the_base() {
    let op = Op::Switch {
        scrut: Reg(0),
        base: 4,
        default: BlockTarget::Block(BlockId(3)),
        table: vec![BlockTarget::ByteOffset(12), BlockTarget::Block(BlockId(2))],
    };
    assert_eq!(
        op_text(&op).unwrap(),
        format!("{}{} 4=0012       5={} else{}", name("switch"), arg("r0"), arg("b2"), arg("b3"))
    );
}

#[test]
fn constants_show_as_they_display() {
    let array = Op::LoadConst {
        dst: Reg(3),
        constant: Constant::Array(vec![Constant::Int(1), Constant::Int(2), Constant::Str(StrId(7))]),
    };
    assert_eq!(op_text(&array).unwrap(), format!("{}{}[1, 2, str 7]", name("load_const"), arg("r3")));
    let negative = Op::LoadConst { dst: Reg(0), constant: Constant::Int(-5) };
    assert_eq!(op_text(&negative).unwrap(), format!("{}{}{}", name("load_const"), arg("r0"), arg("-5")));
    let imm = Op::AddIntImm { dst: Reg(0), left: Reg(1), val: 7 };
    assert_eq!(op_text(&imm).unwrap(), format!("{}{}{}{}", name("add_int_imm"), arg("r0"), arg("r1"), arg("7")));
}

#[test]
fn floats_are_left_to_the_caller() {
    assert!(op_text(&Op::AddFloatImm { dst: Reg(0), left: Reg(1), val: 4 }).is_none());
    assert!(op_text(&Op::LoadConst { dst: Reg(0), constant: Constant::Float(0) }).is_none());
    let nested = Constant::Array(vec![Constant::Int(1), Constant::Float(0)]);
    assert!(op_text(&Op::LoadConst { dst: Reg(0), constant: nested }).is_none());
}

#[test]
fn kinds_branches_and_odd_shapes() {
    let bin = Op::Bin { dst: Reg(0), left: Reg(1), op: BinOp::NotEqual, right: Reg(2) };
    assert_eq!(op_text(&bin).unwrap(), format!("{}{}{}{}", name("bin (notequal)"), arg("r0"), arg("r1"), arg("r2")));
    let branch = Op::BIntLt { target: BlockTarget::ByteOffset(40), left: Reg(1), right: Reg(2), is_true: false };
    assert_eq!(
        op_text(&branch).unwrap(),
        format!("{}0040      {}{}", name("bint_lt_false"), arg("r1"), arg("r2"))
    );
    let is = Op::IsInstance { dst: Reg(1), src: Reg(2), adt: AdtId(5) };
    assert_eq!(op_text(&is).unwrap(), format!("is_instance {} = {} @5", arg("r1"), arg("r2")));
    assert_eq!(op_text(&Op::Panic {}).unwrap(), "panic");
    let format = Op::Format { dst: Reg(0), parts: vec![OpFormatPart::Literal(StrId(3)), OpFormatPart::Value(Reg(2))] };
    assert_eq!(op_text(&format).unwrap(), format!("{}{}{}{}", name("format"), arg("r0"), arg(".3"), arg("r2")));
    let field = Op::GetField { dst: Reg(0), src: Reg(1), slot: 2, kind: AccessKind::Optional };
    assert_eq!(op_text(&field).unwrap(), format!("{}{}{}.2?", name("get_field"), arg("r0"), arg("r1")));
}

#[test]
fn a_bytecode_dump_numbers_each_op() {
    let ops = vec![Op::Move { dst: Reg(1), src: Reg(2) }, Op::Jump { target: BlockTarget::ByteOffset(0) }];
    let dump = ops_text(&ops).unwrap();
    assert_eq!(
        dump,
        format!("0000    {}{}{}\n0001    {}0000      ", name("move"), arg("r1"), arg("r2"), name("jump"))
    );
    assert_eq!(ops_text(&vec![]).unwrap(), "");
    let float = vec![Op::AddFloatImm { dst: Reg(0), left: Reg(1), val: 4 }];
    assert!(ops_text(&float).is_none());
}
