use mimas::constant::Constant;
use mimas::ids::{AdtId, BlockId, InstId, Local, StrId};
use mimas::ir::{FormatPart, Inst};
use mimas::ops::{AccessKind, BinOp, OperandKind};
use mimas::text::inst_text;

fn text(inst: Inst) -> Option<String> {
    let strs = vec!["name".to_string(), "a\"b".to_string()];
    inst_text(&inst, &strs)
}

#[test]
fn instructions_read_as_an_ir_dump_shows_them() {
    assert_eq!(text(Inst::SetLocal(Local(0), InstId(1))).unwrap(), "set l0: i1");
    assert_eq!(
        text(Inst::BinOp { left: InstId(1), op: BinOp::Add, right: InstId(2), kind: OperandKind::Int }).unwrap(),
        "add i1, i2 (Int)"
    );
    assert_eq!(
        text(Inst::Switch { scrut: InstId(0), base: 4, table: vec![BlockId(1), BlockId(2)], default: BlockId(3) })
            .unwrap(),
        "switch i0 [4: b1, 5: b2] else b3"
    );
    assert_eq!(
        text(Inst::Phi(vec![(BlockId(1), InstId(3)), (BlockId(2), InstId(4))])).unwrap(),
        "phi b1: i3, b2: i4"
    );
    assert_eq!(
        text(Inst::GetField { src: InstId(2), slot: 7, kind: AccessKind::Optional }).unwrap(),
        "get_field i2 .7?"
    );
    assert_eq!(
        text(Inst::NewInstance { adt: AdtId(3), fields: vec![InstId(1), InstId(2)] }).unwrap(),
        "make_instance @3 { i1, i2 }"
    );
    assert_eq!(
        text(Inst::Insert { dict: InstId(5), key: StrId(0), value: InstId(6) }).unwrap(),
        "insert i5, i6 @ name"
    );
    assert_eq!(
        text(Inst::Format(vec![FormatPart::Literal(StrId(1)), FormatPart::Value(InstId(2))])).unwrap(),
        "format \"a\\\"b\", i2"
    );
    assert_eq!(text(Inst::In(InstId(1), InstId(2), false)).unwrap(), "!in i1: i2");
    assert_eq!(text(Inst::Panic).unwrap(), "panic");
}

#[test]
fn constants_show_their_value() {
    assert_eq!(text(Inst::Constant(Constant::Int(-5))).unwrap(), "const -5");
    assert_eq!(text(Inst::Constant(Constant::Int(i64::MIN))).unwrap(), format!("const {}", i64::MIN));
    assert_eq!(text(Inst::Constant(Constant::Bool(true))).unwrap(), "const true");
    assert_eq!(text(Inst::Constant(Constant::Str(StrId(0)))).unwrap(), "const \"name\"");
    assert_eq!(text(Inst::Constant(Constant::Null)).unwrap(), "const null");
    assert!(text(Inst::Constant(Constant::Float(1.5f64.to_bits()))).is_none());
}

#[test]
fn array_constants_read_as_they_display() {
    let c = Constant::Array(vec![Constant::Int(1), Constant::Int(2), Constant::Str(StrId(7))]);
    assert_eq!(text(Inst::Constant(c)).unwrap(), "const [1, 2, str 7]");
    assert_eq!(text(Inst::Constant(Constant::Array(vec![]))).unwrap(), "const []");
    let nested = Constant::Array(vec![Constant::Bool(true), Constant::Array(vec![Constant::Null])]);
    assert_eq!(text(Inst::Constant(nested)).unwrap(), "const [true, [null]]");
    let float = Constant::Array(vec![Constant::Int(1), Constant::Float(0)]);
    assert!(text(Inst::Constant(float)).is_none());
}

#[test]
fn the_ir_dump_shows_every_body_block_by_block() {
    let mut main = mimas::ir::Body::new();
    main.push_inst(Inst::Constant(Constant::Int(1)));
    main.push_inst(Inst::Return(InstId(0)));
    let mut other = mimas::ir::Body::new();
    let next = other.push_block();
    other.target(next);
    other.push_inst(Inst::GetLocal(Local(0)));
    let dump = mimas::dump::ir_text(&vec![main, other], &vec![]).unwrap();
    assert_eq!(dump, "b0:\n    [ i0 ] const 1\n    [ i1 ] return i0\nbody @1\nb0:\nb1:\n    [ i0 ] get l0");
    let mut float = mimas::ir::Body::new();
    float.push_inst(Inst::Constant(Constant::Float(0)));
    assert!(mimas::dump::ir_text(&vec![float], &vec![]).is_none());
}
