use mimas::clean::{
    clean, cross_block_iids, dce, dve, fold_constants, forwarder_target, last_uses, live_insts,
    reachable_blocks, sink_returns, thread_jumps, thread_phis,
};
use mimas::codegen::compile_body;
use mimas::constant::Constant;
use mimas::ids::{BlockId, InstId, Local};
use mimas::ir::{Body, Inst};
use mimas::op::Op;
use mimas::ops::{BinFault, BinOp, OperandKind, Scalar};

fn konst(b: &mut Body, c: Constant) -> InstId {
    b.push_inst(Inst::Constant(c))
}

fn ret_null(b: &mut Body) {
    let null = konst(b, Constant::Null);
    b.push_inst(Inst::Return(null));
}

fn stream(b: &Body, blk: u32) -> Vec<InstId> {
    b.blocks[blk as usize].stream.clone()
}

// let x = <a> <op> <b>;
fn folds_to(a: i64, op: BinOp, b: i64, expected: Constant) {
    let mut body = Body::new();
    let l = konst(&mut body, Constant::Int(a));
    let r = konst(&mut body, Constant::Int(b));
    let v = body.push_inst(Inst::BinOp { left: l, op, right: r, kind: OperandKind::Int });
    body.push_inst(Inst::SetLocal(Local(0), v));
    ret_null(&mut body);
    let ops = compile_body(&mut body, 1, 0).expect("compiles").ops;
    let want = format!("{expected:?}");
    assert!(
        ops.iter().any(|op| matches!(op, Op::LoadConst { constant, .. } if format!("{constant:?}") == want)),
        "`{a} {op:?} {b}` should fold to {want}:\n{ops:#?}"
    );
}

#[test]
fn const_fold_int_ops() {
    folds_to(7, BinOp::Add, 3, Constant::Int(10));
    folds_to(7, BinOp::Sub, 3, Constant::Int(4));
    folds_to(7, BinOp::Mult, 3, Constant::Int(21));
    folds_to(7, BinOp::IDiv, 3, Constant::Int(2));
    folds_to(7, BinOp::Mod, 3, Constant::Int(1));
    folds_to(6, BinOp::BitAnd, 3, Constant::Int(2));
    folds_to(6, BinOp::BitOr, 1, Constant::Int(7));
    folds_to(6, BinOp::BitXor, 3, Constant::Int(5));
    folds_to(1, BinOp::BitShiftLeft, 4, Constant::Int(16));
    folds_to(32, BinOp::BitShiftRight, 2, Constant::Int(8));
    folds_to(3, BinOp::LessThan, 5, Constant::Bool(true));
    folds_to(5, BinOp::LessThan, 3, Constant::Bool(false));
    folds_to(3, BinOp::LessEqual, 3, Constant::Bool(true));
    folds_to(5, BinOp::GreaterThan, 3, Constant::Bool(true));
    folds_to(3, BinOp::GreaterEqual, 5, Constant::Bool(false));
    folds_to(3, BinOp::Identity, 3, Constant::Bool(true));
    folds_to(3, BinOp::NotEqual, 3, Constant::Bool(false));
}

#[test]
fn eval_int_reports_faults() {
    assert_eq!(BinOp::Add.eval_int(i64::MAX, 1), Err(BinFault::Overflow));
    assert_eq!(BinOp::IDiv.eval_int(1, 0), Err(BinFault::DivByZero));
    assert_eq!(BinOp::IDiv.eval_int(i64::MIN, -1), Err(BinFault::Overflow));
    assert_eq!(BinOp::Add.eval_int(2, 3), Ok(Scalar::Int(5)));
    assert_eq!(BinOp::LessThan.eval_int(2, 3), Ok(Scalar::Bool(true)));
}

#[test]
fn fold_rewrites_the_constant_in_place() {
    let mut body = Body::new();
    let l = konst(&mut body, Constant::Int(2));
    let r = konst(&mut body, Constant::Int(5));
    let v = body.push_inst(Inst::BinOp { left: l, op: BinOp::Mult, right: r, kind: OperandKind::Int });
    body.push_inst(Inst::Return(v));
    assert!(fold_constants(&mut body));
    assert!(matches!(body.instructions[v.0 as usize], Inst::Constant(Constant::Int(10))));
    assert!(!fold_constants(&mut body), "a second round finds nothing");
}

#[test]
fn overflowing_fold_is_left_alone() {
    let mut body = Body::new();
    let l = konst(&mut body, Constant::Int(i64::MAX));
    let r = konst(&mut body, Constant::Int(1));
    let v = body.push_inst(Inst::BinOp { left: l, op: BinOp::Add, right: r, kind: OperandKind::Int });
    body.push_inst(Inst::Return(v));
    assert!(!fold_constants(&mut body));
    assert!(matches!(body.instructions[v.0 as usize], Inst::BinOp { .. }));
}

#[test]
fn dce_empties_unreachable_blocks() {
    let mut body = Body::new();
    let dead = body.push_block();
    ret_null(&mut body);
    body.target(dead);
    ret_null(&mut body);
    assert_eq!(reachable_blocks(&body), vec![true, false]);
    assert!(dce(&mut body));
    assert!(stream(&body, 1).is_empty());
    assert_eq!(stream(&body, 0).len(), 2);
    assert!(!dce(&mut body));
}

#[test]
fn dve_drops_unused_pure_values() {
    let mut body = Body::new();
    let unused = konst(&mut body, Constant::Int(1));
    let used = konst(&mut body, Constant::Int(2));
    body.push_inst(Inst::Return(used));
    let live = live_insts(&body);
    assert_eq!(live, vec![false, true, true]);
    assert!(dve(&mut body));
    assert_eq!(stream(&body, 0), vec![used, InstId(2)]);
    assert!(!stream(&body, 0).contains(&unused));
}

#[test]
fn dve_keeps_effects() {
    let mut body = Body::new();
    let v = konst(&mut body, Constant::Int(1));
    body.push_inst(Inst::SetLocal(Local(0), v));
    ret_null(&mut body);
    assert!(!dve(&mut body));
    assert_eq!(stream(&body, 0).len(), 4);
}

#[test]
fn jumps_thread_through_forwarders() {
    let mut body = Body::new();
    let fwd = body.push_block();
    let end = body.push_block();
    let cond = konst(&mut body, Constant::Bool(true));
    body.push_inst(Inst::JumpIfFalse { condition: cond, target: fwd });
    body.push_inst(Inst::Jump { target: end });
    body.target(fwd);
    body.push_inst(Inst::Jump { target: end });
    body.target(end);
    ret_null(&mut body);
    assert_eq!(forwarder_target(&body, fwd), Some(end));
    assert_eq!(forwarder_target(&body, end), None);
    assert!(thread_jumps(&mut body));
    assert!(matches!(body.instructions[1], Inst::JumpIfFalse { target, .. } if target == end));
}

#[test]
fn clean_keeps_the_program_shape() {
    let mut body = Body::new();
    let then_b = body.push_block();
    let merge = body.push_block();
    let c = konst(&mut body, Constant::Bool(false));
    body.push_inst(Inst::JumpIfFalse { condition: c, target: merge });
    body.push_inst(Inst::Jump { target: then_b });
    body.target(then_b);
    let one = konst(&mut body, Constant::Int(1));
    body.push_inst(Inst::Jump { target: merge });
    body.target(merge);
    let zero = konst(&mut body, Constant::Int(0));
    let p = body.push_inst(Inst::Phi(vec![(BlockId(0), zero), (then_b, one)]));
    body.push_inst(Inst::Return(p));
    let hit_limit = clean(&mut body);
    assert!(!hit_limit);
    assert_eq!(body.blocks.len(), 3);
    assert_eq!(body.instructions.len(), 8);
}

#[test]
fn cleaning_a_clean_body_changes_nothing() {
    let mut body = Body::new();
    let a = body.push_block();
    let b = body.push_block();
    let merge = body.push_block();
    let ret = body.push_block();
    let dead = body.push_block();
    let c = konst(&mut body, Constant::Bool(true));
    body.push_inst(Inst::JumpIfFalse { condition: c, target: a });
    body.push_inst(Inst::Jump { target: b });
    body.target(b);
    let x = konst(&mut body, Constant::Int(1));
    let two = konst(&mut body, Constant::Int(2));
    let _unused = body.push_inst(Inst::BinOp { left: x, op: BinOp::Add, right: two, kind: OperandKind::Int });
    body.push_inst(Inst::Jump { target: merge });
    body.target(a);
    let y = konst(&mut body, Constant::Int(2));
    body.push_inst(Inst::Jump { target: merge });
    body.target(merge);
    let p = body.push_inst(Inst::Phi(vec![(b, x), (a, y)]));
    body.push_inst(Inst::Jump { target: ret });
    body.target(ret);
    body.push_inst(Inst::Return(p));
    body.target(dead);
    ret_null(&mut body);
    assert!(!clean(&mut body));
    let once = format!("{body:?}");
    assert!(!thread_jumps(&mut body));
    assert!(!dce(&mut body));
    assert!(!thread_phis(&mut body));
    assert!(!sink_returns(&mut body));
    assert!(!fold_constants(&mut body));
    assert!(!dve(&mut body));
    assert!(!clean(&mut body));
    assert_eq!(format!("{body:?}"), once);
}

#[test]
fn returns_sink_into_predecessors() {
    let mut body = Body::new();
    let a = body.push_block();
    let b = body.push_block();
    let merge = body.push_block();
    let ret = body.push_block();
    let c = konst(&mut body, Constant::Bool(true));
    body.push_inst(Inst::JumpIfFalse { condition: c, target: a });
    body.push_inst(Inst::Jump { target: b });
    body.target(b);
    let x = konst(&mut body, Constant::Int(1));
    body.push_inst(Inst::Jump { target: merge });
    body.target(a);
    let y = konst(&mut body, Constant::Int(2));
    body.push_inst(Inst::Jump { target: merge });
    body.target(merge);
    let p = body.push_inst(Inst::Phi(vec![(b, x), (a, y)]));
    body.push_inst(Inst::Jump { target: ret });
    body.target(ret);
    body.push_inst(Inst::Return(p));
    assert!(sink_returns(&mut body));
    let last = *stream(&body, b.0).last().unwrap();
    assert!(matches!(body.instructions[last.0 as usize], Inst::Return(v) if v == x));
    let last = *stream(&body, a.0).last().unwrap();
    assert!(matches!(body.instructions[last.0 as usize], Inst::Return(v) if v == y));
    assert!(matches!(&body.instructions[p.0 as usize], Inst::Phi(branches) if branches.is_empty()));
    assert!(!thread_phis(&mut body));
}

#[test]
fn last_uses_and_cross_block_values() {
    let mut body = Body::new();
    let next = body.push_block();
    let a = konst(&mut body, Constant::Int(1));
    let b = konst(&mut body, Constant::Int(2));
    let s = body.push_inst(Inst::BinOp { left: a, op: BinOp::Add, right: b, kind: OperandKind::Int });
    body.push_inst(Inst::Jump { target: next });
    body.target(next);
    body.push_inst(Inst::Return(s));
    let uses = last_uses(&body, BlockId(0));
    assert_eq!(uses[a.0 as usize], Some(s));
    assert_eq!(uses[b.0 as usize], Some(s));
    let cross = cross_block_iids(&body);
    assert!(cross[s.0 as usize]);
    assert!(!cross[a.0 as usize]);
}

#[test]
fn operator_names() {
    assert_eq!(BinOp::Identity.name(), "equal");
    assert_eq!(BinOp::Coalesce.name(), "null_coalesce");
    assert_eq!(BinOp::BitShiftRight.name(), "bit_shift_right");
    assert_eq!(mimas::ops::UnaryOp::BitwiseNot.name(), "bit_not");
}

#[test]
fn uses_lists_each_value_once_in_index_order() {
    let i3 = InstId(3);
    let i5 = InstId(5);
    let sq = Inst::BinOp { left: i3, op: BinOp::Mult, right: i3, kind: OperandKind::Int };
    assert_eq!(mimas::ir::uses(&sq), vec![i3]);
    let insert = Inst::Insert { dict: i5, key: mimas::ids::StrId(0), value: i3 };
    assert_eq!(mimas::ir::uses(&insert), vec![i3, i5]);
    for none in [Inst::Constant(Constant::Null), Inst::GetLocal(Local(0)), Inst::NewArray, Inst::NewDict, Inst::Panic] {
        assert!(mimas::ir::uses(&none).is_empty());
    }
}
