use mimas::codegen::compile_body;
use mimas::field::Field;
use mimas::constant::Constant;
use mimas::ids::{BlockId, InstId, Local, Location, StrId};
use mimas::ir::{Body, Inst};
use mimas::op::Op;
use mimas::ops::{BinOp, OperandKind};

// the IR the front end emits for each program below, built by hand, then compiled with the
// optimizer on

fn konst(b: &mut Body, c: Constant) -> InstId {
    b.push_inst(Inst::Constant(c))
}

fn int_const(b: &mut Body, n: i64) -> InstId {
    konst(b, Constant::Int(n))
}

fn set(b: &mut Body, l: u32, v: InstId) -> InstId {
    b.push_inst(Inst::SetLocal(Local(l), v))
}

fn get(b: &mut Body, l: u32) -> InstId {
    b.push_inst(Inst::GetLocal(Local(l)))
}

fn bin(b: &mut Body, left: InstId, op: BinOp, right: InstId, kind: OperandKind) -> InstId {
    b.push_inst(Inst::BinOp { left, op, right, kind })
}

fn jump(b: &mut Body, target: BlockId) -> InstId {
    b.push_inst(Inst::Jump { target })
}

fn jump_if_false(b: &mut Body, condition: InstId, target: BlockId) -> InstId {
    b.push_inst(Inst::JumpIfFalse { condition, target })
}

// the entry body ends by returning null
fn finish(b: &mut Body) {
    if !b.is_terminated() {
        let null = konst(b, Constant::Null);
        b.push_inst(Inst::Return(null));
    }
}

fn compile(mut b: Body, n_locals: u32) -> Vec<Op> {
    compile_body(&mut b, n_locals, 0).expect("the body compiles").ops
}

// `if <cond> { then } else { else }` as a statement: both arms yield null, merged by a phi
fn if_stmt(b: &mut Body, condition_of: impl Fn(&mut Body) -> InstId) {
    let then_block = b.push_block();
    let else_block = b.push_block();
    let merge = b.push_block();
    let condition = condition_of(b);
    jump_if_false(b, condition, else_block);
    jump(b, then_block);
    b.target(then_block);
    let t = konst(b, Constant::Null);
    jump(b, merge);
    b.target(else_block);
    let e = konst(b, Constant::Null);
    jump(b, merge);
    b.target(merge);
    b.push_inst(Inst::Phi(vec![(then_block, t), (else_block, e)]));
}

fn count(ops: &[Op], f: impl Fn(&Op) -> bool) -> usize {
    ops.iter().filter(|o| f(o)).count()
}

// let x = [1, 2, 3];
#[test]
fn array_literal_lowers_to_newarray_and_push() {
    let mut b = Body::new();
    let array = b.push_inst(Inst::NewArray);
    for n in 1..=3 {
        let v = int_const(&mut b, n);
        b.push_inst(Inst::Push { array, value: v });
    }
    set(&mut b, 0, array);
    finish(&mut b);
    let ops = compile(b, 1);
    assert!(ops.iter().any(|o| matches!(o, Op::NewArray { .. })), "expected NewArray:\n{ops:#?}");
    assert!(count(&ops, |o| matches!(o, Op::Push { .. })) >= 3, "expected >=3 pushes:\n{ops:#?}");
}

// let x: ~{int} = ~{ a = 1, b = 2 };
#[test]
fn dict_literal_lowers_to_newdict_and_insert() {
    let mut b = Body::new();
    let dict = b.push_inst(Inst::NewDict);
    for (key, n) in [(0u32, 1i64), (1, 2)] {
        let v = int_const(&mut b, n);
        b.push_inst(Inst::Insert { dict, key: StrId(key), value: v });
    }
    set(&mut b, 0, dict);
    finish(&mut b);
    let ops = compile(b, 1);
    assert!(ops.iter().any(|o| matches!(o, Op::NewDict { .. })), "expected NewDict:\n{ops:#?}");
    assert!(count(&ops, |o| matches!(o, Op::Insert { .. })) >= 2, "expected >=2 inserts:\n{ops:#?}");
}

// fn f(a: bool, b: bool) -> bool { a == b }   (and a != b)
fn bool_compare(op: BinOp) -> Vec<Op> {
    let mut b = Body::new();
    b.params = vec![Local(0), Local(1)];
    let l = get(&mut b, 0);
    let r = get(&mut b, 1);
    let v = bin(&mut b, l, op, r, OperandKind::Bool);
    b.push_inst(Inst::Return(v));
    compile(b, 2)
}

#[test]
fn direct_bool_eq_lowers_to_specialized_bool_op() {
    let ops = bool_compare(BinOp::Identity);
    assert!(ops.iter().any(|o| matches!(o, Op::BoolEq { .. })), "bool == should lower to BoolEq:\n{ops:#?}");
    assert!(
        !ops.iter().any(|o| matches!(o, Op::Bin { op: BinOp::Identity, .. })),
        "bool == should not fall back to a generic Bin:\n{ops:#?}"
    );
    let ops = bool_compare(BinOp::NotEqual);
    assert!(ops.iter().any(|o| matches!(o, Op::BoolNe { .. })), "bool != should lower to BoolNe:\n{ops:#?}");
}

// let a = 0;
// if a == 0 {}
#[test]
fn dead_if_statement_leaves_no_jump() {
    let mut b = Body::new();
    let zero = int_const(&mut b, 0);
    set(&mut b, 0, zero);
    if_stmt(&mut b, |b| {
        let a = get(b, 0);
        let z = int_const(b, 0);
        bin(b, a, BinOp::Identity, z, OperandKind::Int)
    });
    finish(&mut b);
    let ops = compile(b, 1);
    assert!(
        !ops.iter().any(|op| matches!(op, Op::Jump { .. })),
        "no leftover unconditional jump expected:\n{ops:#?}"
    );
}

// let a = 1;
// if a == 1 {} else {}
#[test]
fn empty_branches_thread_away() {
    let mut b = Body::new();
    let one = int_const(&mut b, 1);
    set(&mut b, 0, one);
    if_stmt(&mut b, |b| {
        let a = get(b, 0);
        let o = int_const(b, 1);
        bin(b, a, BinOp::Identity, o, OperandKind::Int)
    });
    finish(&mut b);
    let ops = compile(b, 1);
    assert!(
        !ops.iter().any(|op| matches!(op, Op::Jump { .. })),
        "empty forwarder blocks should be threaded out:\n{ops:#?}"
    );
}

// let a = 9223372036854775807 + 1;
#[test]
fn overflow_const_does_not_fold() {
    let mut b = Body::new();
    let max = int_const(&mut b, i64::MAX);
    let one = int_const(&mut b, 1);
    let sum = bin(&mut b, max, BinOp::Add, one, OperandKind::Int);
    set(&mut b, 0, sum);
    finish(&mut b);
    let ops = compile(b, 1);
    assert!(
        ops.iter().any(|op| matches!(op, Op::AddIntImm { val: 1, .. })),
        "an overflowing const add must be left for the runtime fault:\n{ops:#?}"
    );
}

// let s = 0;
// let i = 0;
// while i < 10 { s = s + i; i = i + 1; }
#[test]
fn while_body_falls_through() {
    let mut b = Body::new();
    let z = int_const(&mut b, 0);
    set(&mut b, 0, z);
    let z = int_const(&mut b, 0);
    set(&mut b, 1, z);
    let condition = b.push_block();
    let body = b.push_block();
    let condition_exit = b.push_block();
    let exit = b.push_block();
    jump(&mut b, condition);
    b.target(condition);
    let i = get(&mut b, 1);
    let ten = int_const(&mut b, 10);
    let less = bin(&mut b, i, BinOp::LessThan, ten, OperandKind::Int);
    jump_if_false(&mut b, less, condition_exit);
    jump(&mut b, body);
    b.target(body);
    let s = get(&mut b, 0);
    let i = get(&mut b, 1);
    let sum = bin(&mut b, s, BinOp::Add, i, OperandKind::Int);
    set(&mut b, 0, sum);
    let i = get(&mut b, 1);
    let one = int_const(&mut b, 1);
    let next = bin(&mut b, i, BinOp::Add, one, OperandKind::Int);
    set(&mut b, 1, next);
    jump(&mut b, condition);
    b.target(condition_exit);
    let null = konst(&mut b, Constant::Null);
    jump(&mut b, exit);
    b.target(exit);
    b.push_inst(Inst::Phi(vec![(condition_exit, null)]));
    finish(&mut b);
    let ops = compile(b, 2);
    let jumps = count(&ops, |op| matches!(op, Op::Jump { .. }));
    assert_eq!(jumps, 1, "only the back-edge jump should remain:\n{ops:#?}");
}

// let s = 0;
// for i in 10 { s = s + i; }
fn for_loop(bound: i64, step: impl Fn(&mut Body) -> InstId) -> Vec<Op> {
    let mut b = Body::new();
    let z = int_const(&mut b, 0);
    set(&mut b, 0, z);
    let target = int_const(&mut b, bound);
    let zero = int_const(&mut b, 0);
    let header = b.push_block();
    let latch = b.push_block();
    let empty = b.push_block();
    let exit = b.push_block();
    let null = konst(&mut b, Constant::Null);
    set(&mut b, 1, zero);
    let entered = bin(&mut b, zero, BinOp::LessThan, target, OperandKind::Int);
    jump_if_false(&mut b, entered, empty);
    jump(&mut b, header);
    b.target(empty);
    jump(&mut b, exit);
    b.target(header);
    let s = get(&mut b, 0);
    let v = step(&mut b);
    let sum = bin(&mut b, s, BinOp::Add, v, OperandKind::Int);
    set(&mut b, 0, sum);
    jump(&mut b, latch);
    b.target(latch);
    let i = get(&mut b, 1);
    b.push_inst(Inst::ForNext { idx: i, bound: target, target: header });
    jump(&mut b, exit);
    b.target(exit);
    b.push_inst(Inst::Phi(vec![(empty, null), (latch, null)]));
    finish(&mut b);
    compile(b, 2)
}

#[test]
fn for_body_falls_through() {
    let ops = for_loop(10, |b| get(b, 1));
    let jumps = count(&ops, |op| matches!(op, Op::Jump { .. }));
    let for_nexts = count(&ops, |op| matches!(op, Op::ForNext { .. }));
    assert_eq!(jumps, 0, "the back-edge is now a ForNext:\n{ops:#?}");
    assert_eq!(for_nexts, 1, "the loop tail should be a single ForNext:\n{ops:#?}");
}

// let s = 0;
// for i in 100 { s = s + 7; }
#[test]
fn loop_invariant_arith_const_becomes_immediate() {
    let ops = for_loop(100, |b| int_const(b, 7));
    assert!(
        ops.iter().any(|op| matches!(op, Op::AddIntImm { val: 7, .. })),
        "loop-invariant arith constant should inline as an immediate:\n{ops:#?}"
    );
    assert!(
        !ops.iter().any(|op| matches!(op, Op::LoadConst { constant: Constant::Int(7), .. })),
        "the immediate constant should not be loaded into a register:\n{ops:#?}"
    );
}

#[test]
fn every_jump_target_is_a_byte_offset() {
    let ops = for_loop(10, |b| get(b, 1));
    for op in &ops {
        if let Op::Jump { target } | Op::ForNext { target, .. } | Op::JumpIf { target, .. } = op {
            assert!(matches!(target, mimas::field::BlockTarget::ByteOffset(_)), "{op:?}");
        }
    }
}

// let n = 3;
// let s = f"n is {n}!";
#[test]
fn fstring_lowers_to_format_with_literal_and_value_parts() {
    let mut b = Body::new();
    let three = int_const(&mut b, 3);
    set(&mut b, 0, three);
    let n = get(&mut b, 0);
    let f = b.push_inst(Inst::Format(vec![
        mimas::ir::FormatPart::Literal(StrId(0)),
        mimas::ir::FormatPart::Value(n),
        mimas::ir::FormatPart::Literal(StrId(1)),
    ]));
    set(&mut b, 1, f);
    finish(&mut b);
    let ops = compile(b, 2);
    let fmt = ops
        .iter()
        .find_map(|o| match o {
            Op::Format { parts, .. } => Some(parts),
            _ => None,
        })
        .expect("expected a Format op");
    assert!(
        fmt.iter().any(|p| matches!(p, mimas::field::OpFormatPart::Literal(_))),
        "expected a literal part:\n{fmt:#?}"
    );
    assert!(
        fmt.iter().any(|p| matches!(p, mimas::field::OpFormatPart::Value(_))),
        "expected a value part:\n{fmt:#?}"
    );
}

#[test]
fn every_register_fits_the_frame() {
    // the while loop above, compiled whole
    let mut b = Body::new();
    let z = int_const(&mut b, 0);
    set(&mut b, 0, z);
    let header = b.push_block();
    let exit = b.push_block();
    jump(&mut b, header);
    b.target(header);
    let s = get(&mut b, 0);
    let one = int_const(&mut b, 1);
    let next = bin(&mut b, s, BinOp::Add, one, OperandKind::Int);
    set(&mut b, 0, next);
    let s = get(&mut b, 0);
    let ten = int_const(&mut b, 10);
    let less = bin(&mut b, s, BinOp::LessThan, ten, OperandKind::Int);
    jump_if_false(&mut b, less, exit);
    jump(&mut b, header);
    b.target(exit);
    finish(&mut b);
    let compiled = compile_body(&mut b, 3, 40).expect("compiles");
    assert_eq!(compiled.offset, 40);
    assert!(compiled.regs >= 3);
    assert!(!compiled.ops.is_empty());
    for op in &compiled.ops {
        for field in op.operands() {
            match field {
                Field::Reg(r) => assert!(r.0 < compiled.regs as u32, "{op:?}"),
                Field::Regs(rs) => assert!(rs.iter().all(|r| r.0 < compiled.regs as u32), "{op:?}"),
                _ => {}
            }
        }
    }
}

#[test]
fn blocks_are_laid_out_from_the_entry() {
    // 0: if c goto 2 else 1; 1: jump 3; 2: return; 3: return; 4 (unreachable): return
    let mut b = Body::new();
    let one = b.push_block();
    let two = b.push_block();
    let three = b.push_block();
    let four = b.push_block();
    let c = konst(&mut b, Constant::Bool(true));
    jump_if_false(&mut b, c, two);
    jump(&mut b, one);
    b.target(one);
    jump(&mut b, three);
    b.target(two);
    finish(&mut b);
    b.target(three);
    finish(&mut b);
    b.target(four);
    finish(&mut b);
    let order = mimas::codegen::block_order(&b);
    // the jump's target comes right after its block; branches after that
    assert_eq!(order, vec![BlockId(0), one, three, two]);
    assert!(!order.contains(&four));
}

#[test]
fn jumps_land_on_op_boundaries() {
    for ops in [for_loop(10, |b| get(b, 1)), for_loop(100, |b| int_const(b, 7))] {
        let mut boundaries = vec![0usize];
        for op in &ops {
            let last = *boundaries.last().unwrap();
            boundaries.push(last + op.encoded_len());
        }
        let mut jumps = 0;
        for op in &ops {
            for field in op.operands() {
                let targets = match field {
                    Field::Jump(t) => vec![t],
                    Field::Table(ts) => ts,
                    _ => vec![],
                };
                for t in targets {
                    jumps += 1;
                    match t {
                        mimas::field::BlockTarget::ByteOffset(o) => {
                            assert!(boundaries.contains(&o), "{op:?} lands inside an op")
                        }
                        other => panic!("unresolved target {other:?}"),
                    }
                }
            }
        }
        assert!(jumps > 0);
    }
}

// a body with a loop, and a small second one
fn two_bodies() -> Vec<Body> {
    let mut first = Body::new();
    let z = int_const(&mut first, 0);
    set(&mut first, 0, z);
    let header = first.push_block();
    let exit = first.push_block();
    jump(&mut first, header);
    first.target(header);
    let s = get(&mut first, 0);
    let one = int_const(&mut first, 1);
    let next = bin(&mut first, s, BinOp::Add, one, OperandKind::Int);
    set(&mut first, 0, next);
    let s = get(&mut first, 0);
    let ten = int_const(&mut first, 10);
    let less = bin(&mut first, s, BinOp::LessThan, ten, OperandKind::Int);
    jump_if_false(&mut first, less, exit);
    jump(&mut first, header);
    first.target(exit);
    finish(&mut first);
    let mut second = Body::new();
    second.params = vec![Local(0)];
    let a = get(&mut second, 0);
    second.push_inst(Inst::Return(a));
    vec![first, second]
}

#[test]
fn program_lays_bodies_out_one_after_another() {
    let mut bodies = two_bodies();
    let program = mimas::codegen::Program::compile(&mut bodies, &vec![1, 1]).expect("compiles");
    assert_eq!(program.chunks.len(), 2);
    assert_eq!(program.chunks[0].offset, 0);
    assert_eq!(program.chunks[1].args, 1);
    let mut d = mimas::wire::Decoder { bytes: program.bytes.clone(), ip: 0 };
    let mut starts = vec![];
    for chunk in &program.chunks {
        assert_eq!(d.ip, chunk.offset);
        for op in &chunk.ops {
            starts.push(d.ip);
            let got = Op::try_decode(&mut d).expect("an op");
            assert_eq!(format!("{got:?}"), format!("{op:?}"));
        }
    }
    assert_eq!(d.ip, program.bytes.len());
    // every jump lands on the start of an op
    for chunk in &program.chunks {
        for op in &chunk.ops {
            for field in op.operands() {
                if let Field::Jump(mimas::field::BlockTarget::ByteOffset(o)) = field {
                    assert!(starts.contains(&o), "{op:?}");
                }
            }
        }
    }
}

fn span(start: u32, end: u32) -> Location {
    Location { file_id: 1, start, end }
}

#[test]
fn each_op_start_finds_its_location() {
    // x = 1; x = x + 2; return x -- the statements at three source spans
    let mut b = Body::new();
    b.set_loc(span(0, 5));
    let one = int_const(&mut b, 1);
    set(&mut b, 0, one);
    b.set_loc(span(6, 15));
    let x = get(&mut b, 0);
    let two = int_const(&mut b, 2);
    let sum = bin(&mut b, x, BinOp::Add, two, OperandKind::Int);
    set(&mut b, 0, sum);
    b.set_loc(span(16, 24));
    let x = get(&mut b, 0);
    b.push_inst(Inst::Return(x));
    let c = compile_body(&mut b, 1, 0).expect("compiles");
    assert!(!c.locs.is_empty());
    assert_eq!(c.locs[0].0, 0);
    for w in c.locs.windows(2) {
        assert!(w[0].0 < w[1].0, "offsets grow");
        assert!(w[0].1 != w[1].1, "no repeated location");
    }
    let used = [span(0, 5), span(6, 15), span(16, 24), Location::synthetic()];
    let mut start = 0u32;
    for op in &c.ops {
        let loc = c.loc_at(start);
        assert!(used.contains(&loc), "{op:?} at {start} has {loc:?}");
        start += op.encoded_len() as u32;
    }
    // the return is the last op, and its statement is the last one
    let last_start = start - c.ops.last().unwrap().encoded_len() as u32;
    assert_eq!(c.loc_at(last_start), span(16, 24));
    assert_eq!(c.loc_at(u32::MAX), c.locs.last().unwrap().1);
}

#[test]
fn loc_at_takes_the_last_entry_at_or_before() {
    let table = vec![(3u32, span(1, 2)), (9, span(4, 8))];
    let c = mimas::codegen::Chunk {
        ops: vec![],
        offset: 0,
        args: 0,
        regs: 0,
        params: vec![],
        captures: vec![],
        locals: vec![],
        locs: table,
    };
    assert_eq!(c.loc_at(0), Location::synthetic());
    assert_eq!(c.loc_at(2), Location::synthetic());
    assert_eq!(c.loc_at(3), span(1, 2));
    assert_eq!(c.loc_at(8), span(1, 2));
    assert_eq!(c.loc_at(9), span(4, 8));
    assert_eq!(c.loc_at(1000), span(4, 8));
    let empty = mimas::codegen::Chunk { locs: vec![], ..c };
    assert_eq!(empty.loc_at(0), Location::synthetic());
}

#[test]
fn named_locals_keep_their_registers() {
    let mut b = Body::new();
    b.artifacts = vec![(Local(1), "total".to_string()), (Local(0), "i".to_string())];
    let z = int_const(&mut b, 0);
    set(&mut b, 0, z);
    let x = get(&mut b, 0);
    b.push_inst(Inst::Return(x));
    let c = compile_body(&mut b, 2, 0).expect("compiles");
    assert_eq!(c.locals, vec![("total".to_string(), mimas::ids::Reg(1)), ("i".to_string(), mimas::ids::Reg(0))]);

    let mut bad = Body::new();
    bad.artifacts = vec![(Local(3), "ghost".to_string())];
    let n = konst(&mut bad, Constant::Null);
    bad.push_inst(Inst::Return(n));
    assert!(compile_body(&mut bad, 2, 0).is_none());
}
