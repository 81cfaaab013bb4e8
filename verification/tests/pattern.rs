use mimas::constant::CachedConstant;
use mimas::ids::{AdtId, BlockId, InstId, Local};
use mimas::ir::{Body, Inst};
use mimas::pattern::{bind_pattern, test_pattern, Pattern};
use mimas::text::inst_text;

/// A body with the scrutinee read from local 0 in the entry block, and a failure block.
fn start() -> (Body, InstId, BlockId) {
    let mut b = Body::new();
    let scrut = b.push_inst(Inst::GetLocal(Local(0)));
    let fail = b.push_block();
    (b, scrut, fail)
}

fn texts(b: &Body, block: usize) -> Vec<String> {
    b.blocks[block].stream.iter().map(|i| inst_text(&b.instructions[i.0 as usize], &vec![]).unwrap()).collect()
}

#[test]
fn a_literal_compares_and_branches() {
    let (mut b, scrut, fail) = start();
    assert!(test_pattern(&mut b, &Pattern::Literal(CachedConstant::Int(3)), scrut, fail).is_some());
    assert_eq!(texts(&b, 0), vec!["get l0", "const 3", "equal i0, i1 (Int)", "jump_if_false i2, b1"]);
    assert_eq!(b.current_block, BlockId(0));
}

#[test]
fn a_binding_sets_its_local() {
    let (mut b, scrut, fail) = start();
    test_pattern(&mut b, &Pattern::Bind(Local(4)), scrut, fail);
    assert_eq!(texts(&b, 0), vec!["get l0", "set l4: i0"]);
}

#[test]
fn a_struct_tests_its_tag_then_its_fields_in_a_new_block() {
    let (mut b, scrut, fail) = start();
    let pat = Pattern::Struct(AdtId(2), vec![(1, Pattern::Literal(CachedConstant::Bool(true))), (0, Pattern::Bind(Local(1)))]);
    test_pattern(&mut b, &pat, scrut, fail);
    assert_eq!(texts(&b, 0), vec!["get l0", "is_instance i0 @2", "jump_if_false i1, b1", "jump b2"]);
    assert_eq!(
        texts(&b, 2),
        vec!["get_field i0 .1", "const true", "equal i4, i5 (Bool)", "jump_if_false i6, b1", "get_field i0 .0", "set l1: i8"]
    );
    assert_eq!(b.current_block, BlockId(2));
}

#[test]
fn a_tuple_reads_each_element_by_index() {
    let (mut b, scrut, fail) = start();
    let pat = Pattern::Tuple(vec![Pattern::Bind(Local(1)), Pattern::Bind(Local(2))]);
    test_pattern(&mut b, &pat, scrut, fail);
    assert_eq!(
        texts(&b, 0),
        vec!["get l0", "const 0", "get_index i0 @ i1", "set l1: i2", "const 1", "get_index i0 @ i4", "set l2: i5"]
    );
}

#[test]
fn alternatives_try_the_next_on_a_mismatch() {
    let (mut b, scrut, fail) = start();
    let pat = Pattern::Or(vec![Pattern::Literal(CachedConstant::Int(1)), Pattern::Literal(CachedConstant::Int(2))]);
    test_pattern(&mut b, &pat, scrut, fail);
    // b2 is where a match goes on, b3 where the second alternative is tried
    assert_eq!(texts(&b, 0), vec!["get l0", "const 1", "equal i0, i1 (Int)", "jump_if_false i2, b3", "jump b2"]);
    assert_eq!(texts(&b, 3), vec!["const 2", "equal i0, i5 (Int)", "jump_if_false i6, b1", "jump b2"]);
    assert!(texts(&b, 2).is_empty());
    assert_eq!(b.current_block, BlockId(2));
    let empty = Pattern::Or(vec![]);
    let (mut b, scrut, fail) = start();
    test_pattern(&mut b, &empty, scrut, fail);
    assert_eq!(texts(&b, 0), vec!["get l0", "jump b1"]);
}

#[test]
fn a_null_binding_checks_then_binds() {
    let (mut b, scrut, fail) = start();
    test_pattern(&mut b, &Pattern::NullBind(Box::new(Pattern::Bind(Local(3))), false), scrut, fail);
    assert_eq!(
        texts(&b, 0),
        vec!["get l0", "const null", "not_equal i0, i1 (Generic)", "jump_if_false i2, b1", "jump b2"]
    );
    assert_eq!(texts(&b, 2), vec!["set l3: i0"]);
    let (mut b, scrut, fail) = start();
    test_pattern(&mut b, &Pattern::NullBind(Box::new(Pattern::Variant(AdtId(7))), true), scrut, fail);
    assert_eq!(texts(&b, 0), vec!["get l0", "is_raised i0", "not i1", "jump_if_false i2, b1", "jump b2"]);
    assert_eq!(texts(&b, 2), vec!["is_instance i0 @7", "jump_if_false i5, b1"]);
}

#[test]
fn binding_after_a_table_reads_the_fields_without_testing() {
    let (mut b, scrut, _) = start();
    let pat = Pattern::Struct(AdtId(2), vec![(1, Pattern::Bind(Local(2))), (0, Pattern::Variant(AdtId(4)))]);
    bind_pattern(&mut b, &pat, scrut);
    assert_eq!(texts(&b, 0), vec!["get l0", "get_field i0 .1", "set l2: i1", "get_field i0 .0"]);
    assert_eq!(b.blocks.len(), 2);
    let (mut b, scrut, _) = start();
    let alts = Pattern::Or(vec![
        Pattern::TupleVariant(AdtId(1), vec![Pattern::Bind(Local(5))]),
        Pattern::TupleVariant(AdtId(2), vec![Pattern::Bind(Local(5))]),
    ]);
    bind_pattern(&mut b, &alts, scrut);
    assert_eq!(texts(&b, 0), vec!["get l0", "get_field i0 .0", "set l5: i1"]);
    let (mut b, scrut, _) = start();
    bind_pattern(&mut b, &Pattern::Literal(CachedConstant::Int(1)), scrut);
    assert_eq!(texts(&b, 0), vec!["get l0"]);
}
