use mimas::ids::BlockId;
use mimas::plan::{plan_switch, AltShape, CaseShape};

fn case(alts: Vec<AltShape>) -> CaseShape {
    CaseShape { guarded: false, catch_all: false, alts }
}

fn catch_all() -> CaseShape {
    CaseShape { guarded: false, catch_all: true, alts: vec![AltShape::Other] }
}

fn blocks(n: u32) -> Vec<BlockId> {
    (1..=n).map(BlockId).collect()
}

const FALL: BlockId = BlockId(99);

#[test]
fn variants_map_to_their_cases_and_the_rest_to_the_catch_all() {
    let cases = vec![case(vec![AltShape::Adt(3, vec![])]), case(vec![AltShape::Adt(5, vec![(0, 9)])]), catch_all()];
    let (base, table, default) = plan_switch(&cases, &blocks(3), FALL).unwrap();
    assert_eq!(base, 3);
    assert_eq!(table, vec![BlockId(1), BlockId(3), BlockId(2)]);
    assert_eq!(default, BlockId(3));
}

#[test]
fn integers_without_a_catch_all_fall_through() {
    let cases = vec![case(vec![AltShape::Int(12)]), case(vec![AltShape::Int(10)])];
    let (base, table, default) = plan_switch(&cases, &blocks(2), FALL).unwrap();
    assert_eq!(base, 10);
    assert_eq!(table, vec![BlockId(2), FALL, BlockId(1)]);
    assert_eq!(default, FALL);
}

#[test]
fn what_a_table_cannot_do_falls_back_to_a_chain() {
    let guarded = CaseShape { guarded: true, catch_all: false, alts: vec![AltShape::Int(1)] };
    assert!(plan_switch(&vec![guarded], &blocks(1), FALL).is_none());
    let twice = vec![case(vec![AltShape::Int(1)]), case(vec![AltShape::Int(1)])];
    assert!(plan_switch(&twice, &blocks(2), FALL).is_none());
    assert!(plan_switch(&vec![case(vec![AltShape::Int(-1)])], &blocks(1), FALL).is_none());
    assert!(plan_switch(&vec![case(vec![AltShape::Other])], &blocks(1), FALL).is_none());
    let after_catch_all = vec![catch_all(), case(vec![AltShape::Int(1)])];
    assert!(plan_switch(&after_catch_all, &blocks(2), FALL).is_none());
    assert!(plan_switch(&vec![catch_all()], &blocks(1), FALL).is_none());
    assert!(plan_switch(&vec![], &blocks(0), FALL).is_none());
}

#[test]
fn alternatives_must_bind_alike() {
    let alike = vec![case(vec![AltShape::Adt(1, vec![(0, 4), (1, 5)]), AltShape::Adt(2, vec![(1, 5), (0, 4)])])];
    let (base, table, _) = plan_switch(&alike, &blocks(1), FALL).unwrap();
    assert_eq!((base, table), (1, vec![BlockId(1), BlockId(1)]));
    let unlike = vec![case(vec![AltShape::Adt(1, vec![(0, 4)]), AltShape::Adt(2, vec![(0, 6)])])];
    assert!(plan_switch(&unlike, &blocks(1), FALL).is_none());
}

#[test]
fn tables_must_be_worth_it() {
    assert!(plan_switch(&vec![case(vec![AltShape::Int(0)]), case(vec![AltShape::Int(300)])], &blocks(2), FALL).is_none());
    let sparse = vec![case(vec![AltShape::Int(0)]), case(vec![AltShape::Int(100)])];
    assert_eq!(plan_switch(&sparse, &blocks(2), FALL).unwrap().1.len(), 101);
    let mut dense: Vec<CaseShape> = (0..20).map(|i| case(vec![AltShape::Int(i)])).collect();
    dense.push(case(vec![AltShape::Int(70)]));
    assert!(plan_switch(&dense, &blocks(21), FALL).is_none());
}
