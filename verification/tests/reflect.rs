use mimas::reflect::{Builder, Catalog, FieldDesc, Kind, Layout, Members, Stored, TypeDesc, VariantDesc};

fn desc(name: &str, kind: Option<Kind>, layout: Layout, component: Option<u32>) -> TypeDesc {
    TypeDesc {
        name: name.to_string(),
        path: format!("game::{name}"),
        kind,
        layout,
        component,
        resource: false,
        mutable: true,
        default: false,
    }
}

fn field(name: &str, ty: usize) -> FieldDesc {
    FieldDesc { name: Some(name.to_string()), ty: Some(ty) }
}

// 0 int, 1 Score { points: int } (component), 2 Option<Score>,
// 3 Team { best: Option<Score>, members: Vec<Score> }, 4 List<Score>, 5 Node { next: Node },
// 6 Wrapper<int> (generic), 7 Map (unusable), 8 Holder(Map)
fn table() -> Vec<TypeDesc> {
    vec![
        desc("i64", Some(Kind::Int), Layout::Other, None),
        desc("Score", Some(Kind::Type), Layout::Struct(vec![field("points", 0)]), Some(40)),
        desc("Option<Score>", Some(Kind::Option(1)), Layout::Other, None),
        desc(
            "Team",
            Some(Kind::Type),
            Layout::Struct(vec![field("best", 2), field("members", 4)]),
            Some(41),
        ),
        desc("Vec<Score>", Some(Kind::List(1)), Layout::Other, None),
        desc("Node", Some(Kind::Type), Layout::Struct(vec![field("next", 5)]), Some(42)),
        desc("Wrapper<i64>", Some(Kind::Type), Layout::TupleStruct(vec![FieldDesc { name: None, ty: Some(0) }]), Some(43)),
        desc("HashMap", None, Layout::Other, None),
        desc("Holder", Some(Kind::Type), Layout::Struct(vec![field("map", 7)]), Some(44)),
    ]
}

#[test]
fn accept_takes_field_types_first() {
    let mut b = Builder::new(table());
    assert!(b.accept(3));
    assert_eq!(b.catalog.order, vec![1, 3]);
    assert!(b.catalog.types[1].is_some() && b.catalog.types[3].is_some());
    // already there
    assert!(b.accept(1));
    assert_eq!(b.catalog.order, vec![1, 3]);
}

#[test]
fn scalars_and_wrappers_are_usable() {
    let mut b = Builder::new(table());
    assert!(b.accept(0));
    assert!(b.accept(2));
    assert!(b.accept(4));
    assert_eq!(b.catalog.order, vec![1]);
}

#[test]
fn recursive_generic_and_unusable_types_are_refused() {
    let mut b = Builder::new(table());
    assert!(!b.accept(5), "a type that contains itself");
    assert!(!b.accept(6), "a generic type");
    assert!(!b.accept(7), "a map");
    assert!(!b.accept(8), "a field scripts can't use");
    assert!(b.catalog.order.is_empty());
    assert!(b.visiting.iter().all(|v| !v));
}

#[test]
fn catalog_starts_from_components_in_path_order() {
    let c = Catalog::new(table(), &vec![]);
    // roots by path: Holder, Node, Score, Team, Wrapper<i64>
    assert_eq!(c.order, vec![1, 3]);
    let stored = c.stored();
    assert_eq!(stored.len(), 2);
    assert_eq!(stored[0].0, 1);
    assert_eq!(stored[0].1.component, 40);
    assert_eq!(stored[1].1.component, 41);
    assert_eq!(c.get(3).ty, 3);
    let t = table();
    assert_eq!(c.get(1).name(&t), "Score");
}

#[test]
fn extra_types_join_the_roots() {
    let mut t = table();
    t.push(desc("Hit", Some(Kind::Type), Layout::Struct(vec![field("damage", 0)]), None));
    let c = Catalog::new(t, &vec![9]);
    assert!(c.types[9].is_some());
    assert!(c.types[9].unwrap().stored.is_none());
    assert_eq!(c.stored().len(), 2);
}

#[test]
fn members_of_structs_and_variants() {
    let e = desc(
        "Mood",
        Some(Kind::Type),
        Layout::Enum(vec![
            VariantDesc::Unit("Calm".to_string()),
            VariantDesc::Tuple("Hurt".to_string(), vec![FieldDesc { name: None, ty: Some(0) }]),
        ]),
        None,
    );
    assert!(matches!(Members::of(&e, 0), Some(Members::Unit)));
    let hurt = Members::of(&e, 1).unwrap();
    assert_eq!(hurt.reflected(), vec![(None, 0)]);
    assert!(Members::of(&e, 2).is_none());
    let t = table();
    let named = Members::of(&t[3], 0).unwrap().reflected();
    assert_eq!(named, vec![(Some("best".to_string()), 2), (Some("members".to_string()), 4)]);
    assert!(Members::of(&t[0], 0).is_none());
}

#[test]
fn types_in_a_cycle_never_join_whatever_the_order() {
    // 0 int, 1 Ping { pong: Pong }, 2 Pong { ping: Ping }, 3 Solo { n: int }, 4 Pair(Solo, Ping)
    let t = vec![
        desc("i64", Some(Kind::Int), Layout::Other, None),
        desc("Ping", Some(Kind::Type), Layout::Struct(vec![field("pong", 2)]), Some(10)),
        desc("Pong", Some(Kind::Type), Layout::Struct(vec![field("ping", 1)]), Some(11)),
        desc("Solo", Some(Kind::Type), Layout::Struct(vec![field("n", 0)]), Some(12)),
        desc(
            "Pair",
            Some(Kind::Type),
            Layout::TupleStruct(vec![FieldDesc { name: None, ty: Some(3) }, FieldDesc { name: None, ty: Some(1) }]),
            Some(13),
        ),
    ];
    let mut b = Builder::new(t.clone());
    assert!(!b.accept(2));
    assert!(!b.accept(1));
    assert!(!b.accept(4));
    assert!(b.accept(3));
    // Pair took its first field before its second failed
    assert_eq!(b.catalog.order, vec![3]);
    let c = Catalog::new(t, &vec![]);
    assert_eq!(c.order, vec![3]);
}

#[test]
fn resources_live_on_their_own_entity() {
    let component = Stored { ty: 1, component: 40, mutable: true, resource: false };
    let resource = Stored { ty: 3, component: 41, mutable: true, resource: true };
    assert_eq!(component.holder(Some(9), Some(5)), Some(5));
    assert_eq!(resource.holder(Some(9), Some(5)), Some(9));
    assert_eq!(resource.holder(None, Some(5)), None);
    let carriers = [5u64, 9];
    let holds = |e: u64| carriers.contains(&e);
    assert!(component.has(None, 5, holds));
    assert!(!component.has(Some(9), 6, holds));
    assert!(resource.has(Some(9), 6, holds));
    assert!(!resource.has(None, 5, holds));
}

#[test]
fn members_keep_how_fields_are_written() {
    let t = table();
    assert!(matches!(Members::of(&t[1], 0), Some(Members::Named(_))));
    assert!(matches!(Members::of(&t[6], 0), Some(Members::Tuple(_))));
    let e = desc(
        "Shape",
        Some(Kind::Type),
        Layout::Enum(vec![
            VariantDesc::Unit("Dot".to_string()),
            VariantDesc::Tuple("Circle".to_string(), vec![FieldDesc { name: None, ty: Some(0) }]),
            VariantDesc::Struct("Rect".to_string(), vec![field("w", 0)]),
        ]),
        None,
    );
    assert!(matches!(Members::of(&e, 0), Some(Members::Unit)));
    assert!(matches!(Members::of(&e, 1), Some(Members::Tuple(_))));
    assert!(matches!(Members::of(&e, 2), Some(Members::Named(_))));
    assert!(Members::of(&e, 3).is_none());
}

#[test]
fn accepting_a_primitive_leaves_the_catalog_as_it_is() {
    let mut b = Builder::new(table());
    assert!(b.accept(0));
    assert!(b.catalog.order.is_empty());
    assert!(b.catalog.types.iter().all(|t| t.is_none()));
    assert!(b.accept(3));
    let before = b.catalog.order.clone();
    assert!(b.accept(2));
    assert!(b.accept(0));
    assert_eq!(b.catalog.order, before);
}
