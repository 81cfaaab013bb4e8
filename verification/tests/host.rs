use mimas::host::{box_int, read_int, Entity, Hook, IntType, IntValue, MimasPlugin};

#[test]
fn u64_above_i64_max_keeps_its_bits() {
    let n = read_int(IntValue::U64(u64::MAX));
    assert_eq!(n, -1);
    let back = box_int(IntType::U64, n - 1);
    assert_eq!(back, Some(IntValue::U64(u64::MAX - 1)));
}

#[test]
fn small_ints_have_to_fit() {
    assert_eq!(box_int(IntType::U8, 255), Some(IntValue::U8(255)));
    assert_eq!(box_int(IntType::U8, 256), None);
    assert_eq!(box_int(IntType::I8, -129), None);
    assert_eq!(box_int(IntType::I16, -300), Some(IntValue::I16(-300)));
    assert_eq!(read_int(IntValue::I32(-7)), -7);
    assert_eq!(read_int(IntValue::Usize(12)), 12);
}

#[test]
fn ints_round_trip_through_their_type() {
    for v in [
        IntValue::I8(-128),
        IntValue::U16(65535),
        IntValue::I64(i64::MIN),
        IntValue::U32(4_000_000_000),
        IntValue::U64(1 << 63),
    ] {
        let ty = match v {
            IntValue::I8(_) => IntType::I8,
            IntValue::U16(_) => IntType::U16,
            IntValue::I64(_) => IntType::I64,
            IntValue::U32(_) => IntType::U32,
            _ => IntType::U64,
        };
        assert_eq!(box_int(ty, read_int(v)), Some(v));
    }
}

#[test]
fn entity_bits_round_trip() {
    for bits in [0u64, 1, u64::MAX, 1 << 63] {
        assert_eq!(Entity::from_bits(bits).to_bits(), bits);
    }
}

#[test]
fn hooks_in_frame_order_with_names() {
    let names: Vec<&str> = Hook::all().iter().map(|h| h.name()).collect();
    assert_eq!(names, vec!["start", "update", "fixed_update", "stop"]);
}

#[test]
fn plugin_loads_named_scripts_or_a_folder() {
    let p = MimasPlugin::new(vec!["scripts/a.mim".to_string()]);
    assert_eq!(p.scripts, vec!["scripts/a.mim".to_string()]);
    assert_eq!(p.folder, None);
    let p = MimasPlugin::folder("scripts".to_string());
    assert!(p.scripts.is_empty());
    assert_eq!(p.folder, Some("scripts".to_string()));
    let d = MimasPlugin::default();
    assert!(d.scripts.is_empty());
    assert_eq!(d.folder, Some("scripts".to_string()));
}
