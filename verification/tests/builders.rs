use std::collections::{BTreeMap, BTreeSet};

use telemetry_safe::{telemetry, DebugCollection, DebugStruct, DebugTuple, TelemetryFormatter};

#[test]
fn tuple_builder_writes_name_and_fields() {
    let mut f = TelemetryFormatter::new();
    let mut t = DebugTuple::new(&mut f, "Pair");
    t.field(&mut f, &1_u8);
    t.field_text(&mut f, "two");
    t.finish(&mut f).unwrap();
    assert_eq!(f.as_str(), "Pair(1, two)");
}

#[test]
fn tuple_builder_without_fields_writes_only_the_name() {
    let mut f = TelemetryFormatter::new();
    let t = DebugTuple::new(&mut f, "Unit");
    t.finish(&mut f).unwrap();
    assert_eq!(f.as_str(), "Unit");
}

#[test]
fn nameless_tuple_with_one_field_keeps_its_comma() {
    let mut f = TelemetryFormatter::new();
    let mut t = DebugTuple::new(&mut f, "");
    t.field(&mut f, &7_u8);
    t.finish(&mut f).unwrap();
    assert_eq!(f.as_str(), "(7,)");
}

#[test]
fn struct_builder_writes_keys_and_values() {
    let mut f = TelemetryFormatter::new();
    f.write_str("event=");
    let mut s = DebugStruct::new(&mut f, "Login");
    s.field(&mut f, "id", &42_u64);
    s.field_text(&mut f, "note", "[redacted]");
    s.finish(&mut f).unwrap();
    assert_eq!(f.as_str(), "event=Login { id: 42, note: [redacted] }");
}

#[test]
fn struct_builder_without_fields_writes_only_the_name() {
    let mut f = TelemetryFormatter::new();
    let s = DebugStruct::new(&mut f, "Empty");
    s.finish(&mut f).unwrap();
    assert_eq!(f.as_str(), "Empty");
}

#[test]
fn collection_builders_delimit_items() {
    let mut f = TelemetryFormatter::new();
    let mut l = DebugCollection::list(&mut f);
    l.entry(&mut f, &1_u8);
    l.entry(&mut f, &2_u8);
    l.finish(&mut f).unwrap();
    let mut m = DebugCollection::set(&mut f);
    m.key_value(&mut f, &1_u8, &true);
    m.finish(&mut f).unwrap();
    assert_eq!(f.as_str(), "[1, 2]{1: true}");
}

#[test]
fn maps_and_sets_render_in_key_order() {
    let mut map = BTreeMap::new();
    map.insert(3_u64, 'c');
    map.insert(1_u64, 'a');
    map.insert(2_u64, 'b');
    assert_eq!(telemetry(&map).to_string(), "{1: a, 2: b, 3: c}");
    let empty: BTreeMap<u8, u8> = BTreeMap::new();
    assert_eq!(telemetry(&empty).to_string(), "{}");
    let set: BTreeSet<i8> = [5, -1, 2].into_iter().collect();
    assert_eq!(telemetry(&set).to_string(), "{-1, 2, 5}");
}

#[test]
fn maps_and_sets_with_equal_contents_render_alike() {
    let mut first = BTreeMap::new();
    first.insert(2_u64, 3_u64);
    first.insert(1_u64, 4_u64);
    let mut second = BTreeMap::new();
    second.insert(1_u64, 4_u64);
    second.insert(2_u64, 3_u64);
    assert_eq!(telemetry(&first).to_string(), "{1: 4, 2: 3}");
    assert_eq!(telemetry(&first).to_string(), telemetry(&second).to_string());
    let a: BTreeSet<u32> = [9, 3, 6].into_iter().collect();
    let b: BTreeSet<u32> = [6, 9, 3, 3].into_iter().collect();
    assert_eq!(telemetry(&a).to_string(), "{3, 6, 9}");
    assert_eq!(telemetry(&a).to_string(), telemetry(&b).to_string());
}
