use epimetheus::decode::{decode_csv, decode_json, decode_yaml};
use epimetheus::flatmap::FlatMap;
use epimetheus::tree::Leaf;

fn num_of(fm: &FlatMap, key: &str) -> String {
    match fm.get(key) {
        Some(Leaf::Num(s)) => s.clone(),
        other => panic!("expected numeric leaf at {}, got {:?}", key, other),
    }
}

#[test]
fn prefix_joining_on_nested_object() {
    let fm = decode_json("{\"a\": {\"b\": 1, \"c\": [2, 3]}}").expect("valid json");
    assert_eq!(fm.num_entries(), 3);
    assert_eq!(num_of(&fm, "a__b"), "1");
    assert_eq!(num_of(&fm, "a__c__0"), "2");
    assert_eq!(num_of(&fm, "a__c__1"), "3");
}

#[test]
fn flattening_same_document_twice_is_identical() {
    let text = "{\"a\": {\"b\": 1, \"c\": [2, 3]}, \"d\": \"x\", \"e\": null}";
    let fm1 = decode_json(text).expect("valid json");
    let fm2 = decode_json(text).expect("valid json");
    assert_eq!(fm1.num_entries(), fm2.num_entries());
    let n = fm1.num_entries();
    for i in 0..n {
        let k = fm1.entry_key(i).clone();
        let a = format!("{:?}", fm1.get(k.as_str()));
        let b = format!("{:?}", fm2.get(k.as_str()));
        assert_eq!(a, b);
    }
}

#[test]
fn top_level_array_gets_leading_separator() {
    let fm = decode_json("[5]").expect("valid json");
    assert_eq!(fm.num_entries(), 1);
    assert_eq!(num_of(&fm, "__0"), "5");
}

#[test]
fn top_level_scalar_lands_at_empty_key() {
    let fm = decode_json("7").expect("valid json");
    assert_eq!(fm.num_entries(), 1);
    assert_eq!(num_of(&fm, ""), "7");
}

#[test]
fn malformed_json_is_rejected() {
    assert!(decode_json("{nope").is_none());
}

#[test]
fn yaml_flattens_through_the_same_tree_model() {
    let fm = decode_yaml("a:\n  b: 1\nlist:\n  - 2\n").expect("valid yaml");
    assert_eq!(fm.num_entries(), 2);
    assert_eq!(num_of(&fm, "a__b"), "1");
    assert_eq!(num_of(&fm, "list__0"), "2");
}

#[test]
fn malformed_yaml_is_rejected() {
    assert!(decode_yaml(": : :").is_none());
}

#[test]
fn csv_takes_header_and_first_data_row_only() {
    let fm = decode_csv("cpu,mem\n0.5,128\n999,999\n").expect("header and data row");
    assert_eq!(fm.num_entries(), 2);
    assert_eq!(num_of(&fm, "cpu"), "0.5");
    assert_eq!(num_of(&fm, "mem"), "128");
}

#[test]
fn csv_without_data_row_is_rejected() {
    assert!(decode_csv("cpu,mem\n").is_none());
}

#[test]
fn csv_non_numeric_cells_are_dropped_silently() {
    let fm = decode_csv("cpu,host\n0.5,web01\n").expect("header and data row");
    assert_eq!(fm.num_entries(), 1);
    assert_eq!(num_of(&fm, "cpu"), "0.5");
    assert!(fm.get("host").is_none());
}

#[test]
fn duplicate_flattened_paths_keep_the_last_write() {
    let fm = decode_json("{\"a\": {\"b\": 1}, \"a__b\": 2}").expect("valid json");
    assert_eq!(fm.num_entries(), 1);
    assert_eq!(num_of(&fm, "a__b"), "2");
}

#[test]
fn string_leaves_survive_flattening_unchanged() {
    let fm = decode_json("{\"s\": \"hi\"}").expect("valid json");
    match fm.get("s") {
        Some(Leaf::Str(v)) => assert_eq!(v, "hi"),
        other => panic!("expected string leaf, got {:?}", other),
    }
}
