use ozendb::commands::compare::{compare_scan, diff_docs, display_text, id_key, same_json};
use ozendb::value::{Document, DoubleText, Value};

fn doc(fields: Vec<(&str, Value)>) -> Document {
    fields.into_iter().map(|(k, v)| (k.to_string(), v)).collect()
}

fn id(n: i32) -> (&'static str, Value) {
    ("_id", Value::Int32(n))
}

fn json(text: &str) -> serde_json::Value {
    serde_json::from_str(text).unwrap()
}

#[test]
fn identical_collections() {
    let a = vec![doc(vec![id(1), ("v", Value::Text("x".into()))]), doc(vec![id(2), ("v", Value::Text("y".into()))])];
    let b = vec![doc(vec![id(1), ("v", Value::Text("x".into()))]), doc(vec![id(2), ("v", Value::Text("y".into()))])];
    let r = diff_docs(&a, &b);
    assert_eq!(r.identical_count, 2);
    assert_eq!(r.differing_count, 0);
    assert_eq!(r.only_in_source_count, 0);
    assert_eq!(r.only_in_target_count, 0);
}

#[test]
fn only_in_source_and_target() {
    let a = vec![doc(vec![id(1)]), doc(vec![id(2)])];
    let b = vec![doc(vec![id(2)]), doc(vec![id(3)])];
    let r = diff_docs(&a, &b);
    assert_eq!(r.only_in_source_count, 1); // id 1
    assert_eq!(r.only_in_target_count, 1); // id 3
    assert_eq!(r.identical_count, 1); // id 2
    assert_eq!(json(&r.only_in_source[0])["_id"], serde_json::Value::from(1));
    assert_eq!(json(&r.only_in_target[0])["_id"], serde_json::Value::from(3));
}

#[test]
fn differing_documents() {
    let a = vec![doc(vec![id(1), ("v", Value::Text("old".into()))])];
    let b = vec![doc(vec![id(1), ("v", Value::Text("new".into()))])];
    let r = diff_docs(&a, &b);
    assert_eq!(r.differing_count, 1);
    assert_eq!(r.identical_count, 0);
    assert_eq!(r.differing[0].id, "1");
    assert_eq!(json(&r.differing[0].source)["v"], serde_json::Value::from("old"));
    assert_eq!(json(&r.differing[0].target)["v"], serde_json::Value::from("new"));
}

#[test]
fn field_order_does_not_count_as_difference() {
    let a = vec![doc(vec![id(1), ("a", Value::Int32(1)), ("b", Value::Int32(2))])];
    let b = vec![doc(vec![id(1), ("b", Value::Int32(2)), ("a", Value::Int32(1))])];
    let r = diff_docs(&a, &b);
    assert_eq!(r.identical_count, 1);
    assert_eq!(r.differing_count, 0);
}

#[test]
fn id_type_is_significant() {
    // int 1 and string "1" are different keys, so both are "only in" their side.
    let a = vec![doc(vec![id(1)])];
    let b = vec![doc(vec![("_id", Value::Text("1".into()))])];
    let r = diff_docs(&a, &b);
    assert_eq!(r.only_in_source_count, 1);
    assert_eq!(r.only_in_target_count, 1);
    assert_eq!(r.identical_count, 0);
}

#[test]
fn totals_reflect_keyed_counts() {
    let a = vec![doc(vec![id(1)]), doc(vec![id(2)]), doc(vec![id(3)])];
    let b = vec![doc(vec![id(2)])];
    let r = diff_docs(&a, &b);
    assert_eq!(r.source_total, 3);
    assert_eq!(r.target_total, 1);
}

#[test]
fn empty_collections() {
    let r = diff_docs(&vec![], &vec![]);
    assert_eq!(r.source_total, 0);
    assert_eq!(r.target_total, 0);
    assert_eq!(r.identical_count, 0);
}

#[test]
fn nested_content_difference_is_detected() {
    let a = vec![doc(vec![id(1), ("meta", Value::Document(doc(vec![("x", Value::Int32(1))])))])];
    let b = vec![doc(vec![id(1), ("meta", Value::Document(doc(vec![("x", Value::Int32(2))])))])];
    let r = diff_docs(&a, &b);
    assert_eq!(r.differing_count, 1);
}

#[test]
fn keys_display_as_bson_does() {
    assert_eq!(id_key(&doc(vec![("_id", Value::Text("a".into()))])), "\"a\"");
    assert_eq!(id_key(&doc(vec![("_id", Value::ObjectId("507f1f77bcf86cd799439011".into()))])), "ObjectId(\"507f1f77bcf86cd799439011\")");
    assert_eq!(id_key(&doc(vec![("x", Value::Null)])), "");
    let nested = Value::Document(doc(vec![("a", Value::Int32(1)), ("b", Value::Array(vec![Value::Bool(true), Value::Null]))]));
    assert_eq!(display_text(&nested), "{ \"a\": 1, \"b\": [true, null] }");
    assert_eq!(display_text(&Value::Document(vec![])), "{}");
}

#[test]
fn duplicate_ids_keep_the_last_document_and_unkeyed_documents_are_ignored() {
    let a = vec![doc(vec![id(1), ("v", Value::Int32(1))]), doc(vec![("v", Value::Int32(9))]), doc(vec![id(1), ("v", Value::Int32(2))])];
    let b = vec![doc(vec![id(1), ("v", Value::Int32(2))])];
    let r = diff_docs(&a, &b);
    assert_eq!(r.source_total, 1);
    assert_eq!(r.identical_count, 1);
}

#[test]
fn numbers_compare_by_value_across_widths_but_not_with_doubles() {
    let zero = |d: &str| Value::Double(DoubleText { display: d.to_string(), json: format!("{d}.0"), finite: true, truncated: 0 });
    assert!(same_json(&Value::Int32(5), &Value::Int64(5)));
    assert!(!same_json(&Value::Int32(0), &zero("0")));
    assert!(same_json(&zero("0"), &zero("-0")));
}

#[test]
fn samples_are_capped() {
    let a: Vec<Document> = (0..150).map(|n| doc(vec![id(n)])).collect();
    let r = diff_docs(&a, &vec![]);
    assert_eq!(r.only_in_source_count, 150);
    assert_eq!(r.only_in_source.len(), 100);
    assert_eq!(compare_scan(None), 2000);
    assert_eq!(compare_scan(Some(50_000)), 20000);
}
