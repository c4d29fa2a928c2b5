use ozendb::commands::stats::extract_stats;
use ozendb::value::{Document, DoubleText, Value};

fn doc(fields: Vec<(&str, Value)>) -> Document {
    fields.into_iter().map(|(k, v)| (k.to_string(), v)).collect()
}

fn text(s: &str) -> Value {
    Value::Text(s.to_string())
}

#[test]
fn extracts_headline_numbers() {
    let raw = doc(vec![
        ("ns", text("app.users")),
        ("count", Value::Int64(1200)),
        ("size", Value::Int64(480000)),
        ("avgObjSize", Value::Int32(400)),
        ("storageSize", Value::Int64(512000)),
        ("nindexes", Value::Int32(2)),
        ("totalIndexSize", Value::Int64(81920)),
        ("capped", Value::Bool(false)),
    ]);
    let s = extract_stats(&raw);
    assert_eq!(s.ns.as_deref(), Some("app.users"));
    assert_eq!(s.count, Some(1200));
    assert_eq!(s.size, Some(480000));
    assert_eq!(s.avg_obj_size, Some(400));
    assert_eq!(s.storage_size, Some(512000));
    assert_eq!(s.nindexes, Some(2));
    assert_eq!(s.total_index_size, Some(81920));
    assert!(!s.capped);
}

#[test]
fn reads_numbers_regardless_of_bson_number_type() {
    // collStats may return Double for large values; still read as i64.
    let five = 5.0_f64;
    let raw = doc(vec![
        (
            "count",
            Value::Double(DoubleText { display: five.to_string(), json: "5.0".to_string(), finite: true, truncated: five as i64 }),
        ),
        ("size", Value::Int32(100)),
        ("storageSize", Value::Int64(2048)),
    ]);
    let s = extract_stats(&raw);
    assert_eq!(s.count, Some(5));
    assert_eq!(s.size, Some(100));
    assert_eq!(s.storage_size, Some(2048));
}

#[test]
fn index_sizes_sorted_largest_first() {
    let raw = doc(vec![(
        "indexSizes",
        Value::Document(doc(vec![
            ("_id_", Value::Int32(4096)),
            ("email_1", Value::Int32(20480)),
            ("name_1", Value::Int32(8192)),
        ])),
    )]);
    let s = extract_stats(&raw);
    let names: Vec<&str> = s.indexes.iter().map(|i| i.name.as_str()).collect();
    assert_eq!(names, vec!["email_1", "name_1", "_id_"]);
    assert_eq!(s.indexes[0].size, 20480);
}

#[test]
fn missing_fields_are_none_not_zero() {
    let raw = doc(vec![("ns", text("app.empty"))]);
    let s = extract_stats(&raw);
    assert_eq!(s.count, None);
    assert_eq!(s.size, None);
    assert_eq!(s.avg_obj_size, None);
    assert!(s.indexes.is_empty());
    assert!(!s.capped);
}

#[test]
fn capped_flag_is_read() {
    let raw = doc(vec![("ns", text("app.logs")), ("capped", Value::Bool(true))]);
    let s = extract_stats(&raw);
    assert!(s.capped);
}

#[test]
fn raw_document_is_preserved() {
    let raw = doc(vec![("ns", text("app.users")), ("count", Value::Int32(3))]);
    let s = extract_stats(&raw);
    let json: serde_json::Value = serde_json::from_str(&s.raw).unwrap();
    assert_eq!(json["ns"], serde_json::Value::from("app.users"));
    assert_eq!(json["count"], serde_json::Value::from(3));
}

#[test]
fn equal_index_sizes_order_by_name_and_non_numbers_are_skipped() {
    let raw = doc(vec![(
        "indexSizes",
        Value::Document(doc(vec![
            ("b_1", Value::Int64(10)),
            ("a_1", Value::Int64(10)),
            ("odd", text("n/a")),
        ])),
    )]);
    let s = extract_stats(&raw);
    let names: Vec<&str> = s.indexes.iter().map(|i| i.name.as_str()).collect();
    assert_eq!(names, vec!["a_1", "b_1"]);
}
