use ozendb::commands::schema::{bson_kind, infer_schema, sample_size, FieldSchema, SchemaReport};
use ozendb::value::{Document, OtherText, Value};

fn text(s: &str) -> Value {
    Value::Text(s.to_string())
}

fn doc(fields: Vec<(&str, Value)>) -> Document {
    fields.into_iter().map(|(k, v)| (k.to_string(), v)).collect()
}

fn sub(fields: Vec<(&str, Value)>) -> Value {
    Value::Document(doc(fields))
}

// Fetch a field by path from a report, panicking with a helpful message if it is
// absent, so assertions read clearly.
fn field<'a>(report: &'a SchemaReport, path: &str) -> &'a FieldSchema {
    match report.fields.iter().find(|f| f.path == path) {
        Some(val) => val,
        None => panic!(
            "expected field {path:?} in schema, got {:?}",
            report.fields.iter().map(|f| f.path.clone()).collect::<Vec<_>>()
        ),
    }
}

#[test]
fn empty_sample_yields_no_fields() {
    let report = infer_schema(&vec![]);
    assert_eq!(report.sampled, 0);
    assert!(report.fields.is_empty());
}

#[test]
fn counts_presence_across_documents() {
    let docs = vec![
        doc(vec![("_id", Value::Int32(1)), ("name", text("a"))]),
        doc(vec![("_id", Value::Int32(2)), ("name", text("b"))]),
        doc(vec![("_id", Value::Int32(3))]),
    ];
    let report = infer_schema(&docs);
    assert_eq!(report.sampled, 3);
    // _id is in all three, name in two.
    assert_eq!(field(&report, "_id").present, 3);
    assert_eq!(field(&report, "name").present, 2);
}

#[test]
fn tracks_mixed_types_for_one_path() {
    let docs = vec![
        doc(vec![("value", Value::Int32(1))]),
        doc(vec![("value", Value::Int32(2))]),
        doc(vec![("value", text("three"))]),
    ];
    let report = infer_schema(&docs);
    let value = field(&report, "value");
    assert_eq!(value.present, 3);
    // int appears twice, string once, and int (higher count) sorts first.
    assert_eq!(value.types.len(), 2);
    assert_eq!(value.types[0].bson_type, "int");
    assert_eq!(value.types[0].count, 2);
    assert_eq!(value.types[1].bson_type, "string");
    assert_eq!(value.types[1].count, 1);
}

#[test]
fn flattens_nested_documents_with_dot_paths() {
    let docs = vec![
        doc(vec![("address", sub(vec![("city", text("NYC")), ("zip", text("10001"))]))]),
        doc(vec![("address", sub(vec![("city", text("LA"))]))]),
    ];
    let report = infer_schema(&docs);
    assert_eq!(field(&report, "address").present, 2);
    assert_eq!(field(&report, "address").types[0].bson_type, "object");
    assert_eq!(field(&report, "address.city").present, 2);
    assert_eq!(field(&report, "address.zip").present, 1);
}

#[test]
fn recurses_into_arrays_of_subdocuments() {
    let docs = vec![
        doc(vec![("items", Value::Array(vec![sub(vec![("sku", text("a"))]), sub(vec![("sku", text("b"))])]))]),
        doc(vec![("items", Value::Array(vec![sub(vec![("sku", text("c")), ("qty", Value::Int32(2))])]))]),
    ];
    let report = infer_schema(&docs);
    // The array field itself is present in both docs, typed as array.
    assert_eq!(field(&report, "items").present, 2);
    assert_eq!(field(&report, "items").types[0].bson_type, "array");
    // Element sub-fields flatten under the array path; sku in both docs, qty in one.
    assert_eq!(field(&report, "items.sku").present, 2);
    assert_eq!(field(&report, "items.qty").present, 1);
}

#[test]
fn array_of_subdocs_counts_field_once_per_document() {
    // Two sub-documents in a single document must not double-count coverage.
    let docs = vec![doc(vec![("items", Value::Array(vec![sub(vec![("sku", text("a"))]), sub(vec![("sku", text("b"))])]))])];
    let report = infer_schema(&docs);
    assert_eq!(field(&report, "items.sku").present, 1);
    assert_eq!(field(&report, "items.sku").types[0].count, 1);
}

#[test]
fn fields_are_sorted_by_path() {
    let docs = vec![doc(vec![("b", Value::Int32(1)), ("a", Value::Int32(1)), ("c", Value::Int32(1))])];
    let report = infer_schema(&docs);
    let paths: Vec<&str> = report.fields.iter().map(|f| f.path.as_str()).collect();
    assert_eq!(paths, vec!["a", "b", "c"]);
}

#[test]
fn equal_counts_order_types_by_name() {
    let docs = vec![
        doc(vec![("v", text("x"))]),
        doc(vec![("v", Value::Bool(true))]),
        doc(vec![("v", Value::Int64(5))]),
    ];
    let report = infer_schema(&docs);
    let names: Vec<&str> = field(&report, "v").types.iter().map(|t| t.bson_type.as_str()).collect();
    assert_eq!(names, vec!["bool", "long", "string"]);
}

#[test]
fn type_names_follow_the_shell() {
    assert_eq!(bson_kind(&Value::Null), "null");
    assert_eq!(bson_kind(&Value::Int64(1)), "long");
    assert_eq!(bson_kind(&Value::ObjectId("00".to_string())), "objectId");
    let other = Value::Other(OtherText { kind: "timestamp".to_string(), display: String::new(), json: String::new() });
    assert_eq!(bson_kind(&other), "timestamp");
}

#[test]
fn sample_size_is_clamped() {
    assert_eq!(sample_size(None), 1000);
    assert_eq!(sample_size(Some(0)), 1);
    assert_eq!(sample_size(Some(50)), 50);
    assert_eq!(sample_size(Some(1_000_000)), 10000);
}
