use ozendb::commands::gridfs::extract_buckets;

fn v(items: &[&str]) -> Vec<String> {
    items.iter().map(|s| s.to_string()).collect()
}

#[test]
fn extracts_default_fs_bucket() {
    let names = v(&["fs.files", "fs.chunks", "users"]);
    assert_eq!(extract_buckets(&names), vec!["fs".to_string()]);
}

#[test]
fn extracts_multiple_named_buckets_sorted() {
    let names = v(&["images.files", "images.chunks", "docs.files", "docs.chunks"]);
    assert_eq!(extract_buckets(&names), vec!["docs".to_string(), "images".to_string()]);
}

#[test]
fn ignores_chunks_and_plain_collections() {
    let names = v(&["fs.chunks", "orders", "products"]);
    assert!(extract_buckets(&names).is_empty());
}

#[test]
fn handles_bucket_names_with_dots() {
    let names = v(&["my.bucket.files", "my.bucket.chunks"]);
    assert_eq!(extract_buckets(&names), vec!["my.bucket".to_string()]);
}

#[test]
fn no_files_collection_means_no_buckets() {
    assert!(extract_buckets(&v(&[])).is_empty());
    assert!(extract_buckets(&v(&["a", "b.chunks"])).is_empty());
}

#[test]
fn deduplicates() {
    // Defensive: a name list shouldn't contain duplicates, but if it does the
    // bucket appears once.
    let names = v(&["fs.files", "fs.files"]);
    assert_eq!(extract_buckets(&names), vec!["fs".to_string()]);
}

#[test]
fn a_bare_files_suffix_is_not_a_bucket() {
    assert!(extract_buckets(&v(&[".files", "files"])).is_empty());
}

#[test]
fn order_is_by_code_point_like_string_sort() {
    let names = v(&["b.files", "B.files", "a.files", "é.files", "ab.files"]);
    let mut expected = vec!["b".to_string(), "B".to_string(), "a".to_string(), "é".to_string(), "ab".to_string()];
    expected.sort();
    assert_eq!(extract_buckets(&names), expected);
}

use ozendb::commands::gridfs::extract_file;
use ozendb::value::{Document as GridDocument, DoubleText, Value};

fn file_doc(fields: Vec<(&str, Value)>) -> GridDocument {
    fields.into_iter().map(|(k, v)| (k.to_string(), v)).collect()
}

#[test]
fn extract_file_reads_core_fields() {
    let oid = mongodb::bson::oid::ObjectId::new();
    let d = file_doc(vec![
        ("_id", Value::ObjectId(oid.to_hex())),
        ("filename", Value::Text("photo.png".to_string())),
        ("length", Value::Int64(20480)),
        ("contentType", Value::Text("image/png".to_string())),
    ]);
    let f = extract_file(&d);
    assert_eq!(f.id, oid.to_hex());
    assert_eq!(f.filename, "photo.png");
    assert_eq!(f.length, 20480);
    assert_eq!(f.content_type.as_deref(), Some("image/png"));
}

#[test]
fn extract_file_handles_missing_optional_fields() {
    let d = file_doc(vec![("_id", Value::ObjectId(mongodb::bson::oid::ObjectId::new().to_hex())), ("length", Value::Int32(5))]);
    let f = extract_file(&d);
    assert_eq!(f.filename, "(unnamed)");
    assert_eq!(f.length, 5);
    assert!(f.upload_date.is_none());
    assert!(f.content_type.is_none());
}

#[test]
fn extract_file_reads_length_from_double() {
    let len = 1024.0_f64;
    let d = file_doc(vec![
        ("_id", Value::ObjectId(mongodb::bson::oid::ObjectId::new().to_hex())),
        ("length", Value::Double(DoubleText { display: len.to_string(), json: "1024.0".to_string(), finite: true, truncated: len as i64 })),
    ]);
    assert_eq!(extract_file(&d).length, 1024);
}

#[test]
fn extract_file_shows_other_ids_as_bson_does() {
    let d = file_doc(vec![("_id", Value::Text("a".to_string())), ("length", Value::Text("x".to_string()))]);
    let f = extract_file(&d);
    assert_eq!(f.id, "\"a\"");
    assert_eq!(f.length, 0);
}

use ozendb::commands::gridfs::{bucket_collection, parse_file_id, set_file_field};
use ozendb::error::AppError;

#[test]
fn file_ids_are_24_hex_digits_read_in_lower_case() {
    assert_eq!(parse_file_id("507f1f77bcf86cd799439011").unwrap(), Value::ObjectId("507f1f77bcf86cd799439011".to_string()));
    assert_eq!(parse_file_id("507F1F77BCF86CD799439011").unwrap(), Value::ObjectId("507f1f77bcf86cd799439011".to_string()));
    for bad in ["", "507f1f77bcf86cd79943901", "507f1f77bcf86cd79943901g", "507f1f77bcf86cd7994390111"] {
        match parse_file_id(bad) {
            Err(AppError::Bson(m)) => assert_eq!(m, format!("Invalid file id: {bad}")),
            _ => panic!("expected {bad:?} to be refused"),
        }
    }
}

#[test]
fn bucket_collections_and_file_updates() {
    assert_eq!(bucket_collection("photos", "files"), "photos.files");
    assert_eq!(bucket_collection("photos", "chunks"), "photos.chunks");
    assert_eq!(
        set_file_field("filename", Value::Text("b.png".to_string())),
        vec![("$set".to_string(), Value::Document(vec![("filename".to_string(), Value::Text("b.png".to_string()))]))]
    );
}
