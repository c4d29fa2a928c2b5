use ozendb::collection_history::HistoryEntry;
use ozendb::commands::restore::{decoded_history_value, id_filter, replacement_of, restore_entry, undoes_insert};
use ozendb::error::AppError;
use ozendb::value::Value;

fn entry(op: &str, before: Option<&str>) -> HistoryEntry {
    HistoryEntry {
        id: "h1".to_string(),
        conn_id: "c".to_string(),
        database: "db".to_string(),
        collection: "coll".to_string(),
        op: op.to_string(),
        at: 1,
        doc_id: "1".to_string(),
        before: before.map(|b| b.to_string()),
    }
}

#[test]
fn missing_entries_and_unreadable_texts_are_errors() {
    assert!(matches!(restore_entry(None), Err(AppError::Validation(m)) if m == "That history entry no longer exists."));
    assert!(restore_entry(Some(entry("insert", None))).is_ok());
    assert!(matches!(decoded_history_value(Err("eof".to_string())), Err(AppError::Bson(m)) if m == "Unreadable history entry: eof"));
}

#[test]
fn inserts_are_undone_by_deleting() {
    assert!(undoes_insert(&entry("insert", None)));
    assert!(!undoes_insert(&entry("update", Some("{}"))));
    let f = id_filter(Value::Int32(7));
    assert_eq!(f.len(), 1);
    assert_eq!(f[0].0, "_id");
}

#[test]
fn pre_images_are_put_back_without_their_id() {
    let before = Value::Document(vec![
        ("_id".to_string(), Value::Int32(7)),
        ("a".to_string(), Value::Int32(1)),
        ("b".to_string(), Value::Text("x".to_string())),
    ]);
    let doc = replacement_of(Some(Ok(before))).unwrap();
    let keys: Vec<&str> = doc.iter().map(|(k, _)| k.as_str()).collect();
    assert_eq!(keys, vec!["a", "b"]);
    assert!(matches!(replacement_of(None), Err(AppError::Validation(m)) if m == "This change has no saved pre-image to restore."));
    assert!(matches!(replacement_of(Some(Ok(Value::Int32(1)))), Err(AppError::Bson(m)) if m == "History pre-image is not a document."));
    assert!(matches!(replacement_of(Some(Err("bad".to_string()))), Err(AppError::Bson(m)) if m == "Unreadable history entry: bad"));
}

use ozendb::commands::restore::strip_id;

#[test]
fn replacements_lose_their_id() {
    let doc = vec![
        ("a".to_string(), Value::Int32(1)),
        ("_id".to_string(), Value::Int32(7)),
        ("b".to_string(), Value::Bool(false)),
    ];
    assert_eq!(strip_id(doc), vec![("a".to_string(), Value::Int32(1)), ("b".to_string(), Value::Bool(false))]);
    assert!(strip_id(vec![("_id".to_string(), Value::Null)]).is_empty());
}
