use mongodb::bson;
use ozendb::commands::import::{invalid_json, JsonImport, JsonItem, JsonTop, IMPORT_BATCH_SIZE};
use ozendb::error::AppError;
use struson::reader::{JsonReader, JsonStreamReader, ValueType};

// Decode one already-read JSON value as an import element.
fn to_item(value: serde_json::Value) -> JsonItem<bson::Document> {
    match serde_json::from_value::<bson::Bson>(value) {
        Ok(bson::Bson::Document(doc)) => JsonItem::Document(doc),
        Ok(_) => JsonItem::NotDocument,
        Err(e) => JsonItem::Invalid(e.to_string()),
    }
}

// Run the streaming JSON importer over `input`, returning the total and the batches.
fn collect_import(input: &[u8], batch_size: usize) -> Result<(usize, Vec<Vec<bson::Document>>), AppError> {
    let mut reader = JsonStreamReader::new(input);
    let mut import: JsonImport<bson::Document> = JsonImport::new(batch_size);
    let mut batches: Vec<Vec<bson::Document>> = Vec::new();
    let peeked = match reader.peek() {
        Ok(ValueType::Array) => Ok(JsonTop::Array),
        Ok(ValueType::Object) => Ok(JsonTop::Object),
        Ok(_) => Ok(JsonTop::Other),
        Err(e) => Err(e.to_string()),
    };
    if JsonImport::<bson::Document>::top_level(peeked)? {
        reader.begin_array().map_err(|e| invalid_json(&e.to_string()))?;
        while reader.has_next().map_err(|e| invalid_json(&e.to_string()))? {
            let item = reader.deserialize_next::<serde_json::Value>().map(to_item).map_err(|e| e.to_string());
            if let Some(batch) = import.accept(item)? {
                batches.push(batch);
            }
        }
        reader.end_array().map_err(|e| invalid_json(&e.to_string()))?;
    } else {
        let item = reader.deserialize_next::<serde_json::Value>().map(to_item).map_err(|e| e.to_string());
        if let Some(batch) = import.accept(item)? {
            batches.push(batch);
        }
    }
    if let Some(batch) = import.finish() {
        batches.push(batch);
    }
    Ok((import.total(), batches))
}

#[test]
fn import_json_array_yields_each_document() {
    let (total, batches) = collect_import(br#"[{"a":1},{"a":2},{"a":3}]"#, IMPORT_BATCH_SIZE).unwrap();
    assert_eq!(total, 3);
    // One partial batch of 3.
    assert_eq!(batches.len(), 1);
    assert_eq!(batches[0].len(), 3);
}

#[test]
fn import_json_single_object_yields_one_document() {
    let (total, batches) = collect_import(br#"{"a":1}"#, IMPORT_BATCH_SIZE).unwrap();
    assert_eq!(total, 1);
    assert_eq!(batches[0].len(), 1);
}

#[test]
fn import_json_preserves_ejson_types() {
    let (_total, batches) =
        collect_import(br#"[{"_id":{"$oid":"507f1f77bcf86cd799439011"}}]"#, IMPORT_BATCH_SIZE).unwrap();
    assert!(matches!(batches[0][0].get("_id"), Some(bson::Bson::ObjectId(_))));
}

#[test]
fn import_empty_json_array_yields_no_documents() {
    let (total, batches) = collect_import(b"[]", IMPORT_BATCH_SIZE).unwrap();
    assert_eq!(total, 0);
    assert!(batches.is_empty());
}

#[test]
fn import_malformed_json_is_an_error() {
    assert!(collect_import(b"{not valid", IMPORT_BATCH_SIZE).is_err());
    // A bare scalar is not a document.
    assert!(collect_import(b"42", IMPORT_BATCH_SIZE).is_err());
    // An array element that isn't an object is rejected.
    assert!(collect_import(br#"[{"a":1}, 5]"#, IMPORT_BATCH_SIZE).is_err());
}

#[test]
fn import_json_flushes_multiple_batches_across_the_boundary() {
    // 1001 documents at the real batch size must flush as [1000, 1].
    let mut json = String::from("[");
    for i in 0..1001 {
        if i > 0 {
            json.push(',');
        }
        json.push_str(&format!(r#"{{"n":{i}}}"#));
    }
    json.push(']');
    let (total, batches) = collect_import(json.as_bytes(), IMPORT_BATCH_SIZE).unwrap();
    assert_eq!(total, 1001);
    assert_eq!(batches.len(), 2);
    assert_eq!(batches[0].len(), IMPORT_BATCH_SIZE);
    assert_eq!(batches[1].len(), 1);
}

#[test]
fn json_import_messages_name_the_problem() {
    match collect_import(b"42", IMPORT_BATCH_SIZE) {
        Err(AppError::Bson(m)) => assert_eq!(m, "Import file must be a JSON array of documents"),
        _ => panic!("expected a refusal"),
    }
    match collect_import(br#"[{"a":1}, 5]"#, IMPORT_BATCH_SIZE) {
        Err(AppError::Bson(m)) => assert_eq!(m, "Each item must be a JSON object"),
        _ => panic!("expected a refusal"),
    }
    match JsonImport::<u8>::top_level(Err("oops".to_string())) {
        Err(AppError::Bson(m)) => assert_eq!(m, "Invalid JSON (oops). Expected an array of documents."),
        _ => panic!("expected a refusal"),
    }
}

#[test]
fn json_batches_of_two_hand_out_full_batches_first() {
    let mut import: JsonImport<u8> = JsonImport::new(2);
    assert!(matches!(import.accept(Ok(JsonItem::Document(1))), Ok(None)));
    assert_eq!(import.accept(Ok(JsonItem::Document(2))).ok().flatten(), Some(vec![1, 2]));
    assert!(matches!(import.accept(Ok(JsonItem::Document(3))), Ok(None)));
    assert_eq!(import.finish(), Some(vec![3]));
    assert_eq!(import.finish(), None);
    assert_eq!(import.total(), 3);
}
