use ozendb::commands::ejson::{decoded_documents, decoded_document, decoded_pipeline, documents_input, ejson_input, pipeline_input};
use ozendb::commands::query::{check_update, find_limit, is_operator_update, run_comment, AggregateResult};
use ozendb::error::AppError;
use ozendb::value::{Document, Value};

fn doc(fields: Vec<(&str, Value)>) -> Document {
    fields.into_iter().map(|(k, v)| (k.to_string(), v)).collect()
}

fn set(field: &str) -> Value {
    Value::Document(doc(vec![(field, Value::Int32(1))]))
}

#[test]
fn operator_form_updates_are_accepted() {
    assert!(is_operator_update(&doc(vec![("$set", set("a"))])));
    assert!(is_operator_update(&doc(vec![("$set", set("a")), ("$unset", Value::Document(doc(vec![("b", Value::Text(String::new()))])))])));
}

#[test]
fn replacement_and_empty_updates_are_rejected() {
    // A plain field is replacement-style, which update_many must not accept.
    assert!(!is_operator_update(&doc(vec![("a", Value::Int32(1))])));
    // Mixed operator + field is also invalid.
    assert!(!is_operator_update(&doc(vec![("$set", set("a")), ("b", Value::Int32(2))])));
    // An empty update changes nothing and is not valid operator form.
    assert!(!is_operator_update(&doc(vec![])));
}

#[test]
fn update_check_message() {
    assert!(check_update(&doc(vec![("$inc", set("n"))])).is_ok());
    match check_update(&doc(vec![("n", Value::Int32(1))])) {
        Err(AppError::Bson(m)) => assert_eq!(m, "Update must use operators, e.g. { \"$set\": { \"field\": value } }"),
        _ => panic!("expected a bson error"),
    }
}

#[test]
fn find_limit_and_run_tag() {
    assert_eq!(find_limit(0), 1000);
    assert_eq!(find_limit(-5), 1000);
    assert_eq!(find_limit(25), 25);
    assert_eq!(run_comment(Some(String::new())), None);
    assert_eq!(run_comment(Some("run-1".to_string())), Some("run-1".to_string()));
    assert_eq!(run_comment(None), None);
}

#[test]
fn aggregate_results_are_capped() {
    let mut agg = AggregateResult::new();
    let one = doc(vec![("x", Value::Int32(1))]);
    for _ in 0..10_000 {
        assert!(agg.take(&one));
    }
    assert!(!agg.take(&one));
    assert!(agg.truncated);
    assert_eq!(agg.documents.len(), 10_000);
    assert_eq!(agg.documents[0], "{\"x\":1}");
}

#[test]
fn blank_and_empty_inputs_need_no_decoding() {
    assert_eq!(ejson_input("  {} "), None);
    assert_eq!(ejson_input("   "), None);
    assert_eq!(ejson_input(" {\"a\":1} "), Some("{\"a\":1}".to_string()));
    assert_eq!(pipeline_input(" [] "), None);
    assert_eq!(pipeline_input("[{}]"), Some("[{}]".to_string()));
    assert_eq!(documents_input("\n"), None);
}

#[test]
fn decoded_values_are_accepted_or_refused() {
    assert!(matches!(decoded_document(Ok(Value::Document(vec![]))), Ok(d) if d.is_empty()));
    assert!(matches!(decoded_document(Ok(Value::Int32(1))), Err(AppError::Bson(m)) if m == "Expected a JSON object"));
    assert!(matches!(decoded_document(Err("eof".to_string())), Err(AppError::Bson(m)) if m == "Invalid Extended JSON (eof)"));
    let stages = decoded_pipeline(Ok(Value::Array(vec![Value::Document(doc(vec![("$match", set("a"))])), Value::Document(vec![])])));
    assert_eq!(stages.unwrap().len(), 2);
    assert!(matches!(decoded_pipeline(Ok(Value::Array(vec![Value::Int32(1)]))), Err(AppError::Bson(m)) if m == "Each pipeline stage must be a JSON object"));
    assert!(matches!(decoded_pipeline(Ok(Value::Document(vec![]))), Err(AppError::Bson(m)) if m == "Pipeline must be a JSON array of stages"));
    assert!(matches!(decoded_pipeline(Err("bad".to_string())), Err(AppError::Bson(m)) if m.starts_with("Invalid pipeline JSON (bad). Keys must be quoted")));
    assert_eq!(decoded_documents(Ok(Value::Document(doc(vec![("a", Value::Int32(1))])))).unwrap().len(), 1);
    assert!(matches!(decoded_documents(Ok(Value::Text("x".to_string()))), Err(AppError::Bson(m)) if m == "Import file must be a JSON array of documents"));
    assert!(matches!(decoded_documents(Ok(Value::Array(vec![Value::Null]))), Err(AppError::Bson(m)) if m == "Each item must be a JSON object"));
}

use ozendb::commands::query::{current_op_pipeline, explain_command, kill_command_for, pasted_documents};

fn one(key: &str, value: Value) -> Vec<(String, Value)> {
    vec![(key.to_string(), value)]
}

#[test]
fn explain_wraps_the_find_with_only_the_fields_in_use() {
    let command = explain_command("people", one("a", Value::Int32(1)), vec![], one("b", Value::Int32(-1)), 0, 50);
    let find = Value::Document(vec![
        ("find".to_string(), Value::Text("people".to_string())),
        ("filter".to_string(), Value::Document(one("a", Value::Int32(1)))),
        ("sort".to_string(), Value::Document(one("b", Value::Int32(-1)))),
        ("limit".to_string(), Value::Int64(50)),
    ]);
    assert_eq!(
        command,
        vec![("explain".to_string(), find), ("verbosity".to_string(), Value::Text("executionStats".to_string()))]
    );
    let full = explain_command("c", vec![], one("p", Value::Int32(1)), vec![], 5, 0);
    match &full[0].1 {
        Value::Document(f) => {
            assert_eq!(f.len(), 4);
            assert_eq!(f[2].0, "projection");
            assert_eq!(f[3], ("skip".to_string(), Value::Int64(5)));
        }
        _ => panic!("expected the find command"),
    }
}

#[test]
fn cancelling_finds_the_tagged_operations_and_kills_each_by_opid() {
    let pipeline = current_op_pipeline("run-7");
    assert_eq!(pipeline[0], one("$currentOp", Value::Document(vec![])));
    assert_eq!(pipeline[1], one("$match", Value::Document(one("command.comment", Value::Text("run-7".to_string())))));
    let op = vec![("active".to_string(), Value::Bool(true)), ("opid".to_string(), Value::Text("shard1:42".to_string()))];
    assert_eq!(
        kill_command_for(op),
        Some(vec![("killOp".to_string(), Value::Int32(1)), ("op".to_string(), Value::Text("shard1:42".to_string()))])
    );
    assert_eq!(kill_command_for(one("active", Value::Bool(true))), None);
}

#[test]
fn an_empty_paste_is_refused() {
    match pasted_documents(vec![]) {
        Err(AppError::Bson(m)) => assert_eq!(m, "Clipboard has no document(s) to paste"),
        _ => panic!("expected a refusal"),
    }
    assert_eq!(pasted_documents(vec![one("a", Value::Int32(1))]).unwrap().len(), 1);
}
