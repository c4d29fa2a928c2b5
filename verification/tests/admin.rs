use ozendb::commands::admin::is_protected_index;

#[test]
fn only_the_id_index_is_protected() {
    // The `_id_` index can never be dropped or hidden; every other name is fair game,
    // including near-misses that merely contain `_id`.
    assert!(is_protected_index("_id_"));
    assert!(!is_protected_index("email_1"));
    assert!(!is_protected_index("_id_2"));
    assert!(!is_protected_index("user_id_1"));
    assert!(!is_protected_index(""));
}

use ozendb::commands::admin::{build_create_command, NewCollectionOptions};
use ozendb::value::{Document, Value};

fn get<'a>(d: &'a Document, key: &str) -> Option<&'a Value> {
    d.iter().find(|(k, _)| k == key).map(|(_, v)| v)
}

fn get_str<'a>(d: &'a Document, key: &str) -> &'a str {
    match get(d, key) {
        Some(Value::Text(s)) => s.as_str(),
        _ => panic!("expected a string under {key}"),
    }
}

fn get_i64(d: &Document, key: &str) -> i64 {
    match get(d, key) {
        Some(Value::Int64(n)) => *n,
        _ => panic!("expected a long under {key}"),
    }
}

fn get_document<'a>(d: &'a Document, key: &str) -> &'a Document {
    match get(d, key) {
        Some(Value::Document(sub)) => sub,
        _ => panic!("expected a document under {key}"),
    }
}

fn contains_key(d: &Document, key: &str) -> bool {
    get(d, key).is_some()
}

#[test]
fn plain_collection_has_only_create() {
    let command = build_create_command("events", None).unwrap();
    assert_eq!(get_str(&command, "create"), "events");
    assert_eq!(command.len(), 1);
}

#[test]
fn capped_requires_a_size() {
    let options = NewCollectionOptions {
        capped: true,
        size: None,
        max: None,
        time_field: None,
        meta_field: None,
        granularity: None,
        expire_after_seconds: None,
    };
    assert!(build_create_command("logs", Some(options)).is_err());
}

#[test]
fn capped_maps_size_and_max() {
    let options = NewCollectionOptions {
        capped: true,
        size: Some(1048576),
        max: Some(1000),
        time_field: None,
        meta_field: None,
        granularity: None,
        expire_after_seconds: None,
    };
    let command = build_create_command("logs", Some(options)).unwrap();
    assert_eq!(get(&command, "capped"), Some(&Value::Bool(true)));
    assert_eq!(get_i64(&command, "size"), 1048576);
    assert_eq!(get_i64(&command, "max"), 1000);
}

#[test]
fn nonpositive_max_is_dropped() {
    let options = NewCollectionOptions {
        capped: true,
        size: Some(4096),
        max: Some(0),
        time_field: None,
        meta_field: None,
        granularity: None,
        expire_after_seconds: None,
    };
    let command = build_create_command("logs", Some(options)).unwrap();
    assert!(!contains_key(&command, "max"));
}

#[test]
fn time_series_maps_nested_fields() {
    let options = NewCollectionOptions {
        capped: false,
        size: None,
        max: None,
        time_field: Some("ts".to_string()),
        meta_field: Some("sensor".to_string()),
        granularity: Some("minutes".to_string()),
        expire_after_seconds: Some(86400),
    };
    let command = build_create_command("readings", Some(options)).unwrap();
    let timeseries = get_document(&command, "timeseries");
    assert_eq!(get_str(timeseries, "timeField"), "ts");
    assert_eq!(get_str(timeseries, "metaField"), "sensor");
    assert_eq!(get_str(timeseries, "granularity"), "minutes");
    assert_eq!(get_i64(&command, "expireAfterSeconds"), 86400);
}

#[test]
fn blank_time_field_is_rejected() {
    let options = NewCollectionOptions {
        capped: false,
        size: None,
        max: None,
        time_field: Some("   ".to_string()),
        meta_field: None,
        granularity: None,
        expire_after_seconds: None,
    };
    assert!(build_create_command("readings", Some(options)).is_err());
}

#[test]
fn empty_optional_time_series_fields_are_omitted() {
    let options = NewCollectionOptions {
        capped: false,
        size: None,
        max: None,
        time_field: Some("ts".to_string()),
        meta_field: Some("".to_string()),
        granularity: Some("".to_string()),
        expire_after_seconds: None,
    };
    let command = build_create_command("readings", Some(options)).unwrap();
    let timeseries = get_document(&command, "timeseries");
    assert!(!contains_key(timeseries, "metaField"));
    assert!(!contains_key(timeseries, "granularity"));
    assert!(!contains_key(&command, "expireAfterSeconds"));
}

#[test]
fn capped_with_a_nonpositive_size_is_refused_with_a_message() {
    let options = NewCollectionOptions {
        capped: true,
        size: Some(0),
        max: None,
        time_field: None,
        meta_field: None,
        granularity: None,
        expire_after_seconds: None,
    };
    match build_create_command("logs", Some(options)) {
        Err(ozendb::error::AppError::Validation(m)) => {
            assert_eq!(m, "A capped collection needs a size greater than zero")
        }
        _ => panic!("expected a refusal"),
    }
}

use ozendb::commands::admin::validator_info;

fn listing(options: Value) -> Document {
    let entry = Value::Document(vec![
        ("name".to_string(), Value::Text("people".to_string())),
        ("options".to_string(), options),
    ]);
    let cursor = Value::Document(vec![
        ("id".to_string(), Value::Int64(0)),
        ("firstBatch".to_string(), Value::Array(vec![entry])),
    ]);
    vec![("cursor".to_string(), cursor), ("ok".to_string(), Value::Int32(1))]
}

#[test]
fn validator_rules_are_read_from_the_first_listed_collection() {
    let rule = Value::Document(vec![("age".to_string(), Value::Document(vec![("$gte".to_string(), Value::Int32(0))]))]);
    let options = Value::Document(vec![
        ("validator".to_string(), rule),
        ("validationLevel".to_string(), Value::Text("moderate".to_string())),
        ("validationAction".to_string(), Value::Text("warn".to_string())),
    ]);
    let info = validator_info(&listing(options));
    assert_eq!(info.validator.as_deref(), Some("{\n  \"age\": {\n    \"$gte\": 0\n  }\n}"));
    assert_eq!(info.validation_level.as_deref(), Some("moderate"));
    assert_eq!(info.validation_action.as_deref(), Some("warn"));
}

#[test]
fn missing_or_empty_validators_read_as_nothing() {
    let empty_rule = Value::Document(vec![
        ("validator".to_string(), Value::Document(vec![])),
        ("validationLevel".to_string(), Value::Int32(3)),
    ]);
    let info = validator_info(&listing(empty_rule));
    assert!(info.validator.is_none());
    assert!(info.validation_level.is_none());
    assert!(info.validation_action.is_none());

    let info = validator_info(&vec![("ok".to_string(), Value::Int32(1))]);
    assert!(info.validator.is_none() && info.validation_level.is_none() && info.validation_action.is_none());

    let no_batch = vec![("cursor".to_string(), Value::Document(vec![("firstBatch".to_string(), Value::Array(vec![]))]))];
    assert!(validator_info(&no_batch).validator.is_none());
}

use ozendb::commands::admin::{
    check_index_droppable, check_index_hideable, database_info, hide_index_command, index_name,
    set_validator_command, view_command,
};
use ozendb::error::AppError;
use ozendb::commands::ejson::is_empty_document_text;

#[test]
fn databases_whose_collections_cannot_be_listed_are_inaccessible() {
    let open = database_info("shop".to_string(), Some(vec!["orders".to_string(), "people".to_string()]));
    assert_eq!(open.name, "shop");
    assert_eq!(open.collections, vec!["orders".to_string(), "people".to_string()]);
    assert!(open.accessible);
    let closed = database_info("admin".to_string(), None);
    assert!(closed.collections.is_empty());
    assert!(!closed.accessible);
}

#[test]
fn the_id_index_can_be_neither_dropped_nor_hidden() {
    assert!(check_index_droppable("email_1").is_ok());
    assert!(check_index_hideable("email_1").is_ok());
    match check_index_droppable("_id_") {
        Err(AppError::Validation(m)) => assert_eq!(m, "The \"_id_\" index cannot be dropped."),
        _ => panic!("expected a refusal"),
    }
    match check_index_hideable("_id_") {
        Err(AppError::Validation(m)) => assert_eq!(m, "The \"_id_\" index cannot be hidden."),
        _ => panic!("expected a refusal"),
    }
}

#[test]
fn index_commands_carry_their_settings() {
    let command = hide_index_command("people", "email_1", true);
    assert_eq!(
        command,
        vec![
            ("collMod".to_string(), Value::Text("people".to_string())),
            (
                "index".to_string(),
                Value::Document(vec![
                    ("name".to_string(), Value::Text("email_1".to_string())),
                    ("hidden".to_string(), Value::Bool(true)),
                ])
            ),
        ]
    );
    assert_eq!(index_name("  ".to_string()), None);
    assert_eq!(index_name(" by_email ".to_string()), Some(" by_email ".to_string()));
}

#[test]
fn views_are_created_over_their_pipeline() {
    let stage = || vec![("$match".to_string(), Value::Document(vec![("active".to_string(), Value::Bool(true))]))];
    let command = view_command("active_people", "people", vec![stage()]);
    assert_eq!(command.len(), 3);
    assert_eq!(command[0], ("create".to_string(), Value::Text("active_people".to_string())));
    assert_eq!(command[1], ("viewOn".to_string(), Value::Text("people".to_string())));
    assert_eq!(command[2], ("pipeline".to_string(), Value::Array(vec![Value::Document(stage())])));
}

#[test]
fn blank_or_empty_validators_clear_the_rule() {
    assert!(is_empty_document_text(""));
    assert!(is_empty_document_text("   "));
    assert!(is_empty_document_text(" {} "));
    assert!(!is_empty_document_text("{ }"));
    assert!(!is_empty_document_text("{\"a\": 1}"));
    let command = set_validator_command("people", vec![], "strict", "error");
    assert_eq!(
        command,
        vec![
            ("collMod".to_string(), Value::Text("people".to_string())),
            ("validator".to_string(), Value::Document(vec![])),
            ("validationLevel".to_string(), Value::Text("strict".to_string())),
            ("validationAction".to_string(), Value::Text("error".to_string())),
        ]
    );
}

use ozendb::commands::admin::{namespace, rename_command};

#[test]
fn renames_use_qualified_namespaces() {
    assert_eq!(namespace("shop", "orders"), "shop.orders");
    assert_eq!(
        rename_command("shop", "orders", "orders_old"),
        vec![
            ("renameCollection".to_string(), Value::Text("shop.orders".to_string())),
            ("to".to_string(), Value::Text("shop.orders_old".to_string())),
        ]
    );
}
