use ozendb::commands::duplicate::validate_target;

fn existing() -> Vec<String> {
    vec!["users".to_string(), "orders".to_string()]
}

#[test]
fn accepts_a_fresh_name() {
    assert!(validate_target("users", "users_copy", &existing()).is_ok());
}

#[test]
fn trims_whitespace() {
    assert!(validate_target("users", "  users_copy  ", &existing()).is_ok());
}

#[test]
fn rejects_empty_name() {
    assert!(validate_target("users", "   ", &existing()).is_err());
}

#[test]
fn rejects_same_as_source() {
    assert!(validate_target("users", "users", &existing()).is_err());
}

#[test]
fn rejects_existing_collection() {
    let err = validate_target("users", "orders", &existing()).unwrap_err();
    assert!(err.contains("already exists"));
}

#[test]
fn rejects_existing_after_trim() {
    assert!(validate_target("users", "  orders  ", &existing()).is_err());
}

#[test]
fn error_messages_name_the_problem() {
    assert_eq!(
        validate_target("users", "\t\n", &existing()).unwrap_err(),
        "A target collection name is required"
    );
    assert_eq!(
        validate_target("users", " users ", &existing()).unwrap_err(),
        "The copy must have a different name than the source"
    );
    assert_eq!(
        validate_target("users", " orders", &existing()).unwrap_err(),
        "A collection named 'orders' already exists"
    );
}

#[test]
fn unicode_white_space_is_trimmed() {
    // U+3000 ideographic space and U+00A0 no-break space are white space to `str::trim`.
    assert_eq!(
        validate_target("users", "\u{3000}orders\u{a0}", &existing()).unwrap_err(),
        "A collection named 'orders' already exists"
    );
}

use ozendb::commands::duplicate::{check_copy_target, copy_pipeline, duplicate_pipeline, CollectionRef};
use ozendb::error::AppError;
use ozendb::value::Value;

fn at(connection: &str, database: &str, collection: &str) -> CollectionRef {
    CollectionRef { connection: connection.to_string(), database: database.to_string(), collection: collection.to_string() }
}

#[test]
fn duplicates_and_copies_match_everything_then_write_out() {
    let dup = duplicate_pipeline("people_copy");
    assert_eq!(dup[0], vec![("$match".to_string(), Value::Document(vec![]))]);
    assert_eq!(dup[1], vec![("$out".to_string(), Value::Text("people_copy".to_string()))]);
    let copy = copy_pipeline("archive", "people");
    assert_eq!(copy.len(), 2);
    assert_eq!(
        copy[1],
        vec![(
            "$out".to_string(),
            Value::Document(vec![
                ("db".to_string(), Value::Text("archive".to_string())),
                ("coll".to_string(), Value::Text("people".to_string())),
            ])
        )]
    );
}

#[test]
fn a_collection_is_not_copied_onto_itself() {
    assert!(check_copy_target(&at("c1", "db", "people"), &at("c2", "db", "people")).is_ok());
    assert!(check_copy_target(&at("c1", "db", "people"), &at("c1", "db2", "people")).is_ok());
    match check_copy_target(&at("c1", "db", "people"), &at("c1", "db", "people")) {
        Err(AppError::Validation(m)) => assert_eq!(m, "Source and target are the same collection."),
        _ => panic!("expected a refusal"),
    }
}
