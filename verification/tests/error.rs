use ozendb::error::{join_write_messages, write_message, AppError};

#[test]
fn write_message_prefers_the_server_text() {
    assert_eq!(
        write_message(11000, "E11000 duplicate key error"),
        "E11000 duplicate key error"
    );
}

#[test]
fn write_message_falls_back_to_code_when_blank() {
    assert_eq!(write_message(121, ""), "Write error (code 121)");
}

#[test]
fn write_message_fallback_keeps_a_negative_code() {
    assert_eq!(write_message(-5, ""), "Write error (code -5)");
    assert_eq!(write_message(i32::MIN, ""), "Write error (code -2147483648)");
    assert_eq!(write_message(0, ""), "Write error (code 0)");
}

#[test]
fn join_dedups_and_returns_none_when_empty() {
    assert_eq!(join_write_messages(Vec::new()), None);
    let dupes = vec![
        String::from("E11000 dup key"),
        String::from("E11000 dup key"),
    ];
    assert_eq!(join_write_messages(dupes), Some(String::from("E11000 dup key")));
}

#[test]
fn join_caps_a_large_number_of_distinct_messages() {
    let many: Vec<String> = (0..6).map(|n| format!("err {n}")).collect();
    assert_eq!(
        join_write_messages(many),
        Some(String::from("err 0; err 1; err 2 (and 3 more)"))
    );
}

#[test]
fn join_of_three_distinct_messages_shows_them_all() {
    let three = vec![String::from("a"), String::from("b"), String::from("a"), String::from("c")];
    assert_eq!(join_write_messages(three), Some(String::from("a; b; c")));
}

#[test]
fn error_codes_are_stable() {
    assert_eq!(AppError::Validation(String::from("x")).code(), "validation");
    assert_eq!(AppError::Sql(String::from("x")).code(), "sql");
    assert_eq!(AppError::UnknownConnection(String::from("x")).code(), "unknown_connection");
    assert_eq!(AppError::ReadOnly { name: String::from("x") }.code(), "read_only");
    assert_eq!(
        AppError::Unreachable { address: String::from("a"), reason: String::from("b") }.code(),
        "unreachable"
    );
}

use ozendb::error::{mongo_code, mongo_message, MongoErrorKind, MongoFailure};

fn failure(kind: MongoErrorKind, errors: Vec<(i32, &str)>, concern: Option<(i32, &str)>) -> MongoFailure {
    MongoFailure {
        kind,
        write_errors: errors.into_iter().map(|(c, m)| (c, m.to_string())).collect(),
        concern_error: concern.map(|(c, m)| (c, m.to_string())),
        display: "driver text".to_string(),
    }
}

#[test]
fn mongo_failures_are_coded_by_kind() {
    assert_eq!(mongo_code(&failure(MongoErrorKind::Authentication, vec![], None)), "auth");
    assert_eq!(mongo_code(&failure(MongoErrorKind::InvalidTls, vec![], None)), "tls");
    assert_eq!(mongo_code(&failure(MongoErrorKind::Network, vec![], None)), "network");
    assert_eq!(mongo_code(&failure(MongoErrorKind::Write, vec![], None)), "write");
    assert_eq!(mongo_code(&failure(MongoErrorKind::InsertMany, vec![], None)), "write");
    assert_eq!(mongo_code(&failure(MongoErrorKind::Other, vec![], None)), "mongo");
}

#[test]
fn mongo_messages_surface_the_server_text() {
    let insert = failure(
        MongoErrorKind::InsertMany,
        vec![(11000, "E11000 dup"), (11000, "E11000 dup"), (121, "")],
        Some((64, "waiting for replication timed out")),
    );
    assert_eq!(mongo_message(&insert), "E11000 dup; Write error (code 121); waiting for replication timed out");
    assert_eq!(mongo_message(&failure(MongoErrorKind::InsertMany, vec![], None)), "driver text");
    assert_eq!(mongo_message(&failure(MongoErrorKind::Write, vec![(121, "")], None)), "Write error (code 121)");
    assert_eq!(mongo_message(&failure(MongoErrorKind::Write, vec![], Some((1, "wc")))), "wc");
    assert_eq!(mongo_message(&failure(MongoErrorKind::Network, vec![], None)), "driver text");
}
