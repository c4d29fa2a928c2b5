use ozendb::commands::search::{
    collect_fields, contains_text, hit_limit, id_text, scan_limit, search_matcher, search_scope,
    single_collection, value_text, Matcher, Pattern, Scope, SearchRun,
};
use ozendb::error::AppError;
use ozendb::value::{DateText, Document, DoubleText, Value};

fn text(s: &str) -> Value {
    Value::Text(s.to_string())
}

fn doc(fields: Vec<(&str, Value)>) -> Document {
    fields.into_iter().map(|(k, v)| (k.to_string(), v)).collect()
}

// Helper: run the walk over a document and return the (path, value) rows.
fn find(d: &Document, matcher: &Matcher, scope: &Scope) -> Vec<(String, String)> {
    let mut out = Vec::new();
    collect_fields(d, "", matcher, scope, &mut out);
    out
}

// Case-insensitive substring over both value and name.
fn ci(needle: &str) -> Matcher {
    Matcher::Substr { needle: needle.to_lowercase(), case_sensitive: false }
}
fn both() -> Scope {
    Scope { values: true, names: true }
}
fn values_only() -> Scope {
    Scope { values: true, names: false }
}
fn names_only() -> Scope {
    Scope { values: false, names: true }
}

fn paths(rows: &[(String, String)]) -> Vec<&str> {
    rows.iter().map(|(p, _)| p.as_str()).collect()
}

#[test]
fn matches_string_value_case_insensitively() {
    let d = doc(vec![("name", text("Alice Smith"))]);
    let rows = find(&d, &ci("alice"), &values_only());
    assert_eq!(rows, vec![("name".to_string(), "Alice Smith".to_string())]);
    assert!(find(&d, &ci("bob"), &values_only()).is_empty());
}

#[test]
fn matches_substring() {
    let d = doc(vec![("email", text("person@example.com"))]);
    assert_eq!(paths(&find(&d, &ci("example"), &values_only())), vec!["email"]);
    assert_eq!(paths(&find(&d, &ci("@example.com"), &values_only())), vec!["email"]);
}

#[test]
fn matches_numeric_text() {
    let score = 3.14_f64;
    let d = doc(vec![
        ("age", Value::Int32(42)),
        ("score", Value::Double(DoubleText { display: score.to_string(), json: score.to_string(), finite: true, truncated: 3 })),
    ]);
    assert_eq!(paths(&find(&d, &ci("42"), &values_only())), vec!["age"]);
    assert_eq!(paths(&find(&d, &ci("3.14"), &values_only())), vec!["score"]);
    assert!(find(&d, &ci("99"), &values_only()).is_empty());
}

#[test]
fn recurses_into_nested_documents_with_dotted_path() {
    let d = doc(vec![("address", Value::Document(doc(vec![("city", text("Portland"))])))]);
    let rows = find(&d, &ci("portland"), &values_only());
    assert_eq!(rows, vec![("address.city".to_string(), "Portland".to_string())]);
}

#[test]
fn recurses_into_arrays_with_indexed_path() {
    let d = doc(vec![("tags", Value::Array(vec![text("red"), text("green"), text("blue")]))]);
    let rows = find(&d, &ci("green"), &values_only());
    assert_eq!(rows, vec![("tags.1".to_string(), "green".to_string())]);
    assert!(find(&d, &ci("purple"), &values_only()).is_empty());
}

#[test]
fn recurses_into_array_of_documents() {
    let d = doc(vec![(
        "items",
        Value::Array(vec![
            Value::Document(doc(vec![("sku", text("ABC"))])),
            Value::Document(doc(vec![("sku", text("XYZ"))])),
        ]),
    )]);
    let rows = find(&d, &ci("xyz"), &values_only());
    assert_eq!(rows, vec![("items.1.sku".to_string(), "XYZ".to_string())]);
}

#[test]
fn matches_objectid_hex() {
    let oid = mongodb::bson::oid::ObjectId::new();
    let hex = oid.to_hex();
    let d = doc(vec![("_id", Value::ObjectId(hex.clone()))]);
    assert_eq!(paths(&find(&d, &ci(&hex[..8]), &values_only())), vec!["_id"]);
}

#[test]
fn name_scope_matches_field_names() {
    let d = doc(vec![("username", text("carol")), ("role", text("admin"))]);
    // "name" appears in the key "username", not in any value.
    let rows = find(&d, &ci("name"), &names_only());
    assert_eq!(rows, vec![("username".to_string(), "carol".to_string())]);
    assert!(find(&d, &ci("name"), &values_only()).is_empty());
}

#[test]
fn both_scope_reports_name_and_value_separately() {
    // The key "tag" and the value "tag" both match — two rows.
    let d = doc(vec![("tag", text("tagged"))]);
    let rows = find(&d, &ci("tag"), &both());
    assert_eq!(rows.len(), 2);
    assert!(rows.contains(&("tag".to_string(), "tagged".to_string())));
}

#[test]
fn case_sensitive_substring_respects_case() {
    let d = doc(vec![("name", text("Alice"))]);
    let cs = Matcher::Substr { needle: "alice".to_string(), case_sensitive: true };
    assert!(find(&d, &cs, &values_only()).is_empty());
    let cs2 = Matcher::Substr { needle: "Alice".to_string(), case_sensitive: true };
    assert_eq!(paths(&find(&d, &cs2, &values_only())), vec!["name"]);
}

#[test]
fn regex_matcher_matches_pattern() {
    let d = doc(vec![("code", text("AB-123")), ("note", text("no digits here"))]);
    let re = Matcher::Regex(Pattern::new(r"\d{3}", false).unwrap());
    assert_eq!(paths(&find(&d, &re, &values_only())), vec!["code"]);
}

#[test]
fn name_match_on_a_subdocument_shows_its_json() {
    let d = doc(vec![("address", Value::Document(doc(vec![("city", text("Oslo"))])))]);
    let rows = find(&d, &ci("addr"), &names_only());
    assert_eq!(rows, vec![("address".to_string(), "{\"city\":\"Oslo\"}".to_string())]);
}

#[test]
fn dates_match_by_rfc3339_text_and_skip_without_one() {
    let with = Value::DateTime(DateText {
        json: "{\"$date\":\"2024-01-02T03:04:05Z\"}".to_string(),
        rfc3339: Some("2024-01-02T03:04:05Z".to_string()),
        display: "2024-01-02 3:04:05.0 +00:00:00".to_string(),
    });
    let without = Value::DateTime(DateText {
        json: "{\"$date\":{\"$numberLong\":\"-999999999999999\"}}".to_string(),
        rfc3339: None,
        display: "DateTime(far past)".to_string(),
    });
    let d = doc(vec![("a", with), ("b", without)]);
    assert_eq!(paths(&find(&d, &ci("2024"), &values_only())), vec!["a"]);
    assert_eq!(value_text(&d[1].1), "DateTime(far past)");
}

#[test]
fn substring_search_over_characters() {
    assert!(contains_text("hello world", "lo w"));
    assert!(contains_text("abc", ""));
    assert!(!contains_text("abc", "abcd"));
    assert!(!contains_text("abc", "ac"));
}

#[test]
fn id_text_renders_hex_or_nothing() {
    let d = doc(vec![("_id", Value::ObjectId("507f1f77bcf86cd799439011".to_string()))]);
    assert_eq!(id_text(&d), "507f1f77bcf86cd799439011");
    let e = doc(vec![("_id", Value::Int64(7))]);
    assert_eq!(id_text(&e), "7");
    assert_eq!(id_text(&doc(vec![("x", Value::Null)])), "");
}

#[test]
fn request_options_pick_matcher_scope_and_limits() {
    assert!(matches!(search_matcher("   ", None, None), Ok(None)));
    match search_matcher("  Alice ", None, None) {
        Ok(Some(Matcher::Substr { needle, case_sensitive })) => {
            assert_eq!(needle, "alice");
            assert!(!case_sensitive);
        }
        _ => panic!("expected a substring matcher"),
    }
    match search_matcher("Alice", Some(true), Some(false)) {
        Ok(Some(Matcher::Substr { needle, case_sensitive })) => {
            assert_eq!(needle, "Alice");
            assert!(case_sensitive);
        }
        _ => panic!("expected a case-sensitive substring matcher"),
    }
    match search_matcher("a(b", None, Some(true)) {
        Err(AppError::Validation(msg)) => assert!(msg.starts_with("Invalid regular expression: ")),
        _ => panic!("expected a validation error"),
    }
    match search_matcher("ALICE", None, Some(true)) {
        Ok(Some(m)) => assert!(m.matches("alice")),
        _ => panic!("expected a pattern matcher"),
    }
    let s = search_scope(Some("value"));
    assert!(s.values && !s.names);
    let s = search_scope(Some("name"));
    assert!(!s.values && s.names);
    let s = search_scope(Some("other"));
    assert!(s.values && s.names);
    assert_eq!(scan_limit(None), 1000);
    assert_eq!(scan_limit(Some(0)), 1000);
    assert_eq!(scan_limit(Some(20)), 20);
    assert_eq!(scan_limit(Some(99999)), 5000);
    assert_eq!(hit_limit(Some(-3)), 200);
    assert_eq!(hit_limit(Some(5)), 5);
    assert_eq!(hit_limit(Some(5000)), 1000);
    assert_eq!(single_collection(Some("  ".to_string())), None);
    assert_eq!(single_collection(Some("users".to_string())), Some("users".to_string()));
}

#[test]
fn hit_cap_truncates_and_stops() {
    let m = ci("x");
    let scope = both();
    let mut run = SearchRun::new(3);
    let d1 = doc(vec![("_id", Value::Int32(1)), ("a", text("x1")), ("b", text("x2"))]);
    assert!(run.take_document("db", "c", &d1, &m, &scope));
    assert_eq!(run.hits.len(), 2);
    let d2 = doc(vec![("_id", Value::Int32(2)), ("a", text("x3")), ("b", text("x4"))]);
    assert!(!run.take_document("db", "c", &d2, &m, &scope));
    let result = run.finish();
    assert_eq!(result.hits.len(), 3);
    assert_eq!(result.scanned, 2);
    assert!(result.truncated);
    assert_eq!(result.hits[2].id, "2");
    assert_eq!(result.hits[2].path, "a");
    assert_eq!(result.hits[2].value, "x3");
    assert_eq!(result.hits[0].database, "db");
    assert_eq!(result.hits[0].collection, "c");
}
