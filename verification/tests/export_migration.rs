use ozendb::commands::export::{csv_collect_headers, csv_format_row, docs_to_csv};
use ozendb::commands::migration::{
    generate_sql, infer_columns, numeric_rank, quote_ident, quote_str, sql_value, unify, Column,
};
use ozendb::value::{to_json, to_plain_text, DateText, DecimalText, Document, DoubleText, Value};

fn text(s: &str) -> Value {
    Value::Text(s.to_string())
}

fn doc(fields: Vec<(&str, Value)>) -> Document {
    fields.into_iter().map(|(k, v)| (k.to_string(), v)).collect()
}

fn double(display: &str, json: &str) -> Value {
    Value::Double(DoubleText { display: display.to_string(), json: json.to_string(), finite: true, truncated: display.parse::<f64>().map(|f| f as i64).unwrap_or(0) })
}

fn col_type(cols: &[Column], name: &str) -> String {
    cols.iter().find(|c| c.name == name).expect("column present").sql_type.clone()
}

#[test]
fn export_csv_header_is_union_of_all_keys() {
    let docs = vec![
        doc(vec![("a", Value::Int32(1)), ("b", Value::Int32(2))]),
        doc(vec![("a", Value::Int32(3)), ("c", Value::Int32(4))]),
    ];
    let first_line = docs_to_csv(&docs).lines().next().unwrap().to_string();
    assert_eq!(first_line, "a,b,c");
}

#[test]
fn export_csv_missing_key_becomes_an_empty_cell() {
    let docs = vec![
        doc(vec![("a", Value::Int32(1)), ("b", Value::Int32(2))]),
        doc(vec![("a", Value::Int32(3))]),
    ];
    let out = docs_to_csv(&docs);
    let lines: Vec<&str> = out.lines().collect();
    assert_eq!(lines[0], "a,b");
    assert_eq!(lines[1], "1,2");
    assert_eq!(lines[2], "3,");
}

#[test]
fn export_csv_empty_is_a_single_blank_header_line() {
    // No docs → no headers → a lone newline.
    assert_eq!(docs_to_csv(&[]), "\n");
}

#[test]
fn export_csv_transform_dropping_a_field_removes_its_column() {
    let mut docs = vec![
        doc(vec![("name", text("ann")), ("secret", text("s1"))]),
        doc(vec![("name", text("bob"))]),
    ];
    for d in docs.iter_mut() {
        d.retain(|(k, _)| k != "secret");
    }
    let out = docs_to_csv(&docs);
    assert_eq!(out.lines().next().unwrap(), "name");
    assert!(!out.contains("secret"));
}

#[test]
fn export_cells_are_plain_text_escaped() {
    let docs = vec![doc(vec![
        ("s", text("a,b")),
        ("n", Value::Null),
        ("t", Value::Bool(true)),
        ("d", double("1.5", "1.5")),
        ("o", Value::ObjectId("507f1f77bcf86cd799439011".to_string())),
        ("arr", Value::Array(vec![Value::Int64(1), text("x")])),
    ])];
    let out = docs_to_csv(&docs);
    assert_eq!(out, "s,n,t,d,o,arr\n\"a,b\",,true,1.5,507f1f77bcf86cd799439011,\"[1,\"\"x\"\"]\"\n");
}

#[test]
fn collect_headers_adds_only_new_keys_in_order() {
    let mut headers = vec!["b".to_string()];
    csv_collect_headers(&mut headers, &doc(vec![("a", Value::Null), ("b", Value::Null), ("c", Value::Null)]));
    assert_eq!(headers, vec!["b", "a", "c"]);
    let row = csv_format_row(&headers, &doc(vec![("c", text("z")), ("b", Value::Int32(-5))]));
    assert_eq!(row, "-5,,z");
}

#[test]
fn json_text_is_compact_relaxed_extended_json() {
    let nested = Value::Document(doc(vec![
        ("q", text("say \"hi\"\n")),
        ("oid", Value::ObjectId("abc".to_string())),
        ("list", Value::Array(vec![Value::Bool(false), Value::Null, double("3", "3.0")])),
        ("ctl", text("\u{1}")),
    ]));
    assert_eq!(
        to_json(&nested),
        "{\"q\":\"say \\\"hi\\\"\\n\",\"oid\":{\"$oid\":\"abc\"},\"list\":[false,null,3.0],\"ctl\":\"\\u0001\"}"
    );
    assert_eq!(to_plain_text(&double("3", "3.0")), "3");
    assert_eq!(to_plain_text(&Value::Int32(i32::MIN)), "-2147483648");
}

#[test]
fn infers_basic_types_in_first_seen_order() {
    let docs = vec![doc(vec![("name", text("a")), ("age", Value::Int32(30)), ("active", Value::Bool(true))])];
    let cols = infer_columns(&docs);
    let names: Vec<&str> = cols.iter().map(|c| c.name.as_str()).collect();
    assert_eq!(names, vec!["name", "age", "active"]);
    assert_eq!(col_type(&cols, "name"), "TEXT");
    assert_eq!(col_type(&cols, "age"), "INTEGER");
    assert_eq!(col_type(&cols, "active"), "BOOLEAN");
}

#[test]
fn widens_mixed_numeric_columns() {
    let docs = vec![
        doc(vec![("n", Value::Int32(1))]),
        doc(vec![("n", Value::Int64(2))]),
        doc(vec![("n", double("3.5", "3.5"))]),
    ];
    let cols = infer_columns(&docs);
    assert_eq!(col_type(&cols, "n"), "DOUBLE PRECISION");
}

#[test]
fn incompatible_types_fall_back_to_text() {
    let docs = vec![doc(vec![("x", Value::Int32(1))]), doc(vec![("x", text("str"))])];
    let cols = infer_columns(&docs);
    assert_eq!(col_type(&cols, "x"), "TEXT");
}

#[test]
fn null_only_column_is_text() {
    let docs = vec![doc(vec![("maybe", Value::Null)]), doc(vec![("maybe", Value::Null)])];
    let cols = infer_columns(&docs);
    assert_eq!(col_type(&cols, "maybe"), "TEXT");
}

#[test]
fn null_does_not_override_a_real_type() {
    let docs = vec![doc(vec![("v", Value::Int32(5))]), doc(vec![("v", Value::Null)])];
    let cols = infer_columns(&docs);
    assert_eq!(col_type(&cols, "v"), "INTEGER");
}

#[test]
fn objectid_and_date_types() {
    let when = Value::DateTime(DateText {
        json: "{\"$date\":\"2024-01-02T03:04:05Z\"}".to_string(),
        rfc3339: Some("2024-01-02T03:04:05Z".to_string()),
        display: "2024-01-02 3:04:05.0 +00:00:00".to_string(),
    });
    let docs = vec![doc(vec![("_id", Value::ObjectId("507f1f77bcf86cd799439011".to_string())), ("when", when)])];
    let cols = infer_columns(&docs);
    assert_eq!(col_type(&cols, "_id"), "VARCHAR(24)");
    assert_eq!(col_type(&cols, "when"), "TIMESTAMP");
}

#[test]
fn sql_value_escapes_strings() {
    assert_eq!(sql_value(&text("O'Brien")), "'O''Brien'");
}

#[test]
fn sql_value_scalars() {
    assert_eq!(sql_value(&Value::Int32(7)), "7");
    assert_eq!(sql_value(&Value::Bool(true)), "TRUE");
    assert_eq!(sql_value(&Value::Bool(false)), "FALSE");
    assert_eq!(sql_value(&Value::Null), "NULL");
}

#[test]
fn sql_value_nested_becomes_json_string() {
    let v = Value::Document(doc(vec![("a", Value::Int32(1))]));
    let out = sql_value(&v);
    assert!(out.starts_with('\'') && out.ends_with('\''));
    assert!(out.contains("\"a\""));
    assert_eq!(out, "'{\"a\":1}'");
}

#[test]
fn sql_value_special_values() {
    let inf = Value::Double(DoubleText { display: "inf".to_string(), json: "{\"$numberDouble\":\"Infinity\"}".to_string(), finite: false, truncated: i64::MAX });
    assert_eq!(sql_value(&inf), "NULL");
    let dec = Value::Decimal(DecimalText { display: "1.10".to_string(), json: "{\"$numberDecimal\":\"1.10\"}".to_string() });
    assert_eq!(sql_value(&dec), "1.10");
    let undated = Value::DateTime(DateText {
        json: "{\"$date\":{\"$numberLong\":\"-99999999999999\"}}".to_string(),
        rfc3339: None,
        display: "DateTime(-99999999999999)".to_string(),
    });
    assert_eq!(sql_value(&undated), "NULL");
    assert_eq!(sql_value(&Value::ObjectId("ab'c".to_string())), "'ab''c'");
}

#[test]
fn generate_sql_has_create_and_inserts() {
    let docs = vec![
        doc(vec![("name", text("Alice")), ("age", Value::Int32(30))]),
        doc(vec![("name", text("Bob")), ("age", Value::Int32(25))]),
    ];
    let cols = infer_columns(&docs);
    let sql = generate_sql("users", &cols, &docs);
    assert!(sql.contains("CREATE TABLE \"users\" ("));
    assert!(sql.contains("\"name\" TEXT"));
    assert!(sql.contains("\"age\" INTEGER"));
    assert!(sql.contains("INSERT INTO \"users\" (\"name\", \"age\") VALUES ('Alice', 30);"));
    assert!(sql.contains("VALUES ('Bob', 25);"));
    assert_eq!(
        sql,
        "CREATE TABLE \"users\" (\n  \"name\" TEXT,\n  \"age\" INTEGER\n);\n\
         INSERT INTO \"users\" (\"name\", \"age\") VALUES ('Alice', 30);\n\
         INSERT INTO \"users\" (\"name\", \"age\") VALUES ('Bob', 25);\n"
    );
}

#[test]
fn missing_field_inserts_null() {
    let docs = vec![doc(vec![("a", Value::Int32(1)), ("b", Value::Int32(2))]), doc(vec![("a", Value::Int32(3))])];
    let cols = infer_columns(&docs);
    let sql = generate_sql("t", &cols, &docs);
    assert!(sql.contains("VALUES (3, NULL);"));
}

#[test]
fn identifiers_are_quoted_and_escaped() {
    let docs = vec![doc(vec![("we\"ird", Value::Int32(1))])];
    let cols = infer_columns(&docs);
    let sql = generate_sql("tab", &cols, &docs);
    assert!(sql.contains("\"we\"\"ird\""));
}

#[test]
fn no_columns_means_only_the_create_statement() {
    let sql = generate_sql("t", &[], &[doc(vec![])]);
    assert_eq!(sql, "CREATE TABLE \"t\" (\n\n);\n");
}

#[test]
fn numeric_ranks_and_unification() {
    assert_eq!(numeric_rank("INTEGER"), 1);
    assert_eq!(numeric_rank("BIGINT"), 2);
    assert_eq!(numeric_rank("DOUBLE PRECISION"), 3);
    assert_eq!(numeric_rank("DECIMAL"), 4);
    assert_eq!(numeric_rank("TEXT"), 0);
    assert_eq!(unify("BIGINT", "INTEGER"), "BIGINT");
    assert_eq!(unify("INTEGER", "DECIMAL"), "DECIMAL");
    assert_eq!(unify("BOOLEAN", "BOOLEAN"), "BOOLEAN");
    assert_eq!(unify("BOOLEAN", "INTEGER"), "TEXT");
    assert_eq!(quote_ident("a\"b"), "\"a\"\"b\"");
    assert_eq!(quote_str("it's"), "'it''s'");
}

use ozendb::commands::export::csv_header_line;

#[test]
fn header_lines_escape_each_header() {
    let headers = vec!["name".to_string(), "a,b".to_string(), "say \"hi\"".to_string()];
    assert_eq!(csv_header_line(&headers), "name,\"a,b\",\"say \"\"hi\"\"\"");
    assert_eq!(csv_header_line(&[]), "");
}
