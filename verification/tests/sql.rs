use ozendb::commands::sql::{like_to_regex, normalize_skip, translate_statements, MqlQuery};
use ozendb::commands::sql_model::{
    SqlBinOp, SqlBody, SqlExpr, SqlExprKind, SqlLimit, SqlLiteral, SqlOrderBy, SqlOrderExpr,
    SqlQuery, SqlRelation, SqlSelect, SqlSelectItem, SqlStatement, SqlTable,
};

fn expr(kind: SqlExprKind, text: &str) -> SqlExpr {
    SqlExpr { kind, text: text.to_string() }
}

fn ident(name: &str) -> SqlExpr {
    expr(SqlExprKind::Identifier(name.to_string()), name)
}

fn number(text: &str) -> SqlExpr {
    expr(SqlExprKind::Literal(SqlLiteral::Number { text: text.to_string(), float_json: None }), text)
}

fn float(text: &str, json: &str) -> SqlExpr {
    expr(
        SqlExprKind::Literal(SqlLiteral::Number { text: text.to_string(), float_json: Some(json.to_string()) }),
        text,
    )
}

fn string(value: &str) -> SqlExpr {
    expr(SqlExprKind::Literal(SqlLiteral::Str(value.to_string())), &format!("'{value}'"))
}

fn binary(left: SqlExpr, op: SqlBinOp, right: SqlExpr) -> SqlExpr {
    let text = format!("{} op {}", left.text, right.text);
    expr(SqlExprKind::Binary { left: Box::new(left), op, right: Box::new(right) }, &text)
}

fn table(name: &str) -> SqlTable {
    SqlTable {
        relation: SqlRelation::Table { name: vec![name.to_string()], has_alias: false, has_args: false },
        has_joins: false,
    }
}

fn select(
    projection: Vec<SqlSelectItem>,
    selection: Option<SqlExpr>,
    order_by: Option<SqlOrderBy>,
    limit: Option<SqlLimit>,
) -> Result<Vec<SqlStatement>, String> {
    Ok(vec![SqlStatement::Query(SqlQuery {
        body: SqlBody::Select(SqlSelect {
            projection,
            distinct: false,
            having: false,
            grouped: false,
            from: vec![table("users")],
            selection,
        }),
        order_by,
        limit,
    })])
}

fn ok(parsed: Result<Vec<SqlStatement>, String>) -> MqlQuery {
    match translate_statements(parsed) {
        Ok(q) => q,
        Err(e) => panic!("expected a translation, got {e}"),
    }
}

#[test]
fn select_star_is_an_empty_find() {
    let q = ok(select(vec![SqlSelectItem::Wildcard], None, None, None));
    assert_eq!(q.collection, "users");
    assert_eq!(q.filter, "{}");
    assert_eq!(q.projection, "{}");
    assert_eq!(q.sort, "{}");
    assert_eq!(q.limit, None);
    assert_eq!(q.skip, None);
}

#[test]
fn projection_lists_fields_and_a_star_anywhere_means_all() {
    let q = ok(select(
        vec![SqlSelectItem::Unnamed(ident("name")), SqlSelectItem::Aliased(ident("age"))],
        None,
        None,
        None,
    ));
    assert_eq!(q.projection, "{\n  \"name\": 1,\n  \"age\": 1\n}");
    let q = ok(select(vec![SqlSelectItem::Unnamed(ident("name")), SqlSelectItem::Wildcard], None, None, None));
    assert_eq!(q.projection, "{}");
}

#[test]
fn distinct_fields_merge_and_repeated_fields_use_and() {
    let ge = binary(ident("age"), SqlBinOp::GtEq, number("18"));
    let active = binary(ident("active"), SqlBinOp::Eq, expr(SqlExprKind::Literal(SqlLiteral::Bool(true)), "true"));
    let q = ok(select(vec![SqlSelectItem::Wildcard], Some(binary(ge, SqlBinOp::And, active)), None, None));
    assert_eq!(q.filter, "{\n  \"age\": {\n    \"$gte\": 18\n  },\n  \"active\": true\n}");

    let gt = binary(ident("age"), SqlBinOp::Gt, number("1"));
    let lt = binary(ident("age"), SqlBinOp::Lt, number("10"));
    let q = ok(select(vec![SqlSelectItem::Wildcard], Some(binary(gt, SqlBinOp::And, lt)), None, None));
    assert_eq!(
        q.filter,
        "{\n  \"$and\": [\n    {\n      \"age\": {\n        \"$gt\": 1\n      }\n    },\n    {\n      \"age\": {\n        \"$lt\": 10\n      }\n    }\n  ]\n}"
    );
}

#[test]
fn or_chains_flatten_and_negatives_negate() {
    let a = binary(ident("a"), SqlBinOp::Eq, number("1"));
    let b = binary(ident("b"), SqlBinOp::Lt, expr(SqlExprKind::Minus(Box::new(number("50"))), "-50"));
    let c = binary(ident("c"), SqlBinOp::Gt, float("3.50", "3.5"));
    let chain = binary(binary(a, SqlBinOp::Or, b), SqlBinOp::Or, c);
    let q = ok(select(vec![SqlSelectItem::Wildcard], Some(chain), None, None));
    assert_eq!(
        q.filter,
        "{\n  \"$or\": [\n    {\n      \"a\": 1\n    },\n    {\n      \"b\": {\n        \"$lt\": -50\n      }\n    },\n    {\n      \"c\": {\n        \"$gt\": 3.5\n      }\n    }\n  ]\n}"
    );
}

#[test]
fn like_in_null_and_between_conditions() {
    let like = expr(
        SqlExprKind::Like { negated: true, any: false, expr: Box::new(ident("name")), pattern: Box::new(string("jo%")) },
        "name NOT LIKE 'jo%'",
    );
    let q = ok(select(vec![SqlSelectItem::Wildcard], Some(like), None, None));
    assert_eq!(q.filter, "{\n  \"name\": {\n    \"$not\": {\n      \"$regex\": \"^jo.*$\"\n    }\n  }\n}");

    let list = expr(
        SqlExprKind::InList { expr: Box::new(ident("s")), list: vec![string("a"), string("b")], negated: false },
        "s IN ('a', 'b')",
    );
    let q = ok(select(vec![SqlSelectItem::Wildcard], Some(list), None, None));
    assert_eq!(q.filter, "{\n  \"s\": {\n    \"$in\": [\n      \"a\",\n      \"b\"\n    ]\n  }\n}");

    let empty = expr(SqlExprKind::InList { expr: Box::new(ident("s")), list: vec![], negated: false }, "s IN ()");
    assert_eq!(
        translate_statements(select(vec![SqlSelectItem::Wildcard], Some(empty), None, None)).unwrap_err(),
        "IN list cannot be empty"
    );

    let null = expr(SqlExprKind::IsNull(Box::new(ident("x"))), "x IS NULL");
    assert_eq!(ok(select(vec![SqlSelectItem::Wildcard], Some(null), None, None)).filter, "{\n  \"x\": null\n}");

    let between = expr(
        SqlExprKind::Between { expr: Box::new(ident("age")), negated: false, low: Box::new(number("18")), high: Box::new(number("65")) },
        "age BETWEEN 18 AND 65",
    );
    assert_eq!(
        ok(select(vec![SqlSelectItem::Wildcard], Some(between), None, None)).filter,
        "{\n  \"age\": {\n    \"$gte\": 18,\n    \"$lte\": 65\n  }\n}"
    );
}

#[test]
fn order_by_on_the_model_preserves_key_order() {
    let order = SqlOrderBy::Expressions(vec![
        SqlOrderExpr { expr: ident("b"), asc: Some(false) },
        SqlOrderExpr { expr: ident("a"), asc: None },
    ]);
    let q = ok(select(vec![SqlSelectItem::Wildcard], None, Some(order), None));
    assert_eq!(q.sort, "{\n  \"b\": -1,\n  \"a\": 1\n}");
}

#[test]
fn limit_and_offset_on_the_model() {
    let limit = SqlLimit::LimitOffset { limit: Some(number("10")), offset: Some(number("5")), has_limit_by: false };
    let q = ok(select(vec![SqlSelectItem::Wildcard], None, None, Some(limit)));
    assert_eq!(q.limit, Some(10));
    assert_eq!(q.skip, Some(5));
}

#[test]
fn refusals_name_what_is_unsupported() {
    assert_eq!(translate_statements(Err("parse failed".to_string())).unwrap_err(), "parse failed");
    assert_eq!(translate_statements(Ok(vec![])).unwrap_err(), "Expected a single SELECT statement");
    assert_eq!(translate_statements(Ok(vec![SqlStatement::Other])).unwrap_err(), "Only SELECT queries are supported");
    assert_eq!(translate_statements(select(vec![], None, None, None)).unwrap_err(), "Query must start with SELECT");
    let function = expr(SqlExprKind::Function, "COUNT(*)");
    let err = translate_statements(select(vec![SqlSelectItem::Unnamed(function)], None, None, None)).unwrap_err();
    assert!(err.to_lowercase().contains("not supported"));
    let bad = binary(number("1"), SqlBinOp::Eq, number("1"));
    assert_eq!(
        translate_statements(select(vec![SqlSelectItem::Wildcard], Some(bad), None, None)).unwrap_err(),
        "Expected a field name, found `1`"
    );
    let huge = binary(ident("n"), SqlBinOp::Eq, number("99999999999999999999"));
    assert_eq!(
        translate_statements(select(vec![SqlSelectItem::Wildcard], Some(huge), None, None)).unwrap_err(),
        "Invalid number: 99999999999999999999"
    );
    let limit = SqlLimit::LimitOffset { limit: Some(string("x")), offset: None, has_limit_by: false };
    assert_eq!(
        translate_statements(select(vec![SqlSelectItem::Wildcard], None, None, Some(limit))).unwrap_err(),
        "Expected an integer"
    );
}

#[test]
fn skip_is_rewritten_to_offset_outside_strings() {
    assert_eq!(normalize_skip("SELECT * FROM t LIMIT 3 SKIP 7"), "SELECT * FROM t LIMIT 3 OFFSET 7");
    assert_eq!(normalize_skip("select skip, skipper from t where s = 'skip'"), "select OFFSET, skipper from t where s = 'skip'");
    assert_eq!(normalize_skip("a_skip Skip"), "a_skip OFFSET");
}

#[test]
fn like_patterns_become_anchored_regexes() {
    assert_eq!(like_to_regex("jo%"), "^jo.*$");
    assert_eq!(like_to_regex("a_.c%"), "^a.\\.c.*$");
    assert_eq!(like_to_regex("(x)|y$"), "^\\(x\\)\\|y\\$$");
}

#[test]
fn the_skip_rewrite_is_idempotent_and_leaves_other_text_alone() {
    for sql in ["SELECT * FROM t LIMIT 3 SKIP 7", "select * from t skip 1", "SELECT 'skip' FROM t WHERE a = \"SKIP\"", "SELECT skipper FROM t"] {
        let once = normalize_skip(sql);
        assert_eq!(normalize_skip(&once), once);
    }
    assert_eq!(normalize_skip("SELECT 'skip' FROM t"), "SELECT 'skip' FROM t");
    assert_eq!(normalize_skip("SELECT skipper, _skip FROM t"), "SELECT skipper, _skip FROM t");
}
