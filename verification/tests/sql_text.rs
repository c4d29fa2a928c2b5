//! The SQL translation run on SQL text: each statement sqlparser parses is read into
//! the library's model by the converter below, as the app does.

use ozendb::commands::sql::MqlQuery;
use ozendb::commands::sql_model::{
    SqlBinOp, SqlBody, SqlExpr, SqlExprKind, SqlLimit, SqlLiteral, SqlOrderBy, SqlOrderExpr,
    SqlQuery, SqlRelation, SqlSelect, SqlSelectItem, SqlStatement, SqlTable,
};
use ozendb::commands::sql_parse::sql_to_mql;
use sqlparser::ast::{
    BinaryOperator, Expr, GroupByExpr, LimitClause, OrderBy, OrderByKind, OrderBySort, Query,
    SelectItem, SetExpr, Statement, TableFactor, TableWithJoins, UnaryOperator, Value,
};

// Numeric literals with a decimal point denote doubles, whose JSON text is computed here
// (floating point, which the library does not hold); everything else is carried over
// one node at a time.
fn literal(value: &Value) -> SqlLiteral {
    match value {
        Value::Number(text, _) => {
            let float_json = if text.contains('.') {
                match text.parse::<f64>() {
                    Ok(num) => Some(match serde_json::Number::from_f64(num) {
                        Some(n) => n.to_string(),
                        None => "null".to_string(),
                    }),
                    Err(_) => None,
                }
            } else {
                None
            };
            SqlLiteral::Number { text: text.clone(), float_json }
        }
        Value::SingleQuotedString(s) | Value::DoubleQuotedString(s) => SqlLiteral::Str(s.clone()),
        Value::Boolean(b) => SqlLiteral::Bool(*b),
        Value::Null => SqlLiteral::Null,
        other => SqlLiteral::Other(other.to_string()),
    }
}

fn operator(op: &BinaryOperator) -> SqlBinOp {
    match op {
        BinaryOperator::And => SqlBinOp::And,
        BinaryOperator::Or => SqlBinOp::Or,
        BinaryOperator::Eq => SqlBinOp::Eq,
        BinaryOperator::NotEq => SqlBinOp::NotEq,
        BinaryOperator::Lt => SqlBinOp::Lt,
        BinaryOperator::LtEq => SqlBinOp::LtEq,
        BinaryOperator::Gt => SqlBinOp::Gt,
        BinaryOperator::GtEq => SqlBinOp::GtEq,
        other => SqlBinOp::Other(other.to_string()),
    }
}

fn boxed(expr: &Expr) -> Box<SqlExpr> {
    Box::new(expression(expr))
}

fn expression(expr: &Expr) -> SqlExpr {
    let kind = match expr {
        Expr::Identifier(ident) => SqlExprKind::Identifier(ident.value.clone()),
        Expr::CompoundIdentifier(parts) => SqlExprKind::Compound(parts.iter().map(|p| p.value.clone()).collect()),
        Expr::Value(value) => SqlExprKind::Literal(literal(&value.value)),
        Expr::UnaryOp { op: UnaryOperator::Minus, expr } => SqlExprKind::Minus(boxed(expr)),
        Expr::UnaryOp { op: UnaryOperator::Plus, expr } => SqlExprKind::Plus(boxed(expr)),
        Expr::Nested(inner) => SqlExprKind::Nested(boxed(inner)),
        Expr::IsNull(inner) => SqlExprKind::IsNull(boxed(inner)),
        Expr::IsNotNull(inner) => SqlExprKind::IsNotNull(boxed(inner)),
        Expr::Like { negated, any, expr, pattern, .. } => SqlExprKind::Like {
            negated: *negated,
            any: *any,
            expr: boxed(expr),
            pattern: boxed(pattern),
        },
        Expr::InList { expr, list, negated } => SqlExprKind::InList {
            expr: boxed(expr),
            list: list.iter().map(expression).collect(),
            negated: *negated,
        },
        Expr::Between { expr, negated, low, high } => SqlExprKind::Between {
            expr: boxed(expr),
            negated: *negated,
            low: boxed(low),
            high: boxed(high),
        },
        Expr::BinaryOp { left, op, right } => SqlExprKind::Binary {
            left: boxed(left),
            op: operator(op),
            right: boxed(right),
        },
        Expr::Function(_) => SqlExprKind::Function,
        _ => SqlExprKind::Other,
    };
    SqlExpr { kind, text: expr.to_string() }
}

fn select_item(item: &SelectItem) -> SqlSelectItem {
    match item {
        SelectItem::Wildcard(_) => SqlSelectItem::Wildcard,
        SelectItem::UnnamedExpr(expr) => SqlSelectItem::Unnamed(expression(expr)),
        SelectItem::ExprWithAlias { expr, .. } => SqlSelectItem::Aliased(expression(expr)),
        other => SqlSelectItem::Other(other.to_string()),
    }
}

fn table(entry: &TableWithJoins) -> SqlTable {
    let relation = match &entry.relation {
        TableFactor::Table { name, alias, args, .. } => SqlRelation::Table {
            name: name.0.iter().filter_map(|part| part.as_ident()).map(|ident| ident.value.clone()).collect(),
            has_alias: alias.is_some(),
            has_args: args.is_some(),
        },
        _ => SqlRelation::Other,
    };
    SqlTable { relation, has_joins: !entry.joins.is_empty() }
}

fn order_by(order: &Option<OrderBy>) -> Option<SqlOrderBy> {
    order.as_ref().map(|order| match &order.kind {
        OrderByKind::Expressions(exprs) => SqlOrderBy::Expressions(
            exprs
                .iter()
                .map(|e| SqlOrderExpr {
                    expr: expression(&e.expr),
                    asc: match e.options.sort {
                        Some(OrderBySort::Asc) => Some(true),
                        Some(OrderBySort::Desc) => Some(false),
                        _ => None,
                    },
                })
                .collect(),
        ),
        OrderByKind::All(_) => SqlOrderBy::All,
    })
}

fn limit(clause: &Option<LimitClause>) -> Option<SqlLimit> {
    clause.as_ref().map(|clause| match clause {
        LimitClause::LimitOffset { limit, offset, limit_by } => SqlLimit::LimitOffset {
            limit: limit.as_ref().map(expression),
            offset: offset.as_ref().map(|o| expression(&o.value)),
            has_limit_by: !limit_by.is_empty(),
        },
        LimitClause::OffsetCommaLimit { .. } => SqlLimit::OffsetCommaLimit,
    })
}

fn query(query: &Query) -> SqlQuery {
    let body = match query.body.as_ref() {
        SetExpr::Select(select) => SqlBody::Select(SqlSelect {
            projection: select.projection.iter().map(select_item).collect(),
            distinct: select.distinct.is_some(),
            having: select.having.is_some(),
            grouped: !matches!(&select.group_by, GroupByExpr::Expressions(exprs, _) if exprs.is_empty()),
            from: select.from.iter().map(table).collect(),
            selection: select.selection.as_ref().map(expression),
        }),
        _ => SqlBody::Other,
    };
    SqlQuery { body, order_by: order_by(&query.order_by), limit: limit(&query.limit_clause) }
}

fn statement(statement: &Statement) -> SqlStatement {
    match statement {
        Statement::Query(q) => SqlStatement::Query(query(q)),
        _ => SqlStatement::Other,
    }
}


fn sql_to_mql_text(sql: &str) -> Result<MqlQuery, String> {
    sql_to_mql(sql, statement)
}

fn json(s: &str) -> serde_json::Value {
    serde_json::from_str(s).expect("produced output should be valid JSON")
}

fn j(text: &str) -> serde_json::Value {
    serde_json::from_str(text).expect("expected JSON")
}

fn ok(sql: &str) -> MqlQuery {
    match sql_to_mql_text(sql) {
        Ok(val) => val,
        Err(e) => panic!("expected {sql:?} to translate, got error: {e}"),
    }
}

#[test]
fn select_star() {
    let q = ok("SELECT * FROM users");
    assert_eq!(q.collection, "users");
    assert_eq!(json(&q.filter), j(r#"{}"#));
    assert_eq!(json(&q.projection), j(r#"{}"#));
    assert_eq!(json(&q.sort), j(r#"{}"#));
    assert_eq!(q.limit, None);
    assert_eq!(q.skip, None);
}

#[test]
fn projection_columns() {
    let q = ok("SELECT name, age FROM users");
    assert_eq!(json(&q.projection), j(r#"{ "name": 1, "age": 1 }"#));
}

#[test]
fn projection_ignores_alias() {
    let q = ok("SELECT name AS n FROM users");
    assert_eq!(json(&q.projection), j(r#"{ "name": 1 }"#));
}

#[test]
fn equality_filter() {
    let q = ok("SELECT * FROM users WHERE age = 21");
    assert_eq!(json(&q.filter), j(r#"{ "age": 21 }"#));
}

#[test]
fn string_equality() {
    let q = ok("SELECT * FROM users WHERE name = 'John'");
    assert_eq!(json(&q.filter), j(r#"{ "name": "John" }"#));
}

#[test]
fn comparison_operators() {
    assert_eq!(json(&ok("SELECT * FROM t WHERE a >= 18").filter), j(r#"{ "a": { "$gte": 18 } }"#));
    assert_eq!(json(&ok("SELECT * FROM t WHERE a != 5").filter), j(r#"{ "a": { "$ne": 5 } }"#));
    assert_eq!(json(&ok("SELECT * FROM t WHERE a <> 5").filter), j(r#"{ "a": { "$ne": 5 } }"#));
    assert_eq!(json(&ok("SELECT * FROM t WHERE a < 5").filter), j(r#"{ "a": { "$lt": 5 } }"#));
}

#[test]
fn negative_number() {
    let q = ok("SELECT * FROM t WHERE balance < -50");
    assert_eq!(json(&q.filter), j(r#"{ "balance": { "$lt": -50 } }"#));
}

#[test]
fn float_value() {
    let q = ok("SELECT * FROM t WHERE score > 3.5");
    assert_eq!(json(&q.filter), j(r#"{ "score": { "$gt": 3.5 } }"#));
}

#[test]
fn boolean_value() {
    let q = ok("SELECT * FROM t WHERE active = true");
    assert_eq!(json(&q.filter), j(r#"{ "active": true }"#));
}

#[test]
fn and_distinct_fields_merges() {
    let q = ok("SELECT * FROM t WHERE age >= 18 AND active = true");
    assert_eq!(json(&q.filter), j(r#"{ "age": { "$gte": 18 }, "active": true }"#));
}

#[test]
fn and_same_field_uses_and_array() {
    let q = ok("SELECT * FROM t WHERE age > 1 AND age < 10");
    assert_eq!(
        json(&q.filter),
        j(r#"{ "$and": [ { "age": { "$gt": 1 } }, { "age": { "$lt": 10 } } ] }"#)
    );
}

#[test]
fn or_expression() {
    let q = ok("SELECT * FROM t WHERE a = 1 OR b = 2");
    assert_eq!(json(&q.filter), j(r#"{ "$or": [ { "a": 1 }, { "b": 2 } ] }"#));
}

#[test]
fn and_binds_tighter_than_or() {
    let q = ok("SELECT * FROM t WHERE a = 1 AND b = 2 OR c = 3");
    assert_eq!(
        json(&q.filter),
        j(r#"{ "$or": [ { "a": 1, "b": 2 }, { "c": 3 } ] }"#)
    );
}

#[test]
fn parentheses_override_precedence() {
    let q = ok("SELECT * FROM t WHERE (a = 1 OR b = 2) AND c = 3");
    assert_eq!(
        json(&q.filter),
        j(r#"{ "$or": [ { "a": 1 }, { "b": 2 } ], "c": 3 }"#)
    );
}

#[test]
fn like_becomes_anchored_regex() {
    let q = ok("SELECT * FROM t WHERE name LIKE 'jo%'");
    assert_eq!(json(&q.filter), j(r#"{ "name": { "$regex": "^jo.*$" } }"#));
}

#[test]
fn like_underscore_maps_to_dot_and_escapes_meta() {
    let q = ok("SELECT * FROM t WHERE code LIKE 'a_.c%'");
    assert_eq!(json(&q.filter), j(r#"{ "code": { "$regex": "^a.\\.c.*$" } }"#));
}

#[test]
fn not_like() {
    let q = ok("SELECT * FROM t WHERE name NOT LIKE 'x%'");
    assert_eq!(
        json(&q.filter),
        j(r#"{ "name": { "$not": { "$regex": "^x.*$" } } }"#)
    );
}

#[test]
fn in_list() {
    let q = ok("SELECT * FROM t WHERE status IN ('a', 'b', 'c')");
    assert_eq!(json(&q.filter), j(r#"{ "status": { "$in": ["a", "b", "c"] } }"#));
}

#[test]
fn not_in_list() {
    let q = ok("SELECT * FROM t WHERE n NOT IN (1, 2)");
    assert_eq!(json(&q.filter), j(r#"{ "n": { "$nin": [1, 2] } }"#));
}

#[test]
fn is_null_and_is_not_null() {
    assert_eq!(json(&ok("SELECT * FROM t WHERE x IS NULL").filter), j(r#"{ "x": null }"#));
    assert_eq!(
        json(&ok("SELECT * FROM t WHERE x IS NOT NULL").filter),
        j(r#"{ "x": { "$ne": null } }"#)
    );
}

#[test]
fn between() {
    let q = ok("SELECT * FROM t WHERE age BETWEEN 18 AND 65");
    assert_eq!(json(&q.filter), j(r#"{ "age": { "$gte": 18, "$lte": 65 } }"#));
}

#[test]
fn order_by_preserves_key_order() {
    let q = ok("SELECT * FROM t ORDER BY b DESC, a");
    // Sort key order is significant, so assert the exact emitted string.
    assert_eq!(q.sort, "{\n  \"b\": -1,\n  \"a\": 1\n}");
}

#[test]
fn limit_and_offset() {
    let q = ok("SELECT * FROM t LIMIT 10 OFFSET 5");
    assert_eq!(q.limit, Some(10));
    assert_eq!(q.skip, Some(5));
}

#[test]
fn skip_is_an_alias_for_offset() {
    let q = ok("SELECT * FROM t LIMIT 3 SKIP 7");
    assert_eq!(q.limit, Some(3));
    assert_eq!(q.skip, Some(7));
}

#[test]
fn trailing_semicolon_is_accepted() {
    let q = ok("SELECT * FROM users;");
    assert_eq!(q.collection, "users");
}

#[test]
fn case_insensitive_keywords() {
    let q = ok("select * from users where age = 1 order by age desc limit 2");
    assert_eq!(q.collection, "users");
    assert_eq!(q.limit, Some(2));
}

#[test]
fn dotted_field_path() {
    let q = ok("SELECT * FROM t WHERE address.city = 'NYC'");
    assert_eq!(json(&q.filter), j(r#"{ "address.city": "NYC" }"#));
}

// ── Error cases ──
#[test]
fn missing_select() {
    assert!(sql_to_mql_text("FROM users").is_err());
}

#[test]
fn missing_from() {
    assert!(sql_to_mql_text("SELECT *").is_err());
}

#[test]
fn aggregate_function_is_rejected() {
    let err = sql_to_mql_text("SELECT COUNT(*) FROM t").unwrap_err();
    assert!(err.to_lowercase().contains("not supported"));
}

#[test]
fn unterminated_string_errors() {
    assert!(sql_to_mql_text("SELECT * FROM t WHERE name = 'oops").is_err());
}

#[test]
fn empty_in_list_errors() {
    assert!(sql_to_mql_text("SELECT * FROM t WHERE x IN ()").is_err());
}

#[test]
fn trailing_garbage_errors() {
    assert!(sql_to_mql_text("SELECT * FROM t garbage").is_err());
}
