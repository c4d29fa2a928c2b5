//! The parts of a parsed SQL statement that the translation to MongoDB reads: the
//! statement's shape, and its expressions with their SQL text for error messages.

use vstd::prelude::*;

verus! {

/// A literal value.
pub enum SqlLiteral {
    /// A number: its text, and for text with a decimal point, the JSON text of the
    /// double it denotes (`null` when that double is not finite), or `None` when the
    /// text is not a valid double.
    Number { text: String, float_json: Option<String> },
    /// A single- or double-quoted string.
    Str(String),
    Bool(bool),
    Null,
    /// Any other literal, by its SQL text.
    Other(String),
}

/// A binary operator.
pub enum SqlBinOp {
    And,
    Or,
    Eq,
    NotEq,
    Lt,
    LtEq,
    Gt,
    GtEq,
    /// Any other operator, by its SQL text.
    Other(String),
}

/// The form of an expression.
pub enum SqlExprKind {
    /// A bare column.
    Identifier(String),
    /// A dotted column path, by its parts.
    Compound(Vec<String>),
    Literal(SqlLiteral),
    /// Unary minus.
    Minus(Box<SqlExpr>),
    /// Unary plus.
    Plus(Box<SqlExpr>),
    /// A parenthesised expression.
    Nested(Box<SqlExpr>),
    IsNull(Box<SqlExpr>),
    IsNotNull(Box<SqlExpr>),
    Like { negated: bool, any: bool, expr: Box<SqlExpr>, pattern: Box<SqlExpr> },
    InList { expr: Box<SqlExpr>, list: Vec<SqlExpr>, negated: bool },
    Between { expr: Box<SqlExpr>, negated: bool, low: Box<SqlExpr>, high: Box<SqlExpr> },
    Binary { left: Box<SqlExpr>, op: SqlBinOp, right: Box<SqlExpr> },
    /// A function call.
    Function,
    /// Anything else.
    Other,
}

/// An expression and its SQL text.
pub struct SqlExpr {
    pub kind: SqlExprKind,
    pub text: String,
}

/// One item of the SELECT list.
pub enum SqlSelectItem {
    /// `*`
    Wildcard,
    /// An expression without an alias.
    Unnamed(SqlExpr),
    /// An expression with `AS alias`.
    Aliased(SqlExpr),
    /// Any other item, by its SQL text.
    Other(String),
}

/// What a FROM entry names.
pub enum SqlRelation {
    /// A table, by the identifier parts of its name.
    Table { name: Vec<String>, has_alias: bool, has_args: bool },
    /// Anything else (a subquery, a function, ...).
    Other,
}

/// One FROM entry.
pub struct SqlTable {
    pub relation: SqlRelation,
    pub has_joins: bool,
}

/// One ORDER BY expression; `asc` is `Some(false)` for DESC.
pub struct SqlOrderExpr {
    pub expr: SqlExpr,
    pub asc: Option<bool>,
}

/// An ORDER BY clause.
pub enum SqlOrderBy {
    Expressions(Vec<SqlOrderExpr>),
    /// `ORDER BY ALL`
    All,
}

/// A LIMIT clause.
pub enum SqlLimit {
    /// `LIMIT n [BY ...] [OFFSET m]`
    LimitOffset { limit: Option<SqlExpr>, offset: Option<SqlExpr>, has_limit_by: bool },
    /// `LIMIT offset, count`
    OffsetCommaLimit,
}

/// A SELECT.
pub struct SqlSelect {
    pub projection: Vec<SqlSelectItem>,
    pub distinct: bool,
    pub having: bool,
    /// Whether it has a GROUP BY (anything but an empty expression list).
    pub grouped: bool,
    pub from: Vec<SqlTable>,
    pub selection: Option<SqlExpr>,
}

/// The body of a query.
pub enum SqlBody {
    Select(SqlSelect),
    /// A set operation, VALUES, ...
    Other,
}

/// A query.
pub struct SqlQuery {
    pub body: SqlBody,
    pub order_by: Option<SqlOrderBy>,
    pub limit: Option<SqlLimit>,
}

/// A statement.
pub enum SqlStatement {
    Query(SqlQuery),
    /// Any statement that is not a query.
    Other,
}

}
