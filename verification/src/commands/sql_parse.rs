//! Parsing SQL text with `sqlparser` and translating it: the text goes through the
//! `SKIP` rewrite and the parser here; each parsed statement is read into the
//! library's SQL model by the converter the caller supplies; the model is then
//! translated by `translate_statements`.

use vstd::prelude::*;
use sqlparser::ast::Statement;
use sqlparser::dialect::GenericDialect;
use sqlparser::parser::Parser;
use crate::commands::sql::{mql_view, normalize_skip, skip_rewritten, translate_statements, translation, MqlQuery};
use crate::commands::sql_model::SqlStatement;

verus! {

/// A statement as sqlparser builds it; the library reads it only through a converter.
#[verifier::external_type_specification]
#[verifier::external_body]
pub struct ExStatement(Statement);

/// What sqlparser's generic dialect makes of a text: how many statements it parses,
/// or its error message.
pub uninterp spec fn sql_parse_outcome(sql: Seq<char>) -> Result<nat, Seq<char>>;

/// Parse SQL with sqlparser's `Parser::parse_sql` in the generic dialect. Claimed:
/// the outcome (the number of statements, or the error's display text) is a function
/// of the text alone; the statements themselves are opaque here.
#[verifier::external_body]
fn parse_statements(sql: &str) -> (r: Result<Vec<Statement>, String>)
    ensures
        match r {
            Ok(v) => sql_parse_outcome(sql@) == Ok::<nat, Seq<char>>(v@.len()),
            Err(m) => sql_parse_outcome(sql@) == Err::<nat, Seq<char>>(m@),
        },
{
    match Parser::parse_sql(&GenericDialect {}, sql) {
        Ok(statements) => Ok(statements),
        Err(e) => Err(e.to_string()),
    }
}

/// Whether `models` are what `convert` gives for `statements`, one for one.
pub open spec fn converts<F: Fn(&Statement) -> SqlStatement>(
    convert: F,
    statements: Seq<Statement>,
    models: Seq<SqlStatement>,
) -> bool {
    &&& statements.len() == models.len()
    &&& forall|i: int| 0 <= i < statements.len() ==> #[trigger] convert.ensures((&statements[i],), models[i])
}

/// Whether `r` is the translation of `parsed`, as `translate_statements` gives it.
pub open spec fn translated(r: Result<MqlQuery, String>, parsed: Result<Seq<SqlStatement>, Seq<char>>) -> bool {
    match (r, translation(parsed)) {
        (Ok(q), Ok(v)) => mql_view(q) == v,
        (Err(m), Err(n)) => m@ == n,
        _ => false,
    }
}

/// Translate a simple SQL SELECT into the pieces of a MongoDB find query: the text's
/// bare `SKIP` is rewritten to `OFFSET`, the result is parsed, each statement is read
/// into the model by `convert`, and the model is translated. A parse error is
/// returned as the parser's message.
pub fn sql_to_mql<F: Fn(&Statement) -> SqlStatement>(sql: &str, convert: F) -> (r: Result<MqlQuery, String>)
    requires
        forall|s: Statement| #[trigger] convert.requires((&s,)),
    ensures
        match sql_parse_outcome(skip_rewritten(sql@, 0, None)) {
            Err(m) => r matches Err(e) && e@ == m,
            Ok(n) => exists|statements: Seq<Statement>, models: Seq<SqlStatement>|
                statements.len() == n && #[trigger] converts(convert, statements, models)
                    && translated(r, Ok(models)),
        },
{
    let normalized = normalize_skip(sql);
    match parse_statements(normalized.as_str()) {
        Err(m) => Err(m),
        Ok(statements) => {
            let mut models: Vec<SqlStatement> = Vec::new();
            let mut i: usize = 0;
            while i < statements.len()
                invariant
                    i <= statements@.len(),
                    models@.len() == i,
                    forall|s: Statement| #[trigger] convert.requires((&s,)),
                    forall|k: int| 0 <= k < i ==> #[trigger] convert.ensures((&statements@[k],), models@[k]),
                decreases statements@.len() - i,
            {
                let model = convert(&statements[i]);
                models.push(model);
                i = i + 1;
            }
            let ghost mv = models@;
            let r = translate_statements(Ok(models));
            assert(converts(convert, statements@, mv));
            assert(translated(r, Ok(mv)));
            r
        },
    }
}

}
