//! Duplicating and copying collections: validating the target and the copy stages.

use vstd::prelude::*;
use crate::text::{trimmed, trim_chars, string_of, str_eq, contains_string, views, push_str};
use crate::value::{Document, Value, ValueView, fields_view, lemma_document_view, push_field};
use crate::error::AppError;

verus! {

/// The outcome of validating a duplicate's target name: `None` when it is accepted,
/// otherwise the message explaining why not.
pub open spec fn target_problem(source: Seq<char>, target: Seq<char>, existing: Seq<Seq<char>>) -> Option<Seq<char>> {
    let name = trimmed(target);
    if name.len() == 0 {
        Some("A target collection name is required"@)
    } else if name == source {
        Some("The copy must have a different name than the source"@)
    } else if existing.contains(name) {
        Some("A collection named '"@ + name + "' already exists"@)
    } else {
        None
    }
}

/// Validate a duplicate target name before touching the server: non-empty after
/// trimming, distinct from the source, and not colliding with an existing collection.
pub fn validate_target(source: &str, target: &str, existing: &[String]) -> (r: Result<(), String>)
    ensures
        match r {
            Ok(()) => target_problem(source@, target@, views(existing@)) is None,
            Err(message) => target_problem(source@, target@, views(existing@)) == Some(message@),
        },
{
    let name_chars = trim_chars(target);
    if name_chars.len() == 0 {
        return Err("A target collection name is required".to_owned());
    }
    let name = string_of(name_chars.as_slice());
    if str_eq(name.as_str(), source) {
        return Err("The copy must have a different name than the source".to_owned());
    }
    if contains_string(existing, &name) {
        let mut message = "A collection named '".to_owned();
        push_str(&mut message, name.as_str());
        push_str(&mut message, "' already exists");
        return Err(message);
    }
    Ok(())
}

/// The stages that copy every document of a collection into `target` on the same
/// database: match everything, then `$out`.
pub fn duplicate_pipeline(target: &str) -> (r: Vec<Document>)
    ensures
        r@.len() == 2,
        fields_view(r@[0]@) == seq![("$match"@, ValueView::Document(seq![]))],
        fields_view(r@[1]@) == seq![("$out"@, ValueView::Text(target@))],
{
    let first = match_everything();
    let second: Document = vec![("$out".to_owned(), Value::Text(target.to_owned()))];
    assert(fields_view(second@) =~= seq![("$out"@, ValueView::Text(target@))]);
    vec![first, second]
}

/// `{ "$match": {} }`.
fn match_everything() -> (r: Document)
    ensures
        fields_view(r@) == seq![("$match"@, ValueView::Document(seq![]))],
{
    let everything: Document = Vec::new();
    assert(fields_view(everything@) =~= Seq::<(Seq<char>, ValueView)>::empty());
    proof {
        lemma_document_view(everything);
    }
    let r: Document = vec![("$match".to_owned(), Value::Document(everything))];
    assert(fields_view(r@) =~= seq![("$match"@, ValueView::Document(seq![]))]);
    r
}

/// The stages that copy every document of a collection into a collection of another
/// database on the same connection (replacing it): match everything, then `$out` to
/// the database and collection.
pub fn copy_pipeline(target_database: &str, target_collection: &str) -> (r: Vec<Document>)
    ensures
        r@.len() == 2,
        fields_view(r@[0]@) == seq![("$match"@, ValueView::Document(seq![]))],
        fields_view(r@[1]@) == seq![("$out"@, ValueView::Document(seq![
            ("db"@, ValueView::Text(target_database@)),
            ("coll"@, ValueView::Text(target_collection@)),
        ]))],
{
    let first = match_everything();
    let mut out: Document = Vec::new();
    assert(fields_view(out@) =~= Seq::<(Seq<char>, ValueView)>::empty());
    push_field(&mut out, "db", Value::Text(target_database.to_owned()));
    push_field(&mut out, "coll", Value::Text(target_collection.to_owned()));
    proof {
        lemma_document_view(out);
    }
    let ghost ov = fields_view(out@);
    assert(ov =~= seq![("db"@, ValueView::Text(target_database@)), ("coll"@, ValueView::Text(target_collection@))]);
    let second: Document = vec![("$out".to_owned(), Value::Document(out))];
    assert(fields_view(second@) =~= seq![("$out"@, ValueView::Document(ov))]);
    vec![first, second]
}

/// Where a collection is: connection, database and collection.
pub struct CollectionRef {
    pub connection: String,
    pub database: String,
    pub collection: String,
}

/// Whether two references name the same collection.
pub open spec fn same_collection(a: CollectionRef, b: CollectionRef) -> bool {
    a.connection@ == b.connection@ && a.database@ == b.database@ && a.collection@ == b.collection@
}

/// Refuse copying a collection onto itself across connections: the target is dropped
/// first, which would wipe the source before anything is read.
pub fn check_copy_target(source: &CollectionRef, target: &CollectionRef) -> (r: Result<(), AppError>)
    ensures
        match r {
            Ok(_) => !same_collection(*source, *target),
            Err(e) => same_collection(*source, *target)
                && (e matches AppError::Validation(m) && m@ == "Source and target are the same collection."@),
        },
{
    if str_eq(source.connection.as_str(), target.connection.as_str())
        && str_eq(source.database.as_str(), target.database.as_str())
        && str_eq(source.collection.as_str(), target.collection.as_str())
    {
        Err(AppError::Validation("Source and target are the same collection.".to_owned()))
    } else {
        Ok(())
    }
}

}
