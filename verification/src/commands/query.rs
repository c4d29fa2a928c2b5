//! The decisions around queries: the page limit, the run tag, update validation, the
//! cap on aggregate results, and the explain and cancel commands.

use vstd::prelude::*;
use crate::error::AppError;
use crate::value::{document_json, field_value, fields_view, json_text, lemma_document_view, push_field, Document, Value, ValueView};
use crate::commands::masking::{find_field, first_index};

verus! {

/// Page size used when a caller sends a non-positive limit.
pub const FIND_LIMIT_FALLBACK: i64 = 1000;

/// How many aggregate results are kept.
pub const AGG_RESULT_CAP: usize = 10000;

/// The limit a find runs with: a positive limit as given, else `FIND_LIMIT_FALLBACK`
/// (a non-positive limit would fetch the whole collection).
pub fn find_limit(limit: i64) -> (r: i64)
    ensures
        r == if limit <= 0 { FIND_LIMIT_FALLBACK } else { limit },
{
    if limit <= 0 { FIND_LIMIT_FALLBACK } else { limit }
}

/// The tag a find or aggregate is run with so it can be cancelled: the comment when it
/// is present and not empty.
pub fn run_comment(comment: Option<String>) -> (r: Option<String>)
    ensures
        match comment {
            Some(c) => if c@.len() > 0 { r == Some(c) } else { r is None },
            None => r is None,
        },
{
    match comment {
        Some(c) => if c.as_str().is_empty() { None } else { Some(c) },
        None => None,
    }
}

/// Whether every top-level key of an update starts with `$` and there is at least one.
pub open spec fn operator_form(update: Seq<(Seq<char>, ValueView)>) -> bool {
    update.len() > 0 && forall|i: int| 0 <= i < update.len() ==> update[i].0.len() > 0 && update[i].0[0] == '$'
}

/// Whether an update document is in operator form (every top-level key starts with
/// `$`, e.g. `{ "$set": … }`); an empty update is not.
pub fn is_operator_update(update: &Document) -> (r: bool)
    ensures
        r == operator_form(fields_view(update@)),
{
    let ghost fv = fields_view(update@);
    if update.len() == 0 {
        return false;
    }
    let mut i: usize = 0;
    while i < update.len()
        invariant
            i <= update@.len(),
            fv == fields_view(update@),
            forall|j: int| 0 <= j < i ==> fv[j].0.len() > 0 && fv[j].0[0] == '$',
        decreases update@.len() - i,
    {
        assert(fv[i as int].0 == update@[i as int].0@);
        if !crate::text::starts_with(update[i].0.as_str(), "$") {
            proof {
                reveal_strlit("$");
                if fv[i as int].0.len() > 0 && fv[i as int].0[0] == '$' {
                    assert("$"@.is_prefix_of(update@[i as int].0@));
                }
            }
            return false;
        }
        proof {
            reveal_strlit("$");
            let key = update@[i as int].0@;
            assert("$"@.len() == 1 && "$"@[0] == '$');
            assert(key.subrange(0, 1) == "$"@);
            assert(key.subrange(0, 1)[0] == key[0]);
        }
        i = i + 1;
    }
    true
}

/// The message for an update that is not in operator form.
pub open spec fn update_form_text() -> Seq<char> {
    "Update must use operators, e.g. { \"$set\": { \"field\": value } }"@
}

/// Refuse a replacement-style (or empty) update before it reaches the server.
pub fn check_update(update: &Document) -> (r: Result<(), AppError>)
    ensures
        r is Ok <==> operator_form(fields_view(update@)),
        r matches Err(e) ==> e == AppError::Bson(e->Bson_0) && e->Bson_0@ == update_form_text(),
{
    if is_operator_update(update) {
        Ok(())
    } else {
        Err(AppError::Bson("Update must use operators, e.g. { \"$set\": { \"field\": value } }".to_owned()))
    }
}

/// Aggregate results being gathered: the documents as JSON text, and whether the cap
/// cut the results short.
pub struct AggregateResult {
    pub documents: Vec<String>,
    pub truncated: bool,
}

impl AggregateResult {
    /// Nothing gathered yet.
    pub fn new() -> (r: AggregateResult)
        ensures
            r.documents@.len() == 0,
            !r.truncated,
    {
        AggregateResult { documents: Vec::new(), truncated: false }
    }

    /// Take the next result document: kept while fewer than `AGG_RESULT_CAP` are held;
    /// one more marks the result truncated and ends the gathering (`false`).
    pub fn take(&mut self, doc: &Document) -> (more: bool)
        ensures
            old(self).documents@.len() < AGG_RESULT_CAP ==> {
                &&& more
                &&& crate::text::views(final(self).documents@)
                    == crate::text::views(old(self).documents@).push(json_text(ValueView::Document(fields_view(doc@))))
                &&& final(self).truncated == old(self).truncated
            },
            old(self).documents@.len() >= AGG_RESULT_CAP ==> {
                &&& !more
                &&& final(self).documents@ == old(self).documents@
                &&& final(self).truncated
            },
    {
        if self.documents.len() >= AGG_RESULT_CAP {
            self.truncated = true;
            return false;
        }
        let text = document_json(doc);
        let ghost before = self.documents@;
        self.documents.push(text);
        assert(crate::text::views(self.documents@) =~= crate::text::views(before).push(text@));
        true
    }
}

/// `fields` followed by `(key, v)` when `cond` holds.
pub open spec fn push_if(fields: Seq<(Seq<char>, ValueView)>, cond: bool, key: Seq<char>, v: ValueView) -> Seq<(Seq<char>, ValueView)> {
    if cond { fields.push((key, v)) } else { fields }
}

/// The `find` command an explain wraps: the collection and filter, then the
/// projection and sort when they are not empty, and the skip and limit when positive.
pub open spec fn find_fields(
    collection: Seq<char>,
    filter: Seq<(Seq<char>, ValueView)>,
    projection: Seq<(Seq<char>, ValueView)>,
    sort: Seq<(Seq<char>, ValueView)>,
    skip: i64,
    limit: i64,
) -> Seq<(Seq<char>, ValueView)> {
    let base = seq![("find"@, ValueView::Text(collection)), ("filter"@, ValueView::Document(filter))];
    let with_projection = push_if(base, projection.len() > 0, "projection"@, ValueView::Document(projection));
    let with_sort = push_if(with_projection, sort.len() > 0, "sort"@, ValueView::Document(sort));
    let with_skip = push_if(with_sort, skip > 0, "skip"@, ValueView::Int64(skip));
    push_if(with_skip, limit > 0, "limit"@, ValueView::Int64(limit))
}

/// The `explain` command for a find: the same optional fields a find uses, reported
/// with execution statistics.
pub fn explain_command(
    collection: &str,
    filter: Document,
    projection: Document,
    sort: Document,
    skip: i64,
    limit: i64,
) -> (r: Document)
    ensures
        fields_view(r@) == seq![
            ("explain"@, ValueView::Document(find_fields(
                collection@,
                fields_view(filter@),
                fields_view(projection@),
                fields_view(sort@),
                skip,
                limit,
            ))),
            ("verbosity"@, ValueView::Text("executionStats"@)),
        ],
{
    let ghost fv = fields_view(filter@);
    let ghost pv = fields_view(projection@);
    let ghost sv = fields_view(sort@);
    proof {
        lemma_document_view(filter);
        lemma_document_view(projection);
        lemma_document_view(sort);
    }
    let mut find: Document = Vec::new();
    push_field(&mut find, "find", Value::Text(collection.to_owned()));
    push_field(&mut find, "filter", Value::Document(filter));
    if projection.len() > 0 {
        push_field(&mut find, "projection", Value::Document(projection));
    }
    if sort.len() > 0 {
        push_field(&mut find, "sort", Value::Document(sort));
    }
    if skip > 0 {
        push_field(&mut find, "skip", Value::Int64(skip));
    }
    if limit > 0 {
        push_field(&mut find, "limit", Value::Int64(limit));
    }
    assert(fields_view(find@) == find_fields(collection@, fv, pv, sv, skip, limit));
    proof {
        lemma_document_view(find);
    }
    let mut command: Document = Vec::new();
    push_field(&mut command, "explain", Value::Document(find));
    push_field(&mut command, "verbosity", Value::Text("executionStats".to_owned()));
    command
}

/// The pipeline that finds the caller's own operations tagged with `comment`.
pub fn current_op_pipeline(comment: &str) -> (r: Vec<Document>)
    ensures
        r@.len() == 2,
        fields_view(r@[0]@) == seq![("$currentOp"@, ValueView::Document(seq![]))],
        fields_view(r@[1]@) == seq![("$match"@, ValueView::Document(seq![("command.comment"@, ValueView::Text(comment@))]))],
{
    let mut current: Document = Vec::new();
    let empty: Document = Vec::new();
    assert(fields_view(current@) =~= Seq::<(Seq<char>, ValueView)>::empty());
    assert(fields_view(empty@) =~= Seq::<(Seq<char>, ValueView)>::empty());
    proof {
        lemma_document_view(empty);
    }
    push_field(&mut current, "$currentOp", Value::Document(empty));
    let mut filter: Document = Vec::new();
    assert(fields_view(filter@) =~= Seq::<(Seq<char>, ValueView)>::empty());
    push_field(&mut filter, "command.comment", Value::Text(comment.to_owned()));
    proof {
        lemma_document_view(filter);
    }
    let mut matching: Document = Vec::new();
    assert(fields_view(matching@) =~= Seq::<(Seq<char>, ValueView)>::empty());
    push_field(&mut matching, "$match", Value::Document(filter));
    assert(fields_view(current@) =~= seq![("$currentOp"@, ValueView::Document(seq![]))]);
    assert(fields_view(matching@) =~= seq![("$match"@, ValueView::Document(seq![("command.comment"@, ValueView::Text(comment@))]))]);
    vec![current, matching]
}

/// The value of a field is the value at its first position.
proof fn lemma_field_value_at(fields: Seq<(Seq<char>, ValueView)>, key: Seq<char>)
    ensures
        match first_index(fields, key) {
            Some(i) => 0 <= i < fields.len() && field_value(fields, key) == Some(fields[i].1),
            None => field_value(fields, key) is None,
        },
    decreases fields.len(),
{
    if fields.len() > 0 && fields[0].0 != key {
        lemma_field_value_at(fields.drop_first(), key);
    }
}

/// The `killOp` command for an operation found by `current_op_pipeline`: its `opid`
/// (an integer on mongod, a "shard:opid" string on mongos) passed back as it is; an
/// operation without one is not killed.
pub fn kill_command_for(op: Document) -> (r: Option<Document>)
    ensures
        match field_value(fields_view(op@), "opid"@) {
            Some(v) => r matches Some(d) && fields_view(d@) == seq![("killOp"@, ValueView::Int32(1)), ("op"@, v)],
            None => r is None,
        },
{
    proof {
        lemma_field_value_at(fields_view(op@), "opid"@);
    }
    match find_field(&op, "opid") {
        Some(i) => {
            let mut op = op;
            let ghost fv = fields_view(op@);
            let (_, opid) = op.remove(i);
            assert(opid@ == fv[i as int].1);
            let mut command: Document = Vec::new();
            push_field(&mut command, "killOp", Value::Int32(1));
            push_field(&mut command, "op", opid);
            Some(command)
        },
        None => None,
    }
}

/// The message for a paste with nothing in it.
pub open spec fn empty_paste_text() -> Seq<char> {
    "Clipboard has no document(s) to paste"@
}

/// Pasted documents: refused when there are none.
pub fn pasted_documents(docs: Vec<Document>) -> (r: Result<Vec<Document>, AppError>)
    ensures
        docs@.len() > 0 ==> r == Ok::<Vec<Document>, AppError>(docs),
        docs@.len() == 0 ==> (r matches Err(AppError::Bson(m)) && m@ == empty_paste_text()),
{
    if docs.len() == 0 {
        Err(AppError::Bson("Clipboard has no document(s) to paste".to_owned()))
    } else {
        Ok(docs)
    }
}

}
