//! Reschema: turning an ordered list of field transforms (rename, remove, change type,
//! move) into the aggregation pipeline that performs them.

use vstd::prelude::*;
use crate::text::{push_str, str_eq, string_of, trim_chars, trimmed};
use crate::error::AppError;
use crate::value::{Value, ValueView, Document, fields_view, single_field, lemma_document_view};

verus! {

/// One reschema transform. All field names are dotted paths (e.g. "contact.email"),
/// so nested moves are just a rename between two dotted paths.
#[derive(Clone, Debug)]
pub enum ReschemaOp {
    /// Copy `from` into `to`, then drop `from`.
    Rename { from: String, to: String },
    /// Drop `field`.
    Remove { field: String },
    /// Convert `field` to `to_type`; a value that cannot be converted is left as is.
    ChangeType { field: String, to_type: String },
    /// Move a nested field: the same stages as a rename.
    Move { from: String, to: String },
}

/// The `$path` reference to the current value at a path.
pub open spec fn field_ref_text(path: Seq<char>) -> Seq<char> {
    seq!['$'] + path
}

/// A `$field` path reference, the aggregation-expression spelling of "the current
/// value at this path".
pub fn field_ref(path: &str) -> (r: String)
    ensures
        r@ == field_ref_text(path@),
{
    let mut out = String::new();
    crate::text::push_char(&mut out, '$');
    push_str(&mut out, path);
    out
}

/// A one-field document stage.
pub open spec fn stage(key: Seq<char>, value: ValueView) -> Seq<(Seq<char>, ValueView)> {
    seq![(key, value)]
}

/// The stages of one transform: a rename or move sets the destination to the
/// source's value and then unsets the source; a removal unsets the field; a type
/// change sets the field to a `$convert` of itself that keeps the original value on
/// error or null.
pub open spec fn op_stages(op: ReschemaOp) -> Seq<Seq<(Seq<char>, ValueView)>> {
    match op {
        ReschemaOp::Rename { from, to } | ReschemaOp::Move { from, to } => seq![
            stage("$set"@, ValueView::Document(seq![(to@, ValueView::Text(field_ref_text(from@)))])),
            stage("$unset"@, ValueView::Text(from@)),
        ],
        ReschemaOp::Remove { field } => seq![stage("$unset"@, ValueView::Text(field@))],
        ReschemaOp::ChangeType { field, to_type } => {
            let r = ValueView::Text(field_ref_text(field@));
            seq![stage("$set"@, ValueView::Document(seq![(field@, ValueView::Document(seq![(
                "$convert"@,
                ValueView::Document(seq![
                    ("input"@, r),
                    ("to"@, ValueView::Text(to_type@)),
                    ("onError"@, r),
                    ("onNull"@, r),
                ]),
            )]))]))]
        },
    }
}

/// The pipeline of a list of transforms: each transform's stages, in order.
pub open spec fn pipeline_of(ops: Seq<ReschemaOp>) -> Seq<Seq<(Seq<char>, ValueView)>>
    decreases ops.len(),
{
    if ops.len() == 0 {
        seq![]
    } else {
        pipeline_of(ops.drop_last()) + op_stages(ops.last())
    }
}

/// The stages by their fields' views.
pub open spec fn stages_view(stages: Seq<Document>) -> Seq<Seq<(Seq<char>, ValueView)>> {
    stages.map_values(|d: Document| fields_view(d@))
}

/// A one-field document.
fn stage_doc(key: &str, value: Value) -> (r: Document)
    ensures
        fields_view(r@) == stage(key@, value@),
{
    let ghost kv = (key@, value@);
    let r: Document = vec![(key.to_owned(), value)];
    assert(fields_view(r@) =~= seq![kv]);
    r
}

/// The stages of one transform.
fn stages_for(op: &ReschemaOp) -> (r: Vec<Document>)
    ensures
        stages_view(r@) == op_stages(*op),
{
    match op {
        ReschemaOp::Rename { from, to } | ReschemaOp::Move { from, to } => {
            let set_value = single_field(to.clone(), Value::Text(field_ref(from.as_str())));
            let first = stage_doc("$set", set_value);
            let second = stage_doc("$unset", Value::Text(from.clone()));
            let ghost a = fields_view(first@);
            let ghost b = fields_view(second@);
            let r = vec![first, second];
            assert(stages_view(r@) =~= seq![a, b]);
            r
        },
        ReschemaOp::Remove { field } => {
            let only = stage_doc("$unset", Value::Text(field.clone()));
            let ghost a = fields_view(only@);
            let r = vec![only];
            assert(stages_view(r@) =~= seq![a]);
            r
        },
        ReschemaOp::ChangeType { field, to_type } => {
            let reference = field_ref(field.as_str());
            let convert_fields: Document = vec![
                ("input".to_owned(), Value::Text(reference.clone())),
                ("to".to_owned(), Value::Text(to_type.clone())),
                ("onError".to_owned(), Value::Text(reference.clone())),
                ("onNull".to_owned(), Value::Text(reference)),
            ];
            let ghost r0 = ValueView::Text(field_ref_text(field@));
            proof {
                lemma_document_view(convert_fields);
                assert(fields_view(convert_fields@) =~= seq![
                    ("input"@, r0),
                    ("to"@, ValueView::Text(to_type@)),
                    ("onError"@, r0),
                    ("onNull"@, r0),
                ]);
            }
            let convert = single_field("$convert".to_owned(), Value::Document(convert_fields));
            let set_value = single_field(field.clone(), convert);
            let only = stage_doc("$set", set_value);
            let ghost a = fields_view(only@);
            let r = vec![only];
            assert(stages_view(r@) =~= seq![a]);
            r
        },
    }
}

/// Build the aggregation pipeline for an ordered list of ops. Pure and DB-free; both
/// preview and apply run whatever this produces.
pub fn build_pipeline(ops: &[ReschemaOp]) -> (r: Vec<Document>)
    ensures
        stages_view(r@) == pipeline_of(ops@),
{
    let mut stages: Vec<Document> = Vec::new();
    let mut i: usize = 0;
    assert(ops@.take(0) =~= Seq::<ReschemaOp>::empty());
    assert(stages_view(stages@) =~= Seq::<Seq<(Seq<char>, ValueView)>>::empty());
    while i < ops.len()
        invariant
            i <= ops@.len(),
            stages_view(stages@) == pipeline_of(ops@.take(i as int)),
        decreases ops@.len() - i,
    {
        let mut more = stages_for(&ops[i]);
        let ghost before = stages_view(stages@);
        let ghost added = stages_view(more@);
        stages.append(&mut more);
        assert(stages_view(stages@) =~= before + added);
        assert(ops@.take(i as int + 1).drop_last() =~= ops@.take(i as int));
        assert(ops@.take(i as int + 1).last() == ops@[i as int]);
        i = i + 1;
    }
    assert(ops@.take(ops@.len() as int) =~= ops@);
    stages
}

/// How many documents a preview samples: the limit asked for, or 20 when it is not
/// positive.
pub open spec fn preview_size(limit: i64) -> i64 {
    if limit <= 0 { 20 } else { limit }
}

/// The preview's sample size.
pub fn preview_sample(limit: i64) -> (r: i64)
    ensures
        r == preview_size(limit),
{
    if limit <= 0 { 20 } else { limit }
}

/// The preview pipeline: a `$limit` to the sample size first, so the "before" and
/// "after" samples cover the same window and the preview never scans the whole
/// collection, then the transforms.
pub fn preview_pipeline(ops: &[ReschemaOp], limit: i64) -> (r: Vec<Document>)
    ensures
        stages_view(r@) == seq![stage("$limit"@, ValueView::Int64(preview_size(limit)))] + pipeline_of(ops@),
{
    let first = stage_doc("$limit", Value::Int64(preview_sample(limit)));
    let ghost a = fields_view(first@);
    let mut stages: Vec<Document> = vec![first];
    assert(stages_view(stages@) =~= seq![a]);
    let mut rest = build_pipeline(ops);
    let ghost b = stages_view(rest@);
    stages.append(&mut rest);
    assert(stages_view(stages@) =~= seq![a] + b);
    stages
}

/// Where an applied reschema writes: `"in_place"` rewrites the source, and
/// `"new_collection"` writes a fresh collection named `new_name`.
#[derive(Clone, Debug)]
pub struct ReschemaTarget {
    pub mode: String,
    pub new_name: Option<String>,
}

/// The stages that run an apply, and the collection whose documents are counted
/// afterwards.
pub struct ApplyPlan {
    pub stages: Vec<Document>,
    pub counted: String,
}

/// The text of an optional string.
pub open spec fn name_view(n: Option<String>) -> Option<Seq<char>> {
    match n {
        Some(t) => Some(t@),
        None => None,
    }
}

/// The new collection's name, trimmed, when one was given that is not blank.
pub open spec fn given_name(new_name: Option<Seq<char>>) -> Option<Seq<char>> {
    match new_name {
        Some(n) => if trimmed(n).len() > 0 { Some(trimmed(n)) } else { None },
        None => None,
    }
}

/// The `$merge` stage of an in-place apply: replace documents matched on `_id`,
/// insert the others.
pub open spec fn merge_stage(collection: Seq<char>) -> Seq<(Seq<char>, ValueView)> {
    stage("$merge"@, ValueView::Document(seq![
        ("into"@, ValueView::Text(collection)),
        ("whenMatched"@, ValueView::Text("replace"@)),
        ("whenNotMatched"@, ValueView::Text("insert"@)),
    ]))
}

/// The stages and the counted collection of an apply, or `None` when it is refused.
pub open spec fn apply_plan_of(
    collection: Seq<char>,
    ops: Seq<ReschemaOp>,
    mode: Seq<char>,
    new_name: Option<Seq<char>>,
) -> Option<(Seq<Seq<(Seq<char>, ValueView)>>, Seq<char>)> {
    if mode == "new_collection"@ {
        match given_name(new_name) {
            Some(n) => if n == collection {
                None
            } else {
                Some((pipeline_of(ops).push(stage("$out"@, ValueView::Text(n))), n))
            },
            None => None,
        }
    } else if mode == "in_place"@ {
        Some((pipeline_of(ops).push(merge_stage(collection)), collection))
    } else {
        None
    }
}

/// The message an apply is refused with.
pub open spec fn apply_refusal(collection: Seq<char>, mode: Seq<char>, new_name: Option<Seq<char>>) -> Seq<char> {
    if mode == "new_collection"@ {
        if given_name(new_name) is None {
            "Enter a name for the new collection"@
        } else {
            "New collection name must differ from the source"@
        }
    } else {
        "Unknown apply mode: "@ + mode
    }
}

/// The trimmed, non-blank new name.
fn present_name(new_name: &Option<String>) -> (r: Option<String>)
    ensures
        name_view(r) == given_name(name_view(*new_name)),
{
    match new_name {
        Some(n) => {
            let t = trim_chars(n.as_str());
            if t.len() > 0 {
                Some(string_of(t.as_slice()))
            } else {
                None
            }
        },
        None => None,
    }
}

/// Plan an apply across the whole collection: the transforms followed by a `$out`
/// to the new collection, or by a `$merge` back into the source (replacing on
/// `_id`). A new-collection apply needs a non-blank name that differs from the
/// source; any other mode is refused.
pub fn apply_plan(collection: &str, ops: &[ReschemaOp], target: &ReschemaTarget) -> (r: Result<ApplyPlan, AppError>)
    ensures
        match r {
            Ok(p) => apply_plan_of(collection@, ops@, target.mode@, name_view(target.new_name))
                == Some((stages_view(p.stages@), p.counted@)),
            Err(e) => {
                &&& apply_plan_of(collection@, ops@, target.mode@, name_view(target.new_name)) is None
                &&& e matches AppError::Validation(m)
                &&& m@ == apply_refusal(collection@, target.mode@, name_view(target.new_name))
            },
        },
{
    let mut stages = build_pipeline(ops);
    let ghost before = stages_view(stages@);
    if str_eq(target.mode.as_str(), "new_collection") {
        let name = match present_name(&target.new_name) {
            Some(n) => n,
            None => return Err(AppError::Validation("Enter a name for the new collection".to_owned())),
        };
        if str_eq(name.as_str(), collection) {
            return Err(AppError::Validation("New collection name must differ from the source".to_owned()));
        }
        let out = stage_doc("$out", Value::Text(name.clone()));
        stages.push(out);
        assert(stages_view(stages@) =~= before.push(fields_view(out@)));
        Ok(ApplyPlan { stages, counted: name })
    } else if str_eq(target.mode.as_str(), "in_place") {
        let merge_fields: Document = vec![
            ("into".to_owned(), Value::Text(collection.to_owned())),
            ("whenMatched".to_owned(), Value::Text("replace".to_owned())),
            ("whenNotMatched".to_owned(), Value::Text("insert".to_owned())),
        ];
        proof {
            lemma_document_view(merge_fields);
            assert(fields_view(merge_fields@) =~= seq![
                ("into"@, ValueView::Text(collection@)),
                ("whenMatched"@, ValueView::Text("replace"@)),
                ("whenNotMatched"@, ValueView::Text("insert"@)),
            ]);
        }
        let merge = stage_doc("$merge", Value::Document(merge_fields));
        stages.push(merge);
        assert(stages_view(stages@) =~= before.push(fields_view(merge@)));
        Ok(ApplyPlan { stages, counted: collection.to_owned() })
    } else {
        let mut message = String::new();
        push_str(&mut message, "Unknown apply mode: ");
        push_str(&mut message, target.mode.as_str());
        Err(AppError::Validation(message))
    }
}

}
