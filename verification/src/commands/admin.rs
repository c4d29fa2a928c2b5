//! Collection administration: the index-management guard and the `create` command
//! for new (capped or time-series) collections.

use vstd::prelude::*;
use crate::text::{push_str, str_eq, trim_chars, trimmed};
use crate::value::{Value, ValueView, Document, fields_view, lemma_document_view, field_value, get_field, push_field};
use crate::error::AppError;

verus! {

/// The `_id_` index is created and required by MongoDB and can never be dropped,
/// hidden, or otherwise modified.
pub fn is_protected_index(name: &str) -> (r: bool)
    ensures
        r == (name@ == "_id_"@),
{
    str_eq(name, "_id_")
}

/// Options for a new collection: capped (with a size in bytes and an optional document
/// limit) and/or time-series (with its time field, optional meta field and granularity,
/// and an optional expiry).
pub struct NewCollectionOptions {
    pub capped: bool,
    pub size: Option<i64>,
    pub max: Option<i64>,
    pub time_field: Option<String>,
    pub meta_field: Option<String>,
    pub granularity: Option<String>,
    pub expire_after_seconds: Option<i64>,
}

/// The message for a capped collection without a positive size.
pub open spec fn capped_size_text() -> Seq<char> {
    "A capped collection needs a size greater than zero"@
}

/// The message for a time-series collection with a blank time field.
pub open spec fn time_field_text() -> Seq<char> {
    "A time-series collection needs a time field"@
}

/// A value that is present and not empty.
pub open spec fn present(s: Option<String>) -> Option<Seq<char>> {
    match s {
        Some(t) => if t@.len() > 0 { Some(t@) } else { None },
        None => None,
    }
}

/// A value that is present and positive.
pub open spec fn positive(n: Option<i64>) -> Option<i64> {
    match n {
        Some(v) => if v > 0 { Some(v) } else { None },
        None => None,
    }
}

/// `fields` followed by `(key, v)` when `v` is present.
pub open spec fn with_opt(fields: Seq<(Seq<char>, ValueView)>, key: Seq<char>, v: Option<ValueView>) -> Seq<(Seq<char>, ValueView)> {
    match v {
        Some(x) => fields.push((key, x)),
        None => fields,
    }
}

/// The time-series sub-document: the time field, then the meta field and granularity
/// when they are not empty.
pub open spec fn timeseries_fields(time: Seq<char>, o: NewCollectionOptions) -> Seq<(Seq<char>, ValueView)> {
    let base = seq![("timeField"@, ValueView::Text(time))];
    let with_meta = with_opt(base, "metaField"@, match present(o.meta_field) { Some(m) => Some(ValueView::Text(m)), None => None });
    with_opt(with_meta, "granularity"@, match present(o.granularity) { Some(g) => Some(ValueView::Text(g)), None => None })
}

/// The `create` command for a new collection: `create` names it; a capped collection
/// adds `capped`, its `size` (which must be positive) and `max` when positive; a
/// time-series collection (time field given, which must not be blank) adds its
/// `timeseries` settings and `expireAfterSeconds` when positive.
pub open spec fn create_command(name: Seq<char>, options: Option<NewCollectionOptions>) -> Result<Seq<(Seq<char>, ValueView)>, Seq<char>> {
    let base = seq![("create"@, ValueView::Text(name))];
    match options {
        None => Ok(base),
        Some(o) => {
            let capped = if o.capped {
                match positive(o.size) {
                    None => Err(capped_size_text()),
                    Some(size) => Ok(with_opt(
                        base.push(("capped"@, ValueView::Bool(true))).push(("size"@, ValueView::Int64(size))),
                        "max"@,
                        match positive(o.max) { Some(m) => Some(ValueView::Int64(m)), None => None },
                    )),
                }
            } else {
                Ok(base)
            };
            match capped {
                Err(m) => Err(m),
                Ok(fields) => match o.time_field {
                    None => Ok(fields),
                    Some(t) => if trimmed(t@).len() == 0 {
                        Err(time_field_text())
                    } else {
                        Ok(with_opt(
                            fields.push(("timeseries"@, ValueView::Document(timeseries_fields(t@, o)))),
                            "expireAfterSeconds"@,
                            match positive(o.expire_after_seconds) { Some(e) => Some(ValueView::Int64(e)), None => None },
                        ))
                    },
                },
            }
        },
    }
}

/// A copy of an optional text that is present and not empty.
fn present_text(s: &Option<String>) -> (r: Option<String>)
    ensures
        match (r, present(*s)) {
            (Some(a), Some(b)) => a@ == b,
            (None, None) => true,
            _ => false,
        },
{
    match s {
        Some(t) => if t.as_str().is_empty() { None } else { Some(t.clone()) },
        None => None,
    }
}

/// Build the `create` command for a new collection from its options.
pub fn build_create_command(name: &str, options: Option<NewCollectionOptions>) -> (r: Result<Document, AppError>)
    ensures
        match (r, create_command(name@, options)) {
            (Ok(d), Ok(f)) => fields_view(d@) == f,
            (Err(AppError::Validation(m)), Err(n)) => m@ == n,
            _ => false,
        },
{
    let mut command: Document = Vec::new();
    push_field(&mut command, "create", Value::Text(name.to_owned()));
    assert(fields_view(command@) =~= seq![("create"@, ValueView::Text(name@))]);
    let o = match options {
        None => return Ok(command),
        Some(o) => o,
    };
    if o.capped {
        let size = match o.size {
            Some(v) => if v > 0 { v } else { return Err(AppError::Validation("A capped collection needs a size greater than zero".to_owned())) },
            None => return Err(AppError::Validation("A capped collection needs a size greater than zero".to_owned())),
        };
        push_field(&mut command, "capped", Value::Bool(true));
        push_field(&mut command, "size", Value::Int64(size));
        match o.max {
            Some(m) => if m > 0 { push_field(&mut command, "max", Value::Int64(m)); },
            None => {},
        }
    }
    match &o.time_field {
        None => {},
        Some(t) => {
            let tt = trim_chars(t.as_str());
            if tt.len() == 0 {
                return Err(AppError::Validation("A time-series collection needs a time field".to_owned()));
            }
            let mut series: Document = Vec::new();
            push_field(&mut series, "timeField", Value::Text(t.clone()));
            assert(fields_view(series@) =~= seq![("timeField"@, ValueView::Text(t@))]);
            match present_text(&o.meta_field) {
                Some(m) => push_field(&mut series, "metaField", Value::Text(m)),
                None => {},
            }
            match present_text(&o.granularity) {
                Some(g) => push_field(&mut series, "granularity", Value::Text(g)),
                None => {},
            }
            proof {
                lemma_document_view(series);
            }
            push_field(&mut command, "timeseries", Value::Document(series));
            match o.expire_after_seconds {
                Some(e) => if e > 0 { push_field(&mut command, "expireAfterSeconds", Value::Int64(e)); },
                None => {},
            }
        },
    }
    Ok(command)
}

}

verus! {

/// A collection's schema-validation settings: the validator document pretty-printed,
/// the validation level and action, each when set.
#[derive(Debug)]
pub struct ValidatorInfo {
    pub validator: Option<String>,
    pub validation_level: Option<String>,
    pub validation_action: Option<String>,
}

/// The options of the collection a `listCollections` result describes first
/// (`cursor.firstBatch[0].options`), when every step is there with the expected type.
pub open spec fn listed_options(result: Seq<(Seq<char>, ValueView)>) -> Option<Seq<(Seq<char>, ValueView)>> {
    match field_value(result, "cursor"@) {
        Some(ValueView::Document(c)) => match field_value(c, "firstBatch"@) {
            Some(ValueView::Array(batch)) => if batch.len() > 0 {
                match batch[0] {
                    ValueView::Document(e) => match field_value(e, "options"@) {
                        Some(ValueView::Document(o)) => Some(o),
                        _ => None,
                    },
                    _ => None,
                }
            } else {
                None
            },
            _ => None,
        },
        _ => None,
    }
}

/// The options of the first listed collection.
fn first_options(result: &Document) -> (r: Option<&Document>)
    ensures
        match r {
            Some(o) => listed_options(fields_view(result@)) == Some(fields_view(o@)),
            None => listed_options(fields_view(result@)) is None,
        },
{
    match get_field(result, "cursor") {
        Some(Value::Document(c)) => {
            proof {
                lemma_document_view(*c);
            }
            match get_field(c, "firstBatch") {
                Some(Value::Array(batch)) => {
                    proof {
                        crate::value::lemma_array_view(*batch);
                    }
                    if batch.len() == 0 {
                        return None;
                    }
                    match &batch[0] {
                        Value::Document(e) => {
                            proof {
                                lemma_document_view(*e);
                            }
                            match get_field(e, "options") {
                                Some(Value::Document(o)) => {
                                    proof {
                                        lemma_document_view(*o);
                                    }
                                    Some(o)
                                },
                                _ => None,
                            }
                        },
                        _ => None,
                    }
                },
                _ => None,
            }
        },
        _ => None,
    }
}

/// Read a collection's current schema validator from a `listCollections` result so
/// the validator editor can prefill; every field is empty when the result does not
/// describe the collection's options. The validator is shown when it is a non-empty
/// document, pretty-printed as JSON.
pub fn validator_info(result: &Document) -> (r: ValidatorInfo)
    ensures
        match listed_options(fields_view(result@)) {
            None => r.validator is None && r.validation_level is None && r.validation_action is None,
            Some(o) => {
                &&& match field_value(o, "validator"@) {
                    Some(ValueView::Document(v)) => if v.len() > 0 {
                        match r.validator {
                            Some(t) => crate::commands::export::pretty_of(crate::value::json_text(ValueView::Document(v))) == Some(t@),
                            None => crate::commands::export::pretty_of(crate::value::json_text(ValueView::Document(v))) is None,
                        }
                    } else {
                        r.validator is None
                    },
                    _ => r.validator is None,
                }
                &&& match r.validation_level {
                    Some(t) => crate::value::text_value(field_value(o, "validationLevel"@)) == Some(t@),
                    None => crate::value::text_value(field_value(o, "validationLevel"@)) is None,
                }
                &&& match r.validation_action {
                    Some(t) => crate::value::text_value(field_value(o, "validationAction"@)) == Some(t@),
                    None => crate::value::text_value(field_value(o, "validationAction"@)) is None,
                }
            },
        },
{
    let options = match first_options(result) {
        Some(o) => o,
        None => return ValidatorInfo { validator: None, validation_level: None, validation_action: None },
    };
    let validator = match get_field(options, "validator") {
        Some(Value::Document(v)) => {
            proof {
                lemma_document_view(*v);
            }
            if v.len() > 0 {
                let compact = crate::value::document_json(v);
                crate::commands::export::pretty_json(compact.as_str())
            } else {
                None
            }
        },
        _ => None,
    };
    ValidatorInfo {
        validator,
        validation_level: crate::value::text_field_of(options, "validationLevel"),
        validation_action: crate::value::text_field_of(options, "validationAction"),
    }
}

/// A database as the explorer lists it: its collections, and whether they could be
/// listed at all.
pub struct DatabaseInfo {
    pub name: String,
    pub collections: Vec<String>,
    pub accessible: bool,
}

/// One listed database: with its collections when listing them succeeded, or with
/// none and marked inaccessible when it failed.
pub fn database_info(name: String, collections: Option<Vec<String>>) -> (r: DatabaseInfo)
    ensures
        r.name == name,
        match collections {
            Some(c) => r.collections@ == c@ && r.accessible,
            None => r.collections@.len() == 0 && !r.accessible,
        },
{
    match collections {
        Some(c) => DatabaseInfo { name, collections: c, accessible: true },
        None => DatabaseInfo { name, collections: Vec::new(), accessible: false },
    }
}

/// The message refusing an action on the protected index.
pub open spec fn index_refusal_text(name: Seq<char>, verb: Seq<char>) -> Seq<char> {
    "The \""@ + name + "\" index cannot be "@ + verb + "."@
}

/// The refusal for `name` and `verb`.
fn index_refusal(name: &str, verb: &str) -> (r: AppError)
    ensures
        r matches AppError::Validation(m) && m@ == index_refusal_text(name@, verb@),
{
    let mut m = String::new();
    push_str(&mut m, "The \"");
    push_str(&mut m, name);
    push_str(&mut m, "\" index cannot be ");
    push_str(&mut m, verb);
    push_str(&mut m, ".");
    AppError::Validation(m)
}

/// Whether an index may be dropped: every index but `_id_`.
pub fn check_index_droppable(name: &str) -> (r: Result<(), AppError>)
    ensures
        match r {
            Ok(_) => name@ != "_id_"@,
            Err(e) => name@ == "_id_"@ && (e matches AppError::Validation(m) && m@ == index_refusal_text(name@, "dropped"@)),
        },
{
    if is_protected_index(name) {
        Err(index_refusal(name, "dropped"))
    } else {
        Ok(())
    }
}

/// Whether an index may be hidden or shown: every index but `_id_`.
pub fn check_index_hideable(name: &str) -> (r: Result<(), AppError>)
    ensures
        match r {
            Ok(_) => name@ != "_id_"@,
            Err(e) => name@ == "_id_"@ && (e matches AppError::Validation(m) && m@ == index_refusal_text(name@, "hidden"@)),
        },
{
    if is_protected_index(name) {
        Err(index_refusal(name, "hidden"))
    } else {
        Ok(())
    }
}

/// The `collMod` command that sets or clears an index's `hidden` flag.
pub fn hide_index_command(collection: &str, name: &str, hidden: bool) -> (r: Document)
    ensures
        fields_view(r@) == seq![
            ("collMod"@, ValueView::Text(collection@)),
            ("index"@, ValueView::Document(seq![("name"@, ValueView::Text(name@)), ("hidden"@, ValueView::Bool(hidden))])),
        ],
{
    let mut index: Document = Vec::new();
    push_field(&mut index, "name", Value::Text(name.to_owned()));
    push_field(&mut index, "hidden", Value::Bool(hidden));
    proof {
        lemma_document_view(index);
    }
    let ghost iv = fields_view(index@);
    let mut command: Document = Vec::new();
    push_field(&mut command, "collMod", Value::Text(collection.to_owned()));
    push_field(&mut command, "index", Value::Document(index));
    assert(iv =~= seq![("name"@, ValueView::Text(name@)), ("hidden"@, ValueView::Bool(hidden))]);
    command
}

/// The index name to create with: none when the given one is blank, so the server
/// derives one from the key spec.
pub fn index_name(name: String) -> (r: Option<String>)
    ensures
        match r {
            Some(n) => n == name && trimmed(name@).len() > 0,
            None => trimmed(name@).len() == 0,
        },
{
    if trim_chars(name.as_str()).len() == 0 {
        None
    } else {
        Some(name)
    }
}

/// The documents as array elements.
pub open spec fn stage_values(stages: Seq<Document>) -> Seq<ValueView> {
    stages.map_values(|d: Document| ValueView::Document(fields_view(d@)))
}

/// The `create` command for a view: its name, the collection it reads and its
/// aggregation pipeline.
pub fn view_command(name: &str, view_on: &str, stages: Vec<Document>) -> (r: Document)
    ensures
        fields_view(r@) == seq![
            ("create"@, ValueView::Text(name@)),
            ("viewOn"@, ValueView::Text(view_on@)),
            ("pipeline"@, ValueView::Array(stage_values(stages@))),
        ],
{
    let ghost expected = stage_values(stages@);
    let mut items: Vec<Value> = Vec::new();
    let mut rest = stages;
    let ghost all = rest@;
    let ghost mut i: int = 0;
    while rest.len() > 0
        invariant
            0 <= i,
            i + rest@.len() == all.len(),
            rest@ == all.subrange(i, all.len() as int),
            items@.map_values(|v: Value| v@) == stage_values(all.take(i)),
        decreases rest@.len(),
    {
        let d = rest.remove(0);
        proof {
            lemma_document_view(d);
            assert(d == all[i]);
        }
        let ghost before = items@.map_values(|v: Value| v@);
        items.push(Value::Document(d));
        assert(items@.map_values(|v: Value| v@) =~= before.push(ValueView::Document(fields_view(all[i]@))));
        assert(all.take(i + 1) =~= all.take(i).push(all[i]));
        assert(stage_values(all.take(i + 1)) =~= stage_values(all.take(i)).push(ValueView::Document(fields_view(all[i]@))));
        proof {
            i = i + 1;
        }
        assert(rest@ =~= all.subrange(i, all.len() as int));
    }
    assert(all.take(i) =~= all);
    proof {
        crate::value::lemma_array_view(items);
    }
    let mut command: Document = Vec::new();
    push_field(&mut command, "create", Value::Text(name.to_owned()));
    push_field(&mut command, "viewOn", Value::Text(view_on.to_owned()));
    push_field(&mut command, "pipeline", Value::Array(items));
    command
}

/// The `collMod` command that sets a collection's validator, level and action (an
/// empty validator clears the rule).
pub fn set_validator_command(collection: &str, validator: Document, level: &str, action: &str) -> (r: Document)
    ensures
        fields_view(r@) == seq![
            ("collMod"@, ValueView::Text(collection@)),
            ("validator"@, ValueView::Document(fields_view(validator@))),
            ("validationLevel"@, ValueView::Text(level@)),
            ("validationAction"@, ValueView::Text(action@)),
        ],
{
    proof {
        lemma_document_view(validator);
    }
    let mut command: Document = Vec::new();
    push_field(&mut command, "collMod", Value::Text(collection.to_owned()));
    push_field(&mut command, "validator", Value::Document(validator));
    push_field(&mut command, "validationLevel", Value::Text(level.to_owned()));
    push_field(&mut command, "validationAction", Value::Text(action.to_owned()));
    command
}

/// A fully qualified namespace, `database.collection`.
pub fn namespace(database: &str, collection: &str) -> (r: String)
    ensures
        r@ == database@ + "."@ + collection@,
{
    let mut name = database.to_owned();
    push_str(&mut name, ".");
    push_str(&mut name, collection);
    name
}

/// The admin `renameCollection` command, which takes fully qualified namespaces on
/// both sides; the collection stays in its database.
pub fn rename_command(database: &str, collection: &str, new_name: &str) -> (r: Document)
    ensures
        fields_view(r@) == seq![
            ("renameCollection"@, ValueView::Text(database@ + "."@ + collection@)),
            ("to"@, ValueView::Text(database@ + "."@ + new_name@)),
        ],
{
    let mut command: Document = Vec::new();
    assert(fields_view(command@) =~= Seq::<(Seq<char>, ValueView)>::empty());
    push_field(&mut command, "renameCollection", Value::Text(namespace(database, collection)));
    push_field(&mut command, "to", Value::Text(namespace(database, new_name)));
    command
}

}
