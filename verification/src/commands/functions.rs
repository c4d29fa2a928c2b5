//! Server-side JavaScript: reading and writing a database's stored functions
//! (`system.js`) and the `mapReduce` command.

use vstd::prelude::*;
use crate::value::{Value, ValueView, Document, OtherText, fields_view, field_value, get_field, json_quoted, json_string, push_field, single_field};
use crate::text::{push_str, str_eq, string_of, trim_chars, trimmed};
use crate::commands::compare::{display_of, display_text};

verus! {

/// A server-side stored function: its name and JavaScript source.
pub struct StoredFunction {
    pub name: String,
    pub body: String,
}

/// The source held by a stored function's `value`: the code of JavaScript (with or
/// without scope), a string as it is, and nothing otherwise.
pub open spec fn code_of(value: Option<ValueView>) -> Seq<char> {
    match value {
        Some(ValueView::Other { kind, display, .. }) =>
            if kind == "javascript"@ || kind == "javascriptWithScope"@ { display } else { Seq::empty() },
        Some(ValueView::Text(t)) => t,
        _ => Seq::empty(),
    }
}

/// The JavaScript source of a `value` field.
pub fn code_to_string(value: Option<&Value>) -> (r: String)
    ensures
        r@ == code_of(match value { Some(v) => Some(v@), None => None }),
{
    match value {
        Some(Value::Other(o)) => {
            if str_eq(o.kind.as_str(), "javascript") || str_eq(o.kind.as_str(), "javascriptWithScope") {
                o.display.clone()
            } else {
                String::new()
            }
        },
        Some(Value::Text(t)) => t.clone(),
        _ => String::new(),
    }
}

/// The name of a stored function: its `_id`, a string as it is and any other value
/// as BSON displays it.
pub open spec fn function_name(id: ValueView) -> Seq<char> {
    match id {
        ValueView::Text(t) => t,
        _ => display_of(id),
    }
}

/// A `system.js` document as a stored function; one without an `_id` is skipped.
pub fn stored_function(doc: &Document) -> (r: Option<StoredFunction>)
    ensures
        match field_value(fields_view(doc@), "_id"@) {
            Some(id) => r matches Some(f) && f.name@ == function_name(id)
                && f.body@ == code_of(field_value(fields_view(doc@), "value"@)),
            None => r is None,
        },
{
    let name = match get_field(doc, "_id") {
        Some(Value::Text(t)) => t.clone(),
        Some(other) => display_text(other),
        None => return None,
    };
    let body = code_to_string(get_field(doc, "value"));
    Some(StoredFunction { name, body })
}

/// JavaScript code as a value: by its source, written in extended JSON as `{"$code": ...}`.
pub open spec fn code_value(code: Seq<char>) -> ValueView {
    ValueView::Other { kind: "javascript"@, display: code, json: "{\"$code\":"@ + json_quoted(code) + "}"@ }
}

/// A value holding JavaScript code.
pub fn javascript_code(code: String) -> (r: Value)
    ensures
        r@ == code_value(code@),
{
    let mut json = "{\"$code\":".to_owned();
    let quoted = json_string(code.as_str());
    push_str(&mut json, quoted.as_str());
    push_str(&mut json, "}");
    Value::Other(OtherText { kind: "javascript".to_owned(), display: code, json })
}

/// The update that stores a function's source: `{ $set: { value: Code(body) } }`.
pub fn save_function_update(body: String) -> (r: Document)
    ensures
        fields_view(r@) == seq![("$set"@, ValueView::Document(seq![("value"@, code_value(body@))]))],
{
    let inner = single_field("value".to_owned(), javascript_code(body));
    let ghost iv = inner@;
    let r: Document = vec![("$set".to_owned(), inner)];
    assert(fields_view(r@) =~= seq![("$set"@, iv)]);
    r
}

/// Where a map-reduce writes: inline (results returned) when the output collection is
/// blank, else into that collection, trimmed.
pub open spec fn map_reduce_out(out_collection: Seq<char>) -> ValueView {
    if trimmed(out_collection).len() == 0 {
        ValueView::Document(seq![("inline"@, ValueView::Int32(1))])
    } else {
        ValueView::Text(trimmed(out_collection))
    }
}

/// The `mapReduce` command: the collection, the map and reduce functions, where to
/// write, and the finalize function when it is not blank.
pub open spec fn map_reduce_fields(
    collection: Seq<char>,
    map: Seq<char>,
    reduce: Seq<char>,
    finalize: Seq<char>,
    out_collection: Seq<char>,
) -> Seq<(Seq<char>, ValueView)> {
    let base = seq![
        ("mapReduce"@, ValueView::Text(collection)),
        ("map"@, code_value(map)),
        ("reduce"@, code_value(reduce)),
        ("out"@, map_reduce_out(out_collection)),
    ];
    if trimmed(finalize).len() == 0 { base } else { base.push(("finalize"@, code_value(finalize))) }
}

/// Build the `mapReduce` command.
pub fn map_reduce_command(
    collection: &str,
    map: String,
    reduce: String,
    finalize: String,
    out_collection: &str,
) -> (r: Document)
    ensures
        fields_view(r@) == map_reduce_fields(collection@, map@, reduce@, finalize@, out_collection@),
{
    let out_name = trim_chars(out_collection);
    let out = if out_name.len() == 0 {
        single_field("inline".to_owned(), Value::Int32(1))
    } else {
        Value::Text(string_of(out_name.as_slice()))
    };
    let ghost fin = finalize@;
    let mut command: Document = Vec::new();
    assert(fields_view(command@) =~= Seq::<(Seq<char>, ValueView)>::empty());
    push_field(&mut command, "mapReduce", Value::Text(collection.to_owned()));
    push_field(&mut command, "map", javascript_code(map));
    push_field(&mut command, "reduce", javascript_code(reduce));
    push_field(&mut command, "out", out);
    if trim_chars(finalize.as_str()).len() > 0 {
        push_field(&mut command, "finalize", javascript_code(finalize));
    }
    command
}

}
