//! What is done with extended-JSON text from the frontend around its decoding: which
//! text is decoded at all, and how the decoded value is accepted as a document, a
//! pipeline of stages, or documents to import.

use vstd::prelude::*;
use crate::error::AppError;
use crate::text::{push_str, string_of, trim_chars, trimmed};
use crate::value::{fields_view, Document, Value, ValueView};

verus! {

/// The trimmed text when it holds something to decode: `None` when it is blank or is
/// exactly `skip` (the empty document `{}` or the empty pipeline `[]`).
pub open spec fn decodable(text: Seq<char>, skip: Seq<char>) -> Option<Seq<char>> {
    let t = trimmed(text);
    if t.len() == 0 || t == skip { None } else { Some(t) }
}

fn decodable_text(text: &str, skip: &str) -> (r: Option<String>)
    ensures
        match r {
            Some(t) => decodable(text@, skip@) == Some(t@),
            None => decodable(text@, skip@) is None,
        },
{
    let cs = trim_chars(text);
    if cs.len() == 0 {
        return None;
    }
    let t = string_of(cs.as_slice());
    if crate::text::str_eq(t.as_str(), skip) { None } else { Some(t) }
}

/// The text of a query document to decode; `None` means the empty document.
pub fn ejson_input(ejson: &str) -> (r: Option<String>)
    ensures
        match r {
            Some(t) => decodable(ejson@, "{}"@) == Some(t@),
            None => decodable(ejson@, "{}"@) is None,
        },
{
    decodable_text(ejson, "{}")
}

/// The text of a pipeline to decode; `None` means no stages.
pub fn pipeline_input(pipeline: &str) -> (r: Option<String>)
    ensures
        match r {
            Some(t) => decodable(pipeline@, "[]"@) == Some(t@),
            None => decodable(pipeline@, "[]"@) is None,
        },
{
    decodable_text(pipeline, "[]")
}

/// The text of documents to import; `None` means none. (Nothing is skipped but blank
/// text.)
pub fn documents_input(text: &str) -> (r: Option<String>)
    ensures
        match r {
            Some(t) => trimmed(text@).len() > 0 && t@ == trimmed(text@),
            None => trimmed(text@).len() == 0,
        },
{
    let cs = trim_chars(text);
    if cs.len() == 0 { None } else { Some(string_of(cs.as_slice())) }
}

/// `prefix`, the decoder's message, then `suffix`.
fn framed(prefix: &str, message: &str, suffix: &str) -> (r: String)
    ensures
        r@ == prefix@ + message@ + suffix@,
{
    let mut out = prefix.to_owned();
    push_str(&mut out, message);
    push_str(&mut out, suffix);
    out
}

/// A decoded query document: an object is the document; anything else is refused, as
/// is text that did not decode (with the decoder's message).
pub fn decoded_document(parsed: Result<Value, String>) -> (r: Result<Document, AppError>)
    ensures
        match parsed {
            Ok(Value::Document(d)) => r == Ok::<Document, AppError>(d),
            Ok(_) => r matches Err(AppError::Bson(m)) && m@ == "Expected a JSON object"@,
            Err(e) => r matches Err(AppError::Bson(m)) && m@ == "Invalid Extended JSON ("@ + e@ + ")"@,
        },
{
    match parsed {
        Ok(Value::Document(d)) => Ok(d),
        Ok(_) => Err(AppError::Bson("Expected a JSON object".to_owned())),
        Err(e) => Err(AppError::Bson(framed("Invalid Extended JSON (", e.as_str(), ")"))),
    }
}

/// The message for pipeline text that did not decode.
pub open spec fn pipeline_error_text(e: Seq<char>) -> Seq<char> {
    "Invalid pipeline JSON ("@ + e + "). Keys must be quoted, e.g. [{\"$match\": {\"name\": 1}}]"@
}

/// Documents as document values.
pub open spec fn docs_values(ds: Seq<Document>) -> Seq<ValueView> {
    ds.map_values(|d: Document| ValueView::Document(fields_view(d@)))
}

/// Values by their views.
pub open spec fn values_of(vs: Seq<Value>) -> Seq<ValueView> {
    vs.map_values(|v: Value| v@)
}

/// Whether every element is a document.
pub open spec fn all_documents(items: Seq<ValueView>) -> bool {
    forall|i: int| 0 <= i < items.len() ==> items[i] is Document
}

/// Take the documents out of a list of values, or `None` when one is not a document.
fn documents_of(items: Vec<Value>) -> (r: Option<Vec<Document>>)
    ensures
        match r {
            Some(ds) => all_documents(values_of(items@))
                && docs_values(ds@) == values_of(items@),
            None => !all_documents(values_of(items@)),
        },
{
    let ghost iv = values_of(items@);
    let mut rest = items;
    let mut out: Vec<Document> = Vec::new();
    // Documents are taken from the back and put in front, to keep their order.
    let ghost n = iv.len();
    assert(iv.skip(n as int) =~= Seq::<ValueView>::empty());
    assert(docs_values(out@) =~= Seq::<ValueView>::empty());
    while rest.len() > 0
        invariant
            rest@.len() <= n,
            n == iv.len(),
            iv == values_of(items@),
            values_of(rest@) == iv.take(rest@.len() as int),
            docs_values(out@) == iv.skip(rest@.len() as int),
        decreases rest@.len(),
    {
        let ghost k = rest@.len() as int;
        let ghost before = rest@;
        let v = rest.pop().unwrap();
        assert(before =~= rest@.push(v));
        assert(iv[k - 1] == v@) by {
            assert(values_of(before)[k - 1] == v@);
        }
        assert(values_of(rest@) =~= iv.take(k - 1));
        let ghost vv = v@;
        match v {
            Value::Document(d) => {
                proof {
                    crate::value::lemma_document_view(d);
                }
                let ghost prev = out@;
                let ghost dd = d;
                out.insert(0, d);
                proof {
                    prev.insert_ensures(0, dd);
                    assert(out@ == prev.insert(0, dd));
                    assert(out@[0] == dd);
                    assert(vv == iv[k - 1]);
                    assert(out@.len() == prev.len() + 1);
                    assert(vv == ValueView::Document(fields_view(out@[0]@)));
                    assert(docs_values(prev) == iv.skip(k));
                    assert(docs_values(prev).len() == prev.len());
                    assert(prev.len() == iv.len() - k);
                    assert(docs_values(out@).len() == out@.len());
                    assert forall|j: int| 0 <= j < out@.len() implies
                        #[trigger] docs_values(out@)[j] == iv.skip(k - 1)[j] by {
                        if j == 0 {
                            assert(docs_values(out@)[0] == ValueView::Document(fields_view(dd@)));
                            assert(iv.skip(k - 1)[0] == iv[k - 1]);
                        } else {
                            assert(out@[(j - 1) + 1] == prev[j - 1]);
                            assert(iv.skip(k - 1)[j] == iv.skip(k)[j - 1]);
                            assert(docs_values(prev)[j - 1] == iv.skip(k)[j - 1]);
                        }
                    }
                    assert(docs_values(out@) =~= iv.skip(k - 1));
                }
            },
            _ => {
                assert(!(iv[k - 1] is Document));
                return None;
            },
        }
    }
    assert(iv.skip(0) =~= iv);
    Some(out)
}

/// A decoded pipeline: an array whose elements are all objects is the stages in order;
/// anything else is refused with the message for what is wrong.
pub fn decoded_pipeline(parsed: Result<Value, String>) -> (r: Result<Vec<Document>, AppError>)
    ensures
        match parsed {
            Ok(Value::Array(items)) => if all_documents(values_of(items@)) {
                r matches Ok(ds) && docs_values(ds@) == values_of(items@)
            } else {
                r matches Err(AppError::Bson(m)) && m@ == "Each pipeline stage must be a JSON object"@
            },
            Ok(_) => r matches Err(AppError::Bson(m)) && m@ == "Pipeline must be a JSON array of stages"@,
            Err(e) => r matches Err(AppError::Bson(m)) && m@ == pipeline_error_text(e@),
        },
{
    match parsed {
        Ok(Value::Array(items)) => match documents_of(items) {
            Some(ds) => Ok(ds),
            None => Err(AppError::Bson("Each pipeline stage must be a JSON object".to_owned())),
        },
        Ok(_) => Err(AppError::Bson("Pipeline must be a JSON array of stages".to_owned())),
        Err(e) => Err(AppError::Bson(framed(
            "Invalid pipeline JSON (",
            e.as_str(),
            "). Keys must be quoted, e.g. [{\"$match\": {\"name\": 1}}]",
        ))),
    }
}

/// Decoded import text: an array of objects, or a single object, is the documents;
/// anything else is refused with the message for what is wrong.
pub fn decoded_documents(parsed: Result<Value, String>) -> (r: Result<Vec<Document>, AppError>)
    ensures
        match parsed {
            Ok(Value::Array(items)) => if all_documents(values_of(items@)) {
                r matches Ok(ds) && docs_values(ds@) == values_of(items@)
            } else {
                r matches Err(AppError::Bson(m)) && m@ == "Each item must be a JSON object"@
            },
            Ok(Value::Document(d)) => r matches Ok(ds) && ds@.len() == 1 && fields_view(ds@[0]@) == fields_view(d@),
            Ok(_) => r matches Err(AppError::Bson(m)) && m@ == "Import file must be a JSON array of documents"@,
            Err(e) => r matches Err(AppError::Bson(m)) && m@ == "Invalid JSON ("@ + e@ + "). Expected an array of documents."@,
        },
{
    match parsed {
        Ok(Value::Array(items)) => match documents_of(items) {
            Some(ds) => Ok(ds),
            None => Err(AppError::Bson("Each item must be a JSON object".to_owned())),
        },
        Ok(Value::Document(d)) => {
            let ghost dv = fields_view(d@);
            let ds = vec![d];
            assert(fields_view(ds@[0]@) == dv);
            Ok(ds)
        },
        Ok(_) => Err(AppError::Bson("Import file must be a JSON array of documents".to_owned())),
        Err(e) => Err(AppError::Bson(framed("Invalid JSON (", e.as_str(), "). Expected an array of documents."))),
    }
}

/// Whether a text stands for the empty document (a validator that clears the rule,
/// metadata that clears a file's): blank, or `{}`, once trimmed.
pub fn is_empty_document_text(text: &str) -> (r: bool)
    ensures
        r == (trimmed(text@).len() == 0 || trimmed(text@) == "{}"@),
{
    let t = trim_chars(text);
    proof {
        reveal_strlit("{}");
    }
    if t.len() == 0 {
        true
    } else if t.len() == 2 {
        let r = t[0] == '{' && t[1] == '}';
        assert(r == (t@ =~= "{}"@));
        r
    } else {
        false
    }
}

}
