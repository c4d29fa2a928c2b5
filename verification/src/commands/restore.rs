//! Undoing a recorded change from the collection history: which entry, what the decoded
//! texts must be, and the filter and replacement the restore sends.

use vstd::prelude::*;
use crate::collection_history::HistoryEntry;
use crate::error::AppError;
use crate::seqs::{keep_where, lemma_keep_push};
use crate::text::{push_str, str_eq};
use crate::value::{fields_view, lemma_document_view, Document, Value, ValueView};

verus! {

/// The entry to restore, or the error for one that no longer exists.
pub fn restore_entry(entry: Option<HistoryEntry>) -> (r: Result<HistoryEntry, AppError>)
    ensures
        match entry {
            Some(e) => r == Ok::<HistoryEntry, AppError>(e),
            None => r matches Err(AppError::Validation(m)) && m@ == "That history entry no longer exists."@,
        },
{
    match entry {
        Some(e) => Ok(e),
        None => Err(AppError::Validation("That history entry no longer exists.".to_owned())),
    }
}

/// A stored extended-JSON text once decoded, or the error for one that does not decode.
pub fn decoded_history_value(parsed: Result<Value, String>) -> (r: Result<Value, AppError>)
    ensures
        match parsed {
            Ok(v) => r == Ok::<Value, AppError>(v),
            Err(e) => r matches Err(AppError::Bson(m)) && m@ == "Unreadable history entry: "@ + e@,
        },
{
    match parsed {
        Ok(v) => Ok(v),
        Err(e) => {
            let mut m = "Unreadable history entry: ".to_owned();
            push_str(&mut m, e.as_str());
            Err(AppError::Bson(m))
        },
    }
}

/// Whether restoring the entry deletes the document again (the change was an insert);
/// otherwise its pre-image is put back.
pub fn undoes_insert(entry: &HistoryEntry) -> (r: bool)
    ensures
        r == (entry.op@ == "insert"@),
{
    str_eq(entry.op.as_str(), "insert")
}

/// The filter that selects the document: `{ _id: id }`.
pub fn id_filter(id: Value) -> (r: Document)
    ensures
        fields_view(r@) == seq![("_id"@, id@)],
{
    let ghost iv = id@;
    let doc: Document = vec![("_id".to_owned(), id)];
    assert(fields_view(doc@) =~= seq![("_id"@, iv)]);
    doc
}

/// The fields other than `_id`.
pub open spec fn without_id(fields: Seq<(Seq<char>, ValueView)>) -> Seq<(Seq<char>, ValueView)> {
    keep_where(fields, |f: (Seq<char>, ValueView)| f.0 != "_id"@)
}

/// The document a change is put back with: its decoded pre-image without `_id` (the
/// `_id` rides in the filter). A change without a pre-image, a pre-image that does not
/// decode or is not a document, is refused with its message.
pub fn replacement_of(before: Option<Result<Value, String>>) -> (r: Result<Document, AppError>)
    ensures
        match before {
            None => r matches Err(AppError::Validation(m)) && m@ == "This change has no saved pre-image to restore."@,
            Some(Err(e)) => r matches Err(AppError::Bson(m)) && m@ == "Unreadable history entry: "@ + e@,
            Some(Ok(Value::Document(d))) => r matches Ok(doc) && fields_view(doc@) == without_id(fields_view(d@)),
            Some(Ok(_)) => r matches Err(AppError::Bson(m)) && m@ == "History pre-image is not a document."@,
        },
{
    let parsed = match before {
        Some(p) => p,
        None => return Err(AppError::Validation("This change has no saved pre-image to restore.".to_owned())),
    };
    let value = match decoded_history_value(parsed) {
        Ok(v) => v,
        Err(e) => return Err(e),
    };
    let fields = match value {
        Value::Document(d) => d,
        _ => return Err(AppError::Bson("History pre-image is not a document.".to_owned())),
    };
    Ok(strip_id(fields))
}

/// A document without its `_id` field.
pub fn strip_id(fields: Document) -> (r: Document)
    ensures
        fields_view(r@) == without_id(fields_view(fields@)),
{
    let ghost fv = fields_view(fields@);
    let ghost keep = |f: (Seq<char>, ValueView)| f.0 != "_id"@;
    let mut rest = fields;
    let mut kept: Document = Vec::new();
    // Fields are taken from the back; kept ones go in front, keeping their order.
    let ghost n = fv.len();
    assert(fv.skip(n as int) =~= Seq::<(Seq<char>, ValueView)>::empty());
    assert(keep_where(fv.skip(n as int), keep) =~= Seq::<(Seq<char>, ValueView)>::empty());
    assert(fields_view(kept@) =~= Seq::<(Seq<char>, ValueView)>::empty());
    while rest.len() > 0
        invariant
            rest@.len() <= n,
            n == fv.len(),
            fields_view(rest@) == fv.take(rest@.len() as int),
            fields_view(kept@) == keep_where(fv.skip(rest@.len() as int), keep),
            keep == |f: (Seq<char>, ValueView)| f.0 != "_id"@,
        decreases rest@.len(),
    {
        let ghost k = rest@.len() as int;
        let ghost before_rest = rest@;
        let (key, value) = rest.pop().unwrap();
        assert(before_rest =~= rest@.push((key, value)));
        assert(fv[k - 1] == (key@, value@)) by {
            assert(fields_view(before_rest)[k - 1] == (key@, value@));
        }
        assert(fields_view(rest@) =~= fv.take(k - 1));
        proof {
            crate::seqs::lemma_keep_step(fv, keep, k - 1);
            assert(fv.skip(k - 1) =~= fv.skip(k - 1));
        }
        if !str_eq(key.as_str(), "_id") {
            let ghost prev = kept@;
            let ghost f0 = (key@, value@);
            kept.insert(0, (key, value));
            proof {
                prev.insert_ensures(0, kept@[0]);
                assert(fields_view(kept@) =~= seq![f0] + fields_view(prev));
            }
        }
    }
    assert(fv.skip(0) =~= fv);
    kept
}

}
