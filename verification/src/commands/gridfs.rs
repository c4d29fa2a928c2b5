//! GridFS: discovering a database's buckets from its collection names, reading file
//! documents, file ids and the bucket collections and updates.

use vstd::prelude::*;
use crate::text::{chars_of, string_of, chars_eq, chars_less, lex_less, lemma_lex_total, lemma_lex_transitive, views};
use crate::value::{field_value, fields_view, get_field, Document, Value, ValueView};
use crate::error::AppError;

verus! {

/// The bucket a collection name belongs to: `<bucket>.files` with a non-empty bucket.
pub open spec fn bucket_of(name: Seq<char>) -> Option<Seq<char>> {
    if name.len() > 6 && name.subrange(name.len() - 6, name.len() as int) == seq!['.', 'f', 'i', 'l', 'e', 's'] {
        Some(name.subrange(0, name.len() - 6))
    } else {
        None
    }
}

/// Whether some collection name belongs to bucket `b`.
pub open spec fn names_bucket(names: Seq<Seq<char>>, b: Seq<char>) -> bool {
    exists|k: int| 0 <= k < names.len() && bucket_of(names[k]) == Some(b)
}

/// Strictly increasing in lexicographic order (hence free of duplicates).
pub open spec fn strictly_sorted(v: Seq<Seq<char>>) -> bool {
    forall|a: int, b: int| 0 <= a < b < v.len() ==> lex_less(#[trigger] v[a], #[trigger] v[b])
}

fn bucket_chars(name: &String) -> (r: Option<Vec<char>>)
    ensures
        match r {
            Some(b) => bucket_of(name@) == Some(b@),
            None => bucket_of(name@) is None,
        },
{
    let cs = chars_of(name.as_str());
    let n = cs.len();
    if n <= 6 {
        return None;
    }
    if !(cs[n - 6] == '.' && cs[n - 5] == 'f' && cs[n - 4] == 'i' && cs[n - 3] == 'l'
        && cs[n - 2] == 'e' && cs[n - 1] == 's') {
        assert(name@.subrange(n - 6, n as int) != seq!['.', 'f', 'i', 'l', 'e', 's']) by {
            if name@.subrange(n - 6, n as int) == seq!['.', 'f', 'i', 'l', 'e', 's'] {
                assert(name@.subrange(n - 6, n as int)[0] == cs@[n - 6]);
                assert(name@.subrange(n - 6, n as int)[1] == cs@[n - 5]);
                assert(name@.subrange(n - 6, n as int)[2] == cs@[n - 4]);
                assert(name@.subrange(n - 6, n as int)[3] == cs@[n - 3]);
                assert(name@.subrange(n - 6, n as int)[4] == cs@[n - 2]);
                assert(name@.subrange(n - 6, n as int)[5] == cs@[n - 1]);
            }
        }
        return None;
    }
    assert(name@.subrange(n - 6, n as int) =~= seq!['.', 'f', 'i', 'l', 'e', 's']);
    let mut out: Vec<char> = Vec::new();
    let mut i: usize = 0;
    while i < n - 6
        invariant
            n == cs@.len(),
            cs@ == name@,
            n > 6,
            i <= n - 6,
            out@ == cs@.subrange(0, i as int),
        decreases n - 6 - i,
    {
        out.push(cs[i]);
        assert(out@ =~= cs@.subrange(0, i as int + 1));
        i = i + 1;
    }
    Some(out)
}

/// Adds `x` to a strictly sorted list, keeping it strictly sorted.
fn insert_sorted(v: &mut Vec<Vec<char>>, x: Vec<char>)
    requires
        strictly_sorted(views_of(old(v)@)),
    ensures
        strictly_sorted(views_of(final(v)@)),
        forall|y: Seq<char>| views_of(final(v)@).contains(y) <==> (y == x@ || views_of(old(v)@).contains(y)),
{
    let ghost xs = x@;
    let ghost before = views_of(v@);
    let mut pos: usize = 0;
    while pos < v.len() && chars_less(&v[pos], &x)
        invariant
            views_of(v@) == before,
            xs == x@,
            pos <= v@.len(),
            forall|j: int| 0 <= j < pos ==> lex_less(#[trigger] before[j], xs),
        decreases v@.len() - pos,
    {
        pos = pos + 1;
    }
    if pos < v.len() && chars_eq(&v[pos], &x) {
        assert(before[pos as int] == xs);
        assert forall|y: Seq<char>| before.contains(y) <==> (y == xs || before.contains(y)) by {
            if y == xs {
                assert(before[pos as int] == y);
            }
        }
        return;
    }
    if pos < v.len() {
        proof { lemma_lex_total(before[pos as int], xs); }
        assert(lex_less(xs, before[pos as int]));
    }
    v.insert(pos, x);
    let ghost after = views_of(v@);
    assert(after =~= before.insert(pos as int, xs));
    assert forall|a: int, b: int| 0 <= a < b < after.len() implies lex_less(#[trigger] after[a], #[trigger] after[b]) by {
        if b < pos {
            assert(after[a] == before[a] && after[b] == before[b]);
        } else if b == pos {
            assert(after[a] == before[a]);
        } else if a < pos {
            assert(after[a] == before[a] && after[b] == before[b - 1]);
        } else if a == pos {
            assert(after[b] == before[b - 1]);
            if b - 1 > pos {
                lemma_lex_transitive(xs, before[pos as int], before[b - 1]);
            }
        } else {
            assert(after[a] == before[a - 1] && after[b] == before[b - 1]);
        }
    }
    assert forall|y: Seq<char>| after.contains(y) <==> (y == xs || before.contains(y)) by {
        if after.contains(y) {
            let k = choose|k: int| 0 <= k < after.len() && after[k] == y;
            if k < pos {
                assert(before[k] == y);
            } else if k > pos {
                assert(before[k - 1] == y);
            }
        }
        if y == xs {
            assert(after[pos as int] == y);
        }
        if before.contains(y) {
            let k = choose|k: int| 0 <= k < before.len() && before[k] == y;
            if k < pos {
                assert(after[k] == y);
            } else {
                assert(after[k + 1] == y);
            }
        }
    }
}

/// The character sequences of a list of character vectors.
pub open spec fn views_of(v: Seq<Vec<char>>) -> Seq<Seq<char>> {
    v.map_values(|x: Vec<char>| x@)
}

/// The GridFS bucket names in a database, derived from its `<bucket>.files`
/// collections: each once, in lexicographic order.
pub fn extract_buckets(collection_names: &[String]) -> (r: Vec<String>)
    ensures
        strictly_sorted(views(r@)),
        forall|b: Seq<char>| views(r@).contains(b) <==> names_bucket(views(collection_names@), b),
{
    let ghost names = views(collection_names@);
    let mut buckets: Vec<Vec<char>> = Vec::new();
    let mut i: usize = 0;
    while i < collection_names.len()
        invariant
            names == views(collection_names@),
            i <= collection_names@.len(),
            strictly_sorted(views_of(buckets@)),
            forall|b: Seq<char>| views_of(buckets@).contains(b) <==> names_bucket(names.take(i as int), b),
        decreases collection_names@.len() - i,
    {
        let ghost before = views_of(buckets@);
        let ghost prev = names.take(i as int);
        let ghost next = names.take(i as int + 1);
        assert(next =~= prev.push(names[i as int]));
        match bucket_chars(&collection_names[i]) {
            Some(b) => {
                let ghost bs = b@;
                insert_sorted(&mut buckets, b);
                assert forall|y: Seq<char>| views_of(buckets@).contains(y) <==> names_bucket(next, y) by {
                    if names_bucket(next, y) {
                        let k = choose|k: int| 0 <= k < next.len() && bucket_of(next[k]) == Some(y);
                        if k < i {
                            assert(prev[k] == next[k]);
                            assert(names_bucket(prev, y));
                        }
                    }
                    if y == bs {
                        assert(bucket_of(next[i as int]) == Some(y));
                    }
                    if names_bucket(prev, y) {
                        let k = choose|k: int| 0 <= k < prev.len() && bucket_of(prev[k]) == Some(y);
                        assert(next[k] == prev[k]);
                    }
                }
            },
            None => {
                assert forall|y: Seq<char>| views_of(buckets@).contains(y) <==> names_bucket(next, y) by {
                    if names_bucket(next, y) {
                        let k = choose|k: int| 0 <= k < next.len() && bucket_of(next[k]) == Some(y);
                        if k < i {
                            assert(prev[k] == next[k]);
                        }
                    }
                    if names_bucket(prev, y) {
                        let k = choose|k: int| 0 <= k < prev.len() && bucket_of(prev[k]) == Some(y);
                        assert(next[k] == prev[k]);
                    }
                }
            },
        }
        i = i + 1;
    }
    assert(names.take(collection_names@.len() as int) =~= names);
    let mut out: Vec<String> = Vec::new();
    let mut j: usize = 0;
    while j < buckets.len()
        invariant
            j <= buckets@.len(),
            views(out@) == views_of(buckets@).take(j as int),
        decreases buckets@.len() - j,
    {
        let ghost prev = views(out@);
        let name = string_of(buckets[j].as_slice());
        assert(name@ == views_of(buckets@)[j as int]);
        out.push(name);
        assert(views(out@) =~= prev.push(name@));
        assert(views(out@) =~= views_of(buckets@).take(j as int + 1));
        j = j + 1;
    }
    assert(views_of(buckets@).take(buckets@.len() as int) =~= views_of(buckets@));
    out
}

}

verus! {

/// A GridFS file's display metadata.
#[derive(Debug)]
pub struct GridFsFile {
    pub id: String,
    pub filename: String,
    pub length: i64,
    pub upload_date: Option<String>,
    pub content_type: Option<String>,
}

/// The length a `.files` document records: a number of any BSON number type (a double
/// as `as` casts it), else 0.
pub open spec fn length_of(v: Option<ValueView>) -> i64 {
    match crate::commands::stats::number_of(v) {
        Some(n) => n,
        None => 0,
    }
}

/// The id shown for a file: an ObjectId as hex, any other value as BSON displays it,
/// nothing when there is none.
pub open spec fn file_id_of(v: Option<ValueView>) -> Seq<char> {
    match v {
        Some(ValueView::ObjectId(h)) => h,
        Some(other) => crate::commands::compare::display_of(other),
        None => seq![],
    }
}

/// Pure extraction of the display fields from a GridFS `.files` document: the id, the
/// file name (`(unnamed)` when it is not a string), the length, the upload date as
/// RFC 3339 text when it is a date that has one, and the content type when it is a
/// string.
pub fn extract_file(doc: &Document) -> (r: GridFsFile)
    ensures
        ({
            let d = fields_view(doc@);
            &&& r.id@ == file_id_of(field_value(d, "_id"@))
            &&& r.filename@ == match field_value(d, "filename"@) {
                Some(ValueView::Text(s)) => s,
                _ => "(unnamed)"@,
            }
            &&& r.length == length_of(field_value(d, "length"@))
            &&& match r.upload_date {
                Some(t) => field_value(d, "uploadDate"@) matches Some(ValueView::DateTime { rfc3339: Some(s), .. }) && s == t@,
                None => !(field_value(d, "uploadDate"@) matches Some(ValueView::DateTime { rfc3339: Some(_), .. })),
            }
            &&& match r.content_type {
                Some(t) => field_value(d, "contentType"@) == Some(ValueView::Text(t@)),
                None => !(field_value(d, "contentType"@) matches Some(ValueView::Text(_))),
            }
        }),
{
    let id = match get_field(doc, "_id") {
        Some(Value::ObjectId(h)) => h.clone(),
        Some(other) => crate::commands::compare::display_text(other),
        None => String::new(),
    };
    let filename = match get_field(doc, "filename") {
        Some(Value::Text(s)) => s.clone(),
        _ => "(unnamed)".to_owned(),
    };
    let length = match crate::commands::stats::as_i64(get_field(doc, "length")) {
        Some(n) => n,
        None => 0,
    };
    let upload_date = match get_field(doc, "uploadDate") {
        Some(Value::DateTime(d)) => match &d.rfc3339 {
            Some(t) => Some(t.clone()),
            None => None,
        },
        _ => None,
    };
    let content_type = match get_field(doc, "contentType") {
        Some(Value::Text(s)) => Some(s.clone()),
        _ => None,
    };
    GridFsFile { id, filename, length, upload_date, content_type }
}

/// A hexadecimal digit, in either case.
pub open spec fn hex_char(c: char) -> bool {
    ('0' <= c && c <= '9') || ('a' <= c && c <= 'f') || ('A' <= c && c <= 'F')
}

/// A hexadecimal digit in lower case.
pub open spec fn lower_hex(c: char) -> char {
    if 'A' <= c && c <= 'F' { ((c as u32) + 32) as char } else { c }
}

/// The ObjectId a text names, as its lower-case hex: exactly 24 hexadecimal digits in
/// either case (what `ObjectId::parse_str` accepts and `to_hex` writes back).
pub open spec fn object_id_text(s: Seq<char>) -> Option<Seq<char>> {
    if s.len() == 24 && forall|i: int| 0 <= i < 24 ==> #[trigger] hex_char(s[i]) {
        Some(s.map_values(|c: char| lower_hex(c)))
    } else {
        None
    }
}

/// Parse a file id (hex ObjectId text) for the GridFS calls.
pub fn parse_file_id(file_id: &str) -> (r: Result<Value, AppError>)
    ensures
        match object_id_text(file_id@) {
            Some(h) => r matches Ok(Value::ObjectId(t)) && t@ == h,
            None => r matches Err(AppError::Bson(m)) && m@ == "Invalid file id: "@ + file_id@,
        },
{
    let cs = chars_of(file_id);
    let mut ok = cs.len() == 24;
    let mut hex: Vec<char> = Vec::new();
    let mut i: usize = 0;
    if ok {
        while i < cs.len()
            invariant
                cs@ == file_id@,
                cs@.len() == 24,
                i <= cs@.len(),
                ok ==> forall|k: int| 0 <= k < i ==> #[trigger] hex_char(cs@[k]),
                ok ==> hex@ == cs@.take(i as int).map_values(|c: char| lower_hex(c)),
                !ok ==> exists|k: int| 0 <= k < 24 && !#[trigger] hex_char(cs@[k]),
            ensures
                ok ==> i == cs@.len(),
            decreases cs@.len() - i,
        {
            let c = cs[i];
            if ('0' <= c && c <= '9') || ('a' <= c && c <= 'f') {
                hex.push(c);
            } else if 'A' <= c && c <= 'F' {
                hex.push(((c as u8) + 32) as char);
            } else {
                ok = false;
                assert(!hex_char(cs@[i as int]));
                break;
            }
            proof {
                if ok {
                    assert(cs@.take(i as int + 1) =~= cs@.take(i as int).push(c));
                    assert(hex@ =~= cs@.take(i as int + 1).map_values(|c: char| lower_hex(c)));
                }
            }
            i = i + 1;
        }
    }
    if ok {
        assert(cs@.take(24) =~= cs@);
        Ok(Value::ObjectId(string_of(hex.as_slice())))
    } else {
        let mut m = "Invalid file id: ".to_owned();
        crate::text::push_str(&mut m, file_id);
        Err(AppError::Bson(m))
    }
}

/// The name of one of a bucket's collections: `<bucket>.<suffix>` (`files` or `chunks`).
pub fn bucket_collection(bucket: &str, suffix: &str) -> (r: String)
    ensures
        r@ == bucket@ + "."@ + suffix@,
{
    crate::commands::admin::namespace(bucket, suffix)
}

/// The update that sets one field of a file's `.files` document: `{ $set: { key: value } }`.
pub fn set_file_field(key: &str, value: Value) -> (r: Document)
    ensures
        fields_view(r@) == seq![("$set"@, ValueView::Document(seq![(key@, value@)]))],
{
    let inner = crate::value::single_field(key.to_owned(), value);
    let ghost iv = inner@;
    let r: Document = vec![("$set".to_owned(), inner)];
    assert(fields_view(r@) =~= seq![("$set"@, iv)]);
    r
}

}
