//! Comparing two collections by `_id`: the key each document is matched by, the
//! order-insensitive content equality, and the diff's counts and samples.

use vstd::prelude::*;
use crate::text::{decimal_string, decimal_text, join_with, lex_less, lemma_lex_total, lemma_lex_transitive, push_char, push_str, str_eq, str_less};
use crate::seqs::{keep_where, lemma_keep_push, lemma_keep_all_satisfy};
use crate::value::{document_json, field_value, fields_view, get_field, json_text, lemma_document_view, Document, Value, ValueView};

verus! {

/// A value as BSON's `Display` writes it: strings quoted, an ObjectId as
/// `ObjectId("...")`, documents as `{ "k": v, ... }`, arrays as `[a, b]`.
pub open spec fn display_of(v: ValueView) -> Seq<char>
    decreases v,
{
    match v {
        ValueView::Null => "null"@,
        ValueView::Bool(b) => if b { "true"@ } else { "false"@ },
        ValueView::Int32(n) => decimal_text(n as int),
        ValueView::Int64(n) => decimal_text(n as int),
        ValueView::Double { display, .. } => display,
        ValueView::Text(s) => "\""@ + s + "\""@,
        ValueView::ObjectId(h) => "ObjectId(\""@ + h + "\")"@,
        ValueView::DateTime { display, .. } => display,
        ValueView::Decimal { display, .. } => display,
        ValueView::Other { display, .. } => display,
        ValueView::Array(items) => "["@ + join_with(display_items(items), ", "@) + "]"@,
        ValueView::Document(fields) => if fields.len() == 0 {
            "{}"@
        } else {
            "{ "@ + join_with(display_members(fields), ", "@) + " }"@
        },
    }
}

/// The display texts of array elements.
pub open spec fn display_items(items: Seq<ValueView>) -> Seq<Seq<char>>
    decreases items,
{
    Seq::new(items.len(), |i: int| if 0 <= i < items.len() { display_of(items[i]) } else { Seq::<char>::empty() })
}

/// The `"key": value` display texts of document fields.
pub open spec fn display_members(fields: Seq<(Seq<char>, ValueView)>) -> Seq<Seq<char>>
    decreases fields,
{
    Seq::new(fields.len(), |i: int|
        if 0 <= i < fields.len() { "\""@ + fields[i].0 + "\": "@ + display_of(fields[i].1) } else { Seq::<char>::empty() })
}

/// Appends `parts` joined with `sep` between consecutive ones, given their texts so far.
proof fn lemma_join_step(parts: Seq<Seq<char>>, i: int, sep: Seq<char>)
    requires
        0 <= i < parts.len(),
    ensures
        join_with(parts.take(i + 1), sep) == if i == 0 { parts[0] } else { join_with(parts.take(i), sep) + sep + parts[i] },
{
    let t = parts.take(i + 1);
    assert(t.drop_last() =~= parts.take(i));
    if i == 0 {
        assert(t =~= seq![parts[0]]);
    }
}

/// The BSON `Display` text of a value.
pub fn display_text(v: &Value) -> (r: String)
    ensures
        r@ == display_of(v@),
    decreases v,
{
    match v {
        Value::Null => "null".to_owned(),
        Value::Bool(b) => if *b { "true".to_owned() } else { "false".to_owned() },
        Value::Int32(n) => decimal_string(*n as i64),
        Value::Int64(n) => decimal_string(*n),
        Value::Double(d) => d.display.clone(),
        Value::Text(s) => {
            let mut out = "\"".to_owned();
            push_str(&mut out, s.as_str());
            push_str(&mut out, "\"");
            out
        },
        Value::ObjectId(h) => {
            let mut out = "ObjectId(\"".to_owned();
            push_str(&mut out, h.as_str());
            push_str(&mut out, "\")");
            out
        },
        Value::DateTime(d) => d.display.clone(),
        Value::Decimal(d) => d.display.clone(),
        Value::Other(o) => o.display.clone(),
        Value::Array(items) => {
            let ghost iv = v@->Array_0;
            let ghost parts = display_items(iv);
            let mut out = "[".to_owned();
            let mut i: usize = 0;
            assert(iv.len() == items@.len());
            while i < items.len()
                invariant
                    i <= items@.len(),
                    *v == Value::Array(*items),
                    iv == v@->Array_0,
                    iv.len() == items@.len(),
                    forall|k: int| 0 <= k < iv.len() ==> iv[k] == items@[k]@,
                    parts == display_items(iv),
                    out@ == "["@ + join_with(parts.take(i as int), ", "@),
                decreases items@.len() - i,
            {
                let ghost before = out@;
                if i > 0 {
                    push_str(&mut out, ", ");
                }
                assert(decreases_to!(*v => v->Array_0));
                assert(decreases_to!(*items => items@));
                assert(decreases_to!(items@ => items@[i as int]));
                let item = display_text(&items[i]);
                push_str(&mut out, item.as_str());
                proof {
                    assert(parts[i as int] == item@);
                    lemma_join_step(parts, i as int, ", "@);
                    if i == 0 {
                        assert(parts.take(0) =~= Seq::<Seq<char>>::empty());
                    }
                    assert(out@ =~= "["@ + join_with(parts.take(i as int + 1), ", "@));
                }
                i = i + 1;
            }
            push_str(&mut out, "]");
            assert(parts.take(iv.len() as int) =~= parts);
            out
        },
        Value::Document(fields) => {
            proof {
                lemma_document_view(*fields);
            }
            let ghost fv = fields_view(fields@);
            let ghost parts = display_members(fv);
            if fields.len() == 0 {
                return "{}".to_owned();
            }
            let mut out = "{ ".to_owned();
            let mut i: usize = 0;
            while i < fields.len()
                invariant
                    i <= fields@.len(),
                    *v == Value::Document(*fields),
                    fv == fields_view(fields@),
                    parts == display_members(fv),
                    out@ == "{ "@ + join_with(parts.take(i as int), ", "@),
                decreases fields@.len() - i,
            {
                if i > 0 {
                    push_str(&mut out, ", ");
                }
                push_str(&mut out, "\"");
                push_str(&mut out, fields[i].0.as_str());
                push_str(&mut out, "\": ");
                assert(decreases_to!(*v => v->Document_0));
                assert(decreases_to!(*fields => fields@));
                assert(decreases_to!(fields@ => fields@[i as int]));
                assert(decreases_to!(fields@[i as int] => fields@[i as int].1));
                let item = display_text(&fields[i].1);
                push_str(&mut out, item.as_str());
                proof {
                    assert(fv[i as int] == (fields@[i as int].0@, fields@[i as int].1@));
                    assert(parts[i as int] == "\""@ + fields@[i as int].0@ + "\": "@ + item@);
                    lemma_join_step(parts, i as int, ", "@);
                    if i == 0 {
                        assert(parts.take(0) =~= Seq::<Seq<char>>::empty());
                    }
                    assert(out@ =~= "{ "@ + join_with(parts.take(i as int + 1), ", "@));
                }
                i = i + 1;
            }
            push_str(&mut out, " }");
            assert(parts.take(fv.len() as int) =~= parts);
            out
        },
    }
}

}

verus! {

/// The display text of a zero double (`0` or `-0`): both are the number zero.
pub open spec fn zero_text(d: Seq<char>) -> bool {
    d == "0"@ || d == "-0"@
}

/// Whether two values convert to equal JSON values (relaxed extended JSON compared as
/// `serde_json` compares: objects without regard to key order, integers of either width
/// by value, finite doubles by value). Values the model holds only as extended-JSON text
/// (dates, decimals, non-finite doubles and the other BSON types) compare by that text
/// within their own type.
pub open spec fn json_same(a: ValueView, b: ValueView) -> bool
    decreases a,
{
    match a {
        ValueView::Null => b is Null,
        ValueView::Bool(x) => b matches ValueView::Bool(y) && x == y,
        ValueView::Int32(x) => match b {
            ValueView::Int32(y) => x as int == y as int,
            ValueView::Int64(y) => x as int == y as int,
            _ => false,
        },
        ValueView::Int64(x) => match b {
            ValueView::Int32(y) => x as int == y as int,
            ValueView::Int64(y) => x as int == y as int,
            _ => false,
        },
        ValueView::Double { display: da, json: ja, finite: fa, .. } => match b {
            ValueView::Double { display: db, json: jb, finite: fb, .. } =>
                if fa && fb { da == db || (zero_text(da) && zero_text(db)) } else if !fa && !fb { ja == jb } else { false },
            _ => false,
        },
        ValueView::Text(x) => b matches ValueView::Text(y) && x == y,
        ValueView::ObjectId(x) => b matches ValueView::ObjectId(y) && x == y,
        ValueView::DateTime { json: ja, .. } => b matches ValueView::DateTime { json: jb, .. } && ja == jb,
        ValueView::Decimal { json: ja, .. } => b matches ValueView::Decimal { json: jb, .. } && ja == jb,
        ValueView::Other { json: ja, .. } => b matches ValueView::Other { json: jb, .. } && ja == jb,
        ValueView::Array(x) => match b {
            ValueView::Array(y) => items_same(x, y),
            _ => false,
        },
        ValueView::Document(x) => match b {
            ValueView::Document(y) => x.len() == y.len() && members_same(x, y),
            _ => false,
        },
    }
}

/// Element by element, the arrays hold equal JSON values.
pub open spec fn items_same(x: Seq<ValueView>, y: Seq<ValueView>) -> bool
    decreases x,
{
    if x.len() != y.len() {
        false
    } else if x.len() == 0 {
        true
    } else {
        items_same(x.subrange(0, x.len() - 1), y.subrange(0, y.len() - 1)) && json_same(x[x.len() - 1], y[y.len() - 1])
    }
}

/// Every field of `x` is in `y` with an equal JSON value.
pub open spec fn members_same(x: Seq<(Seq<char>, ValueView)>, y: Seq<(Seq<char>, ValueView)>) -> bool
    decreases x,
{
    if x.len() == 0 {
        true
    } else {
        members_same(x.subrange(0, x.len() - 1), y) && match field_value(y, x[x.len() - 1].0) {
            Some(v) => json_same(x[x.len() - 1].1, v),
            None => false,
        }
    }
}

/// Scalars that compare as equal JSON values (arrays, documents and doubles aside) have
/// the same JSON text: the comparison tells apart any two such values whose JSON
/// differs, such as `true` and `false`.
pub proof fn law_same_scalars_have_same_json_text(a: ValueView, b: ValueView)
    requires
        !(a is Array),
        !(a is Document),
        !(a is Double),
    ensures
        json_same(a, b) ==> json_text(a) == json_text(b),
{
}

/// Every value other than an array or a document compares equal to itself.
pub proof fn law_same_json_is_reflexive_on_scalars(v: ValueView)
    requires
        !(v is Array),
        !(v is Document),
    ensures
        json_same(v, v),
{
}

/// Two booleans compare equal exactly when they are the same boolean, and a boolean
/// never equals a value of another type.
pub proof fn law_booleans_compare_by_value(x: bool, b: ValueView)
    ensures
        json_same(ValueView::Bool(x), b) <==> b == ValueView::Bool(x),
        json_same(b, ValueView::Bool(x)) <==> b == ValueView::Bool(x),
{
}

/// Two documents compare equal only if each field of the first is found in the second
/// with an equal JSON value: a document differs from any document where one of its
/// fields holds a value it does not equal.
pub proof fn law_equal_documents_agree_on_each_field(x: Seq<(Seq<char>, ValueView)>, y: Seq<(Seq<char>, ValueView)>)
    ensures
        json_same(ValueView::Document(x), ValueView::Document(y)) ==>
            forall|i: int| 0 <= i < x.len() ==>
                ((#[trigger] field_value(y, x[i].0)) matches Some(w) && json_same(x[i].1, w)),
{
    lemma_members_same_each(x, y);
}

/// Two arrays compare equal only if they have the same length and equal JSON values
/// at each position.
pub proof fn law_equal_arrays_agree_at_each_position(x: Seq<ValueView>, y: Seq<ValueView>)
    ensures
        json_same(ValueView::Array(x), ValueView::Array(y)) ==>
            x.len() == y.len() && forall|i: int| 0 <= i < x.len() ==> json_same(#[trigger] x[i], y[i]),
    decreases x.len(),
{
    if json_same(ValueView::Array(x), ValueView::Array(y)) && x.len() > 0 {
        let px = x.subrange(0, x.len() - 1);
        let py = y.subrange(0, y.len() - 1);
        law_equal_arrays_agree_at_each_position(px, py);
        assert forall|i: int| 0 <= i < x.len() implies json_same(#[trigger] x[i], y[i]) by {
            if i < x.len() - 1 {
                assert(px[i] == x[i] && py[i] == y[i]);
            }
        }
    }
}

/// Every member of `x` checked by `members_same` has an equal counterpart in `y`.
proof fn lemma_members_same_each(x: Seq<(Seq<char>, ValueView)>, y: Seq<(Seq<char>, ValueView)>)
    ensures
        members_same(x, y) ==>
            forall|i: int| 0 <= i < x.len() ==>
                ((#[trigger] field_value(y, x[i].0)) matches Some(w) && json_same(x[i].1, w)),
    decreases x.len(),
{
    if x.len() > 0 {
        let p = x.subrange(0, x.len() - 1);
        lemma_members_same_each(p, y);
        assert forall|i: int| 0 <= i < p.len() implies p[i] == x[i] by {}
    }
}

/// Whether two values convert to equal JSON values.
pub fn same_json(a: &Value, b: &Value) -> (r: bool)
    ensures
        r == json_same(a@, b@),
    decreases a,
{
    match a {
        Value::Null => {
            assert(a@ == ValueView::Null);
            match b {
                Value::Null => true,
                _ => {
                    assert(!(b@ is Null));
                    false
                },
            }
        },
        Value::Bool(x) => match b {
            Value::Bool(y) => *x == *y,
            _ => false,
        },
        Value::Int32(x) => match b {
            Value::Int32(y) => *x == *y,
            Value::Int64(y) => (*x as i64) == *y,
            _ => false,
        },
        Value::Int64(x) => match b {
            Value::Int32(y) => *x == (*y as i64),
            Value::Int64(y) => *x == *y,
            _ => false,
        },
        Value::Double(da) => match b {
            Value::Double(db) => {
                if da.finite && db.finite {
                    str_eq(da.display.as_str(), db.display.as_str())
                        || ((str_eq(da.display.as_str(), "0") || str_eq(da.display.as_str(), "-0"))
                            && (str_eq(db.display.as_str(), "0") || str_eq(db.display.as_str(), "-0")))
                } else if !da.finite && !db.finite {
                    str_eq(da.json.as_str(), db.json.as_str())
                } else {
                    false
                }
            },
            _ => false,
        },
        Value::Text(x) => match b {
            Value::Text(y) => str_eq(x.as_str(), y.as_str()),
            _ => false,
        },
        Value::ObjectId(x) => match b {
            Value::ObjectId(y) => str_eq(x.as_str(), y.as_str()),
            _ => false,
        },
        Value::DateTime(x) => match b {
            Value::DateTime(y) => str_eq(x.json.as_str(), y.json.as_str()),
            _ => false,
        },
        Value::Decimal(x) => match b {
            Value::Decimal(y) => str_eq(x.json.as_str(), y.json.as_str()),
            _ => false,
        },
        Value::Other(x) => match b {
            Value::Other(y) => str_eq(x.json.as_str(), y.json.as_str()),
            _ => false,
        },
        Value::Array(x) => match b {
            Value::Array(y) => {
                proof {
                    crate::value::lemma_array_view(*x);
                    crate::value::lemma_array_view(*y);
                }
                assert(decreases_to!(*a => a->Array_0));
                same_items(x, y)
            },
            _ => false,
        },
        Value::Document(x) => match b {
            Value::Document(y) => {
                proof {
                    lemma_document_view(*x);
                    lemma_document_view(*y);
                }
                if x.len() != y.len() {
                    false
                } else {
                    assert(decreases_to!(*a => a->Document_0));
                    same_members(x, y)
                }
            },
            _ => false,
        },
    }
}

/// Element by element, the arrays hold equal JSON values.
fn same_items(x: &Vec<Value>, y: &Vec<Value>) -> (r: bool)
    ensures
        r == items_same(x@.map_values(|v: Value| v@), y@.map_values(|v: Value| v@)),
    decreases x,
{
    let ghost xv = x@.map_values(|v: Value| v@);
    let ghost yv = y@.map_values(|v: Value| v@);
    if x.len() != y.len() {
        return false;
    }
    let mut i: usize = 0;
    assert(items_same(xv.subrange(0, 0), yv.subrange(0, 0)));
    while i < x.len()
        invariant
            i <= x@.len(),
            x@.len() == y@.len(),
            xv == x@.map_values(|v: Value| v@),
            yv == y@.map_values(|v: Value| v@),
            items_same(xv.subrange(0, i as int), yv.subrange(0, i as int)),
        decreases x@.len() - i,
    {
        assert(decreases_to!(*x => x@));
        assert(decreases_to!(x@ => x@[i as int]));
        let same = same_json(&x[i], &y[i]);
        let ghost xs = xv.subrange(0, i as int + 1);
        let ghost ys = yv.subrange(0, i as int + 1);
        assert(xs.subrange(0, i as int) =~= xv.subrange(0, i as int));
        assert(ys.subrange(0, i as int) =~= yv.subrange(0, i as int));
        assert(xs[i as int] == x@[i as int]@);
        assert(ys[i as int] == y@[i as int]@);
        if !same {
            // The first unequal element decides the whole comparison.
            proof {
                lemma_items_prefix(xv, yv, i as int + 1);
            }
            return false;
        }
        i = i + 1;
    }
    assert(xv.subrange(0, x@.len() as int) =~= xv);
    assert(yv.subrange(0, y@.len() as int) =~= yv);
    true
}

/// Equal arrays agree on every prefix of the same length.
proof fn lemma_items_prefix(x: Seq<ValueView>, y: Seq<ValueView>, n: int)
    requires
        x.len() == y.len(),
        0 <= n <= x.len(),
        !items_same(x.subrange(0, n), y.subrange(0, n)),
    ensures
        !items_same(x, y),
    decreases x.len() - n,
{
    if n < x.len() {
        let xs = x.subrange(0, n + 1);
        let ys = y.subrange(0, n + 1);
        assert(xs.subrange(0, n) =~= x.subrange(0, n));
        assert(ys.subrange(0, n) =~= y.subrange(0, n));
        lemma_items_prefix(x, y, n + 1);
    } else {
        assert(x.subrange(0, n) =~= x);
        assert(y.subrange(0, n) =~= y);
    }
}

/// Every field of `x` is in `y` with an equal JSON value.
fn same_members(x: &Document, y: &Document) -> (r: bool)
    ensures
        r == members_same(fields_view(x@), fields_view(y@)),
    decreases x,
{
    let ghost xv = fields_view(x@);
    let ghost yv = fields_view(y@);
    let mut i: usize = 0;
    assert(members_same(xv.subrange(0, 0), yv));
    while i < x.len()
        invariant
            i <= x@.len(),
            xv == fields_view(x@),
            yv == fields_view(y@),
            members_same(xv.subrange(0, i as int), yv),
        decreases x@.len() - i,
    {
        let ghost xs = xv.subrange(0, i as int + 1);
        assert(xs.subrange(0, i as int) =~= xv.subrange(0, i as int));
        assert(xs[i as int] == (x@[i as int].0@, x@[i as int].1@));
        let same = match get_field(y, x[i].0.as_str()) {
            Some(other) => {
                assert(decreases_to!(*x => x@));
                assert(decreases_to!(x@ => x@[i as int]));
                assert(decreases_to!(x@[i as int] => x@[i as int].1));
                same_json(&x[i].1, other)
            },
            None => false,
        };
        if !same {
            proof {
                lemma_members_prefix(xv, yv, i as int + 1);
            }
            return false;
        }
        i = i + 1;
    }
    assert(xv.subrange(0, x@.len() as int) =~= xv);
    true
}

/// A document whose field prefix already fails fails as a whole.
proof fn lemma_members_prefix(x: Seq<(Seq<char>, ValueView)>, y: Seq<(Seq<char>, ValueView)>, n: int)
    requires
        0 <= n <= x.len(),
        !members_same(x.subrange(0, n), y),
    ensures
        !members_same(x, y),
    decreases x.len() - n,
{
    if n < x.len() {
        let xs = x.subrange(0, n + 1);
        assert(xs.subrange(0, n) =~= x.subrange(0, n));
        lemma_members_prefix(x, y, n + 1);
    } else {
        assert(x.subrange(0, n) =~= x);
    }
}

}

verus! {

/// A compared document by its fields.
pub type DocView = Seq<(Seq<char>, ValueView)>;

/// The key a document is matched by: its `_id` as BSON displays it (so type counts:
/// the int 1 and the string "1" differ), or nothing when it has no `_id`.
pub open spec fn id_key_of(doc: DocView) -> Seq<char> {
    match field_value(doc, "_id"@) {
        Some(v) => display_of(v),
        None => seq![],
    }
}

/// The key of a document.
pub fn id_key(doc: &Document) -> (r: String)
    ensures
        r@ == id_key_of(fields_view(doc@)),
{
    match get_field(doc, "_id") {
        Some(v) => display_text(v),
        None => String::new(),
    }
}

/// The documents by their fields.
pub open spec fn docs_view(docs: Seq<Document>) -> Seq<DocView> {
    docs.map_values(|d: Document| fields_view(d@))
}

/// The key of each document.
pub open spec fn keys_of(docs: Seq<DocView>) -> Seq<Seq<char>> {
    docs.map_values(|d: DocView| id_key_of(d))
}

/// A collection keyed by `_id`: one entry per distinct non-empty key, in key order,
/// naming the last document with that key (a later document with the same key
/// replaces an earlier one); documents without a key are left out.
#[verifier::opaque]
pub open spec fn keyed_ok(entries: Seq<(Seq<char>, int)>, keys: Seq<Seq<char>>) -> bool {
    &&& forall|i: int, j: int| 0 <= i < j < entries.len() ==> lex_less(entries[i].0, entries[j].0)
    &&& forall|i: int| 0 <= i < entries.len() ==> {
        let e = #[trigger] entries[i];
        &&& 0 <= e.1 < keys.len()
        &&& keys[e.1] == e.0
        &&& e.0.len() > 0
        &&& forall|k: int| e.1 < k < keys.len() ==> keys[k] != e.0
    }
    &&& forall|k: int| 0 <= k < keys.len() && keys[k].len() > 0
        ==> exists|i: int| 0 <= i < entries.len() && #[trigger] entries[i].0 == keys[k]
}

/// The entries of a keyed vector.
pub open spec fn entries_view(v: Seq<(String, usize)>) -> Seq<(Seq<char>, int)> {
    v.map_values(|e: (String, usize)| (e.0@, e.1 as int))
}

/// The first position whose key does not order before `key`, in a key-sorted vector.
fn lower_bound(entries: &Vec<(String, usize)>, key: &str) -> (r: usize)
    requires
        forall|i: int, j: int| 0 <= i < j < entries@.len()
            ==> lex_less(entries_view(entries@)[i].0, entries_view(entries@)[j].0),
    ensures
        r <= entries@.len(),
        forall|i: int| 0 <= i < r ==> lex_less(entries_view(entries@)[i].0, key@),
        forall|i: int| r <= i < entries@.len() ==> !lex_less(entries_view(entries@)[i].0, key@),
{
    proof {
        assert forall|i: int| 0 <= i < entries@.len() implies #[trigger] entries_view(entries@)[i].0 == entries@[i].0@ by {}
    }
    let mut lo: usize = 0;
    let mut hi: usize = entries.len();
    while lo < hi
        invariant
            lo <= hi <= entries@.len(),
            forall|i: int| 0 <= i < entries@.len() ==> #[trigger] entries_view(entries@)[i].0 == entries@[i].0@,
            forall|i: int, j: int| 0 <= i < j < entries@.len()
                ==> lex_less(entries_view(entries@)[i].0, entries_view(entries@)[j].0),
            forall|i: int| 0 <= i < lo ==> lex_less(entries_view(entries@)[i].0, key@),
            forall|i: int| hi <= i < entries@.len() ==> !lex_less(entries_view(entries@)[i].0, key@),
        decreases hi - lo,
    {
        let mid = lo + (hi - lo) / 2;
        let ghost ev = entries_view(entries@);
        assert(ev[mid as int].0 == entries@[mid as int].0@);
        if str_less(entries[mid].0.as_str(), key) {
            proof {
                assert forall|i: int| 0 <= i < mid + 1 implies lex_less(ev[i].0, key@) by {
                    if i < mid {
                        lemma_lex_transitive(ev[i].0, ev[mid as int].0, key@);
                    }
                }
            }
            lo = mid + 1;
        } else {
            proof {
                assert forall|i: int| mid <= i < entries@.len() implies !lex_less(ev[i].0, key@) by {
                    if i > mid {
                        lemma_lex_total(ev[mid as int].0, key@);
                        lemma_lex_total(ev[i].0, key@);
                        if lex_less(ev[i].0, key@) {
                            if ev[mid as int].0 == key@ {
                                lemma_lex_total(ev[i].0, ev[mid as int].0);
                            } else {
                                lemma_lex_transitive(key@, ev[mid as int].0, ev[i].0);
                                lemma_lex_total(key@, ev[i].0);
                            }
                        }
                    }
                }
            }
            hi = mid;
        }
    }
    lo
}

/// A document without a key leaves the keying as it is.
proof fn lemma_keyed_skip(ev: Seq<(Seq<char>, int)>, prev: Seq<Seq<char>>, key: Seq<char>)
    requires
        keyed_ok(ev, prev),
        key.len() == 0,
    ensures
        keyed_ok(ev, prev.push(key)),
{
    reveal(keyed_ok);
    let next = prev.push(key);
    assert forall|kk: int| 0 <= kk < next.len() && next[kk].len() > 0
        implies exists|i: int| 0 <= i < ev.len() && #[trigger] ev[i].0 == next[kk] by {
        assert(prev[kk] == next[kk]);
    }
    assert forall|i: int| 0 <= i < ev.len() implies {
        let e = #[trigger] ev[i];
        &&& 0 <= e.1 < next.len()
        &&& next[e.1] == e.0
        &&& e.0.len() > 0
        &&& forall|m: int| e.1 < m < next.len() ==> next[m] != e.0
    } by {
        assert(ev[i] == ev[i]);
    }
}

/// Replacing the entry of an existing key with the document at `k` keys one more document.
proof fn lemma_keyed_replace(ev: Seq<(Seq<char>, int)>, prev: Seq<Seq<char>>, key: Seq<char>, k: int, pos: int)
    requires
        keyed_ok(ev, prev),
        k == prev.len(),
        key.len() > 0,
        0 <= pos < ev.len(),
        ev[pos].0 == key,
    ensures
        keyed_ok(ev.update(pos, (key, k)), prev.push(key)),
{
    reveal(keyed_ok);
    let nv = ev.update(pos, (key, k));
    let next = prev.push(key);
    assert forall|i: int| 0 <= i < nv.len() implies {
        let e = #[trigger] nv[i];
        &&& 0 <= e.1 < next.len()
        &&& next[e.1] == e.0
        &&& e.0.len() > 0
        &&& forall|m: int| e.1 < m < next.len() ==> next[m] != e.0
    } by {
        if i != pos {
            assert(ev[i] == nv[i]);
            lemma_lex_total(ev[i].0, ev[pos].0);
            assert(ev[i].0 != key);
            assert(ev[i] == ev[i]);
        }
    }
    assert forall|kk: int| 0 <= kk < next.len() && next[kk].len() > 0
        implies exists|i: int| 0 <= i < nv.len() && #[trigger] nv[i].0 == next[kk] by {
        if kk == k {
            assert(nv[pos].0 == next[kk]);
        } else {
            assert(prev[kk] == next[kk]);
            let i = choose|i: int| 0 <= i < ev.len() && #[trigger] ev[i].0 == prev[kk];
            assert(nv[i].0 == next[kk]);
        }
    }
}

/// Where a new key goes: after every smaller key, before every larger one.
pub open spec fn insert_point(ev: Seq<(Seq<char>, int)>, key: Seq<char>, pos: int) -> bool {
    &&& 0 <= pos <= ev.len()
    &&& forall|i: int| 0 <= i < pos ==> lex_less(ev[i].0, key)
    &&& forall|i: int| pos <= i < ev.len() ==> lex_less(key, #[trigger] ev[i].0)
}

proof fn lemma_insert_point(ev: Seq<(Seq<char>, int)>, key: Seq<char>, pos: int)
    requires
        0 <= pos <= ev.len(),
        forall|i: int, j: int| 0 <= i < j < ev.len() ==> lex_less(ev[i].0, ev[j].0),
        forall|i: int| 0 <= i < pos ==> lex_less(ev[i].0, key),
        forall|i: int| pos <= i < ev.len() ==> !lex_less(ev[i].0, key),
        pos < ev.len() ==> ev[pos].0 != key,
    ensures
        insert_point(ev, key, pos),
        forall|i: int| 0 <= i < ev.len() ==> #[trigger] ev[i].0 != key,
{
    if pos < ev.len() {
        lemma_lex_total(ev[pos].0, key);
        assert(lex_less(key, ev[pos].0));
    }
    assert forall|i: int| pos <= i < ev.len() implies lex_less(key, #[trigger] ev[i].0) by {
        if i > pos {
            lemma_lex_transitive(key, ev[pos].0, ev[i].0);
        }
    }
    assert forall|i: int| 0 <= i < ev.len() implies #[trigger] ev[i].0 != key by {
        lemma_lex_total(key, key);
        if i >= pos {
            assert(lex_less(key, ev[i].0));
        }
    }
}

proof fn lemma_insert_sorted(ev: Seq<(Seq<char>, int)>, key: Seq<char>, k: int, pos: int)
    requires
        forall|i: int, j: int| 0 <= i < j < ev.len() ==> lex_less(ev[i].0, ev[j].0),
        insert_point(ev, key, pos),
    ensures
        forall|a: int, b: int| 0 <= a < b < ev.len() + 1
            ==> lex_less(ev.insert(pos, (key, k))[a].0, ev.insert(pos, (key, k))[b].0),
{
    let nv = ev.insert(pos, (key, k));
    ev.insert_ensures(pos, (key, k));
    assert forall|i: int| pos <= i < ev.len() implies #[trigger] nv[i + 1] == ev[i] by {}
    assert forall|a: int, b: int| 0 <= a < b < nv.len() implies lex_less(nv[a].0, nv[b].0) by {
        if b < pos {
        } else if b == pos {
        } else if a < pos {
            assert(nv[b] == ev[b - 1]);
            lemma_lex_transitive(nv[a].0, key, nv[b].0);
        } else if a == pos {
            assert(nv[b] == ev[b - 1]);
        } else {
            assert(nv[b] == ev[b - 1]);
            assert(nv[a] == ev[a - 1]);
        }
    }
}

proof fn lemma_insert_entries(ev: Seq<(Seq<char>, int)>, prev: Seq<Seq<char>>, key: Seq<char>, k: int, pos: int)
    requires
        keyed_ok(ev, prev),
        k == prev.len(),
        key.len() > 0,
        0 <= pos <= ev.len(),
        forall|i: int| 0 <= i < ev.len() ==> #[trigger] ev[i].0 != key,
    ensures
        forall|i: int| 0 <= i < ev.len() + 1 ==> {
            let e = #[trigger] ev.insert(pos, (key, k))[i];
            &&& 0 <= e.1 < prev.push(key).len()
            &&& prev.push(key)[e.1] == e.0
            &&& e.0.len() > 0
            &&& forall|m: int| e.1 < m < prev.push(key).len() ==> prev.push(key)[m] != e.0
        },
{
    let nv = ev.insert(pos, (key, k));
    let next = prev.push(key);
    ev.insert_ensures(pos, (key, k));
    assert forall|i: int| 0 <= i < nv.len() implies {
        let e = #[trigger] nv[i];
        &&& 0 <= e.1 < next.len()
        &&& next[e.1] == e.0
        &&& e.0.len() > 0
        &&& forall|m: int| e.1 < m < next.len() ==> next[m] != e.0
    } by {
        if i < pos {
            assert(nv[i] == ev[i]);
            lemma_keyed_fact(ev, prev, i);
        } else if i > pos {
            assert(nv[i] == ev[i - 1]);
            lemma_keyed_fact(ev, prev, i - 1);
        }
    }
}

proof fn lemma_insert_cover(ev: Seq<(Seq<char>, int)>, prev: Seq<Seq<char>>, key: Seq<char>, k: int, pos: int)
    requires
        keyed_ok(ev, prev),
        k == prev.len(),
        0 <= pos <= ev.len(),
    ensures
        forall|kk: int| 0 <= kk < prev.push(key).len() && prev.push(key)[kk].len() > 0
            ==> exists|i: int| 0 <= i < ev.len() + 1 && #[trigger] ev.insert(pos, (key, k))[i].0 == prev.push(key)[kk],
{
    let nv = ev.insert(pos, (key, k));
    let next = prev.push(key);
    ev.insert_ensures(pos, (key, k));
    assert forall|kk: int| 0 <= kk < next.len() && next[kk].len() > 0
        implies exists|i: int| 0 <= i < nv.len() && #[trigger] nv[i].0 == next[kk] by {
        if kk == k {
            assert(nv[pos].0 == next[kk]);
        } else {
            assert(prev[kk] == next[kk]);
            let i = lemma_keyed_cover(ev, prev, kk);
            if i < pos {
                assert(nv[i].0 == next[kk]);
            } else {
                assert(nv[i + 1].0 == next[kk]);
            }
        }
    }
}

/// Inserting a new key at its sorted position keys one more document.
proof fn lemma_keyed_insert(ev: Seq<(Seq<char>, int)>, prev: Seq<Seq<char>>, key: Seq<char>, k: int, pos: int)
    requires
        keyed_ok(ev, prev),
        k == prev.len(),
        key.len() > 0,
        0 <= pos <= ev.len(),
        forall|i: int| 0 <= i < pos ==> lex_less(ev[i].0, key),
        forall|i: int| pos <= i < ev.len() ==> !lex_less(ev[i].0, key),
        pos < ev.len() ==> ev[pos].0 != key,
    ensures
        keyed_ok(ev.insert(pos, (key, k)), prev.push(key)),
{
    lemma_keyed_sorted_all(ev, prev);
    lemma_insert_point(ev, key, pos);
    lemma_insert_sorted(ev, key, k, pos);
    lemma_insert_entries(ev, prev, key, k, pos);
    lemma_insert_cover(ev, prev, key, k, pos);
    assert(ev.insert(pos, (key, k)).len() == ev.len() + 1) by {
        ev.insert_ensures(pos, (key, k));
    }
    assert(keyed_ok(ev.insert(pos, (key, k)), prev.push(key))) by {
        reveal(keyed_ok);
    }
}

/// Key the documents by `_id`, in key order, each key naming its last document.
pub fn keyed_entries(docs: &Vec<Document>) -> (r: Vec<(String, usize)>)
    ensures
        keyed_ok(entries_view(r@), keys_of(docs_view(docs@))),
{
    let ghost keys = keys_of(docs_view(docs@));
    let mut entries: Vec<(String, usize)> = Vec::new();
    let mut k: usize = 0;
    assert(keys.take(0) =~= Seq::<Seq<char>>::empty());
    assert(entries_view(entries@) =~= Seq::<(Seq<char>, int)>::empty());
    proof {
        reveal(keyed_ok);
    }
    while k < docs.len()
        invariant
            k <= docs@.len(),
            keys == keys_of(docs_view(docs@)),
            keyed_ok(entries_view(entries@), keys.take(k as int)),
        decreases docs@.len() - k,
    {
        let ghost ev = entries_view(entries@);
        let ghost prev = keys.take(k as int);
        let ghost next = keys.take(k as int + 1);
        let key = id_key(&docs[k]);
        assert(keys[k as int] == key@);
        assert(next =~= prev.push(key@));
        if key.as_str().is_empty() {
            proof {
                lemma_keyed_skip(ev, prev, key@);
            }
        } else {
            proof {
                lemma_keyed_sorted_all(ev, prev);
            }
            let pos = lower_bound(&entries, key.as_str());
            if pos < entries.len() && str_eq(entries[pos].0.as_str(), key.as_str()) {
                entries.set(pos, (key, k));
                proof {
                    assert(entries_view(entries@) =~= ev.update(pos as int, (key@, k as int)));
                    lemma_keyed_replace(ev, prev, key@, k as int, pos as int);
                }
            } else {
                let ghost ne = (key@, k as int);
                entries.insert(pos, (key, k));
                proof {
                    assert(entries_view(entries@) =~= ev.insert(pos as int, ne));
                    lemma_keyed_insert(ev, prev, ne.0, k as int, pos as int);
                }
            }
        }
        k = k + 1;
    }
    assert(keys.take(docs@.len() as int) =~= keys);
    entries
}

}

verus! {

proof fn lemma_keyed_fact(a: Seq<(Seq<char>, int)>, keys: Seq<Seq<char>>, i: int)
    requires
        keyed_ok(a, keys),
        0 <= i < a.len(),
    ensures
        0 <= a[i].1 < keys.len(),
        keys[a[i].1] == a[i].0,
        a[i].0.len() > 0,
        forall|m: int| a[i].1 < m < keys.len() ==> keys[m] != a[i].0,
{
    reveal(keyed_ok);
    assert(a[i] == a[i]);
}

proof fn lemma_keyed_sorted(a: Seq<(Seq<char>, int)>, keys: Seq<Seq<char>>, i: int, j: int)
    requires
        keyed_ok(a, keys),
        0 <= i < j < a.len(),
    ensures
        lex_less(a[i].0, a[j].0),
{
    reveal(keyed_ok);
}

proof fn lemma_keyed_sorted_all(a: Seq<(Seq<char>, int)>, keys: Seq<Seq<char>>)
    requires
        keyed_ok(a, keys),
    ensures
        forall|i: int, j: int| 0 <= i < j < a.len() ==> lex_less(a[i].0, a[j].0),
{
    reveal(keyed_ok);
}

proof fn lemma_keyed_cover(a: Seq<(Seq<char>, int)>, keys: Seq<Seq<char>>, k: int) -> (m: int)
    requires
        keyed_ok(a, keys),
        0 <= k < keys.len(),
        keys[k].len() > 0,
    ensures
        0 <= m < a.len(),
        a[m].0 == keys[k],
{
    reveal(keyed_ok);
    choose|m: int| 0 <= m < a.len() && #[trigger] a[m].0 == keys[k]
}

proof fn lemma_keyed_step(a: Seq<(Seq<char>, int)>, b: Seq<(Seq<char>, int)>, keys: Seq<Seq<char>>, i: int)
    requires
        keyed_ok(a, keys),
        keyed_ok(b, keys),
        0 <= i < a.len(),
        i < b.len(),
        forall|j: int| 0 <= j < i ==> #[trigger] a[j] == b[j],
    ensures
        a[i] == b[i],
{
    let x = a[i].0;
    lemma_keyed_fact(a, keys, i);
    lemma_keyed_fact(b, keys, i);
    let m = lemma_keyed_cover(b, keys, a[i].1);
    lemma_lex_total(x, x);
    if m < i {
        assert(a[m] == b[m]);
        lemma_keyed_sorted(a, keys, m, i);
    } else if m > i {
        let y = b[i].0;
        lemma_lex_total(y, y);
        let p = lemma_keyed_cover(a, keys, b[i].1);
        if p < i {
            assert(a[p] == b[p]);
            lemma_keyed_sorted(b, keys, p, i);
        } else if p == i {
            lemma_keyed_sorted(b, keys, i, m);
        } else {
            lemma_keyed_sorted(a, keys, i, p);
            lemma_keyed_sorted(b, keys, i, m);
            lemma_lex_transitive(x, y, x);
        }
    }
    assert(b[i].0 == x);
    let (ka, kb) = (a[i].1, b[i].1);
    if ka < kb {
        assert(keys[kb] == x);
    } else if kb < ka {
        assert(keys[ka] == x);
    }
}

proof fn lemma_keyed_prefix_equal(a: Seq<(Seq<char>, int)>, b: Seq<(Seq<char>, int)>, keys: Seq<Seq<char>>, n: int)
    requires
        keyed_ok(a, keys),
        keyed_ok(b, keys),
        0 <= n <= a.len(),
        n <= b.len(),
    ensures
        forall|i: int| 0 <= i < n ==> #[trigger] a[i] == b[i],
    decreases n,
{
    if n > 0 {
        lemma_keyed_prefix_equal(a, b, keys, n - 1);
        lemma_keyed_step(a, b, keys, n - 1);
    }
}

/// The keyed view of a collection is determined by its documents' keys: two keyings
/// that both satisfy `keyed_ok` are the same.
pub proof fn law_keyed_is_unique(a: Seq<(Seq<char>, int)>, b: Seq<(Seq<char>, int)>, keys: Seq<Seq<char>>)
    requires
        keyed_ok(a, keys),
        keyed_ok(b, keys),
    ensures
        a == b,
{
    if a.len() > b.len() {
        lemma_keyed_prefix_equal(a, b, keys, b.len() as int);
        let i = b.len() as int;
        lemma_keyed_fact(a, keys, i);
        let m = lemma_keyed_cover(b, keys, a[i].1);
        assert(a[m] == b[m]);
        lemma_keyed_sorted(a, keys, m, i);
        lemma_lex_total(a[i].0, a[i].0);
    } else if b.len() > a.len() {
        lemma_keyed_prefix_equal(b, a, keys, a.len() as int);
        let i = a.len() as int;
        lemma_keyed_fact(b, keys, i);
        let m = lemma_keyed_cover(a, keys, b[i].1);
        assert(b[m] == a[m]);
        lemma_keyed_sorted(b, keys, m, i);
        lemma_lex_total(b[i].0, b[i].0);
    } else {
        lemma_keyed_prefix_equal(a, b, keys, a.len() as int);
        assert(a =~= b);
    }
}

}

verus! {

/// How many samples of each kind a diff keeps.
pub const SAMPLE_CAP: usize = 100;

/// One document present on both sides with different content: its key and both
/// documents as compact relaxed extended JSON.
#[derive(Debug)]
pub struct DiffPair {
    pub id: String,
    pub source: String,
    pub target: String,
}

/// The diff of two collections keyed by `_id`: the keyed totals, how many keys are only
/// in the source, only in the target, on both sides and differing or identical, and
/// capped samples (JSON texts) in key order.
#[derive(Debug)]
pub struct DiffResult {
    pub source_total: u64,
    pub target_total: u64,
    pub only_in_source_count: u64,
    pub only_in_target_count: u64,
    pub differing_count: u64,
    pub identical_count: u64,
    pub only_in_source: Vec<String>,
    pub only_in_target: Vec<String>,
    pub differing: Vec<DiffPair>,
}

/// The document a keying names for `key` (its last entry with the key), if it has the key.
pub open spec fn doc_for(entries: Seq<(Seq<char>, int)>, docs: Seq<DocView>, key: Seq<char>) -> Option<DocView>
    decreases entries.len(),
{
    if entries.len() == 0 {
        None
    } else if entries.last().0 == key {
        Some(docs[entries.last().1])
    } else {
        doc_for(entries.drop_last(), docs, key)
    }
}

/// Keys of one side the other side lacks.
pub open spec fn missing_from(other: Seq<(Seq<char>, int)>, other_docs: Seq<DocView>) -> spec_fn((Seq<char>, int)) -> bool {
    |e: (Seq<char>, int)| doc_for(other, other_docs, e.0) is None
}

/// Source keys whose target document has equal content (`same`) or different content.
pub open spec fn matched(sv: Seq<DocView>, kt: Seq<(Seq<char>, int)>, tv: Seq<DocView>, same: bool) -> spec_fn((Seq<char>, int)) -> bool {
    |e: (Seq<char>, int)| match doc_for(kt, tv, e.0) {
        Some(t) => json_same(ValueView::Document(sv[e.1]), ValueView::Document(t)) == same,
        None => false,
    }
}

/// The first `SAMPLE_CAP` elements.
pub open spec fn sample_of<A>(s: Seq<A>) -> Seq<A> {
    if s.len() <= SAMPLE_CAP { s } else { s.take(SAMPLE_CAP as int) }
}

/// The JSON text of a keyed document.
pub open spec fn entry_json(docs: Seq<DocView>) -> spec_fn((Seq<char>, int)) -> Seq<char> {
    |e: (Seq<char>, int)| json_text(ValueView::Document(docs[e.1]))
}

/// The differing pairs as (key, source JSON, target JSON).
pub open spec fn pairs_view(v: Seq<DiffPair>) -> Seq<(Seq<char>, Seq<char>, Seq<char>)> {
    v.map_values(|p: DiffPair| (p.id@, p.source@, p.target@))
}

/// Everything a diff reports, for given keyings of the two sides.
pub open spec fn diff_matches(r: DiffResult, sv: Seq<DocView>, ks: Seq<(Seq<char>, int)>, tv: Seq<DocView>, kt: Seq<(Seq<char>, int)>) -> bool {
    let only_s = keep_where(ks, missing_from(kt, tv));
    let only_t = keep_where(kt, missing_from(ks, sv));
    let same = keep_where(ks, matched(sv, kt, tv, true));
    let differ = keep_where(ks, matched(sv, kt, tv, false));
    &&& r.source_total == ks.len()
    &&& r.target_total == kt.len()
    &&& r.only_in_source_count == only_s.len()
    &&& r.only_in_target_count == only_t.len()
    &&& r.identical_count == same.len()
    &&& r.differing_count == differ.len()
    &&& crate::text::views(r.only_in_source@) == sample_of(only_s).map_values(entry_json(sv))
    &&& crate::text::views(r.only_in_target@) == sample_of(only_t).map_values(entry_json(tv))
    &&& pairs_view(r.differing@) == sample_of(differ).map_values(|e: (Seq<char>, int)|
        (e.0, json_text(ValueView::Document(sv[e.1])), json_text(ValueView::Document(doc_for(kt, tv, e.0)->Some_0))))
}

}

verus! {

/// Adding one element to a selection adds it to the sample while the sample has room.
proof fn lemma_sample_push<A>(s: Seq<A>, x: A)
    ensures
        sample_of(s.push(x)) == if s.len() < SAMPLE_CAP { sample_of(s).push(x) } else { sample_of(s) },
{
    if s.len() >= SAMPLE_CAP {
        assert(s.push(x).take(SAMPLE_CAP as int) =~= sample_of(s));
    }
}

/// In entries with distinct keys, the entry that holds a key is the one `doc_for` names;
/// a key no entry holds names nothing.
proof fn lemma_doc_for_distinct(entries: Seq<(Seq<char>, int)>, docs: Seq<DocView>, key: Seq<char>)
    requires
        forall|i: int, j: int| 0 <= i < j < entries.len() ==> entries[i].0 != entries[j].0,
    ensures
        forall|j: int| 0 <= j < entries.len() && entries[j].0 == key
            ==> doc_for(entries, docs, key) == Some(docs[entries[j].1]),
        (forall|j: int| 0 <= j < entries.len() ==> entries[j].0 != key) ==> doc_for(entries, docs, key) is None,
    decreases entries.len(),
{
    if entries.len() > 0 {
        let d = entries.drop_last();
        assert forall|i: int, j: int| 0 <= i < j < d.len() implies d[i].0 != d[j].0 by {
            assert(d[i] == entries[i] && d[j] == entries[j]);
        }
        lemma_doc_for_distinct(d, docs, key);
        assert forall|j: int| 0 <= j < entries.len() && entries[j].0 == key
            implies doc_for(entries, docs, key) == Some(docs[entries[j].1]) by {
            if j < entries.len() - 1 {
                assert(entries.last().0 != key);
                assert(d[j] == entries[j]);
            }
        }
        if forall|j: int| 0 <= j < entries.len() ==> entries[j].0 != key {
            assert forall|j: int| 0 <= j < d.len() implies d[j].0 != key by {
                assert(d[j] == entries[j]);
            }
            assert(entries.last().0 != key);
        }
    }
}

/// Keys in a keying are distinct.
proof fn lemma_keyed_distinct(entries: Seq<(Seq<char>, int)>, keys: Seq<Seq<char>>)
    requires
        keyed_ok(entries, keys),
    ensures
        forall|i: int, j: int| 0 <= i < j < entries.len() ==> entries[i].0 != entries[j].0,
{
    lemma_keyed_sorted_all(entries, keys);
    assert forall|i: int, j: int| 0 <= i < j < entries.len() implies entries[i].0 != entries[j].0 by {
        lemma_lex_total(entries[i].0, entries[i].0);
    }
}

/// The position of `key` in a keying, if it holds it.
fn find_entry(entries: &Vec<(String, usize)>, key: &str, Ghost(keys): Ghost<Seq<Seq<char>>>) -> (r: Option<usize>)
    requires
        keyed_ok(entries_view(entries@), keys),
    ensures
        match r {
            Some(j) => j < entries@.len() && entries_view(entries@)[j as int].0 == key@,
            None => forall|j: int| 0 <= j < entries@.len() ==> #[trigger] entries_view(entries@)[j].0 != key@,
        },
{
    proof {
        lemma_keyed_sorted_all(entries_view(entries@), keys);
    }
    let pos = lower_bound(entries, key);
    let ghost ev = entries_view(entries@);
    if pos < entries.len() {
        assert(ev[pos as int].0 == entries@[pos as int].0@);
        if str_eq(entries[pos].0.as_str(), key) {
            return Some(pos);
        }
    }
    proof {
        assert forall|j: int| 0 <= j < entries@.len() implies #[trigger] ev[j].0 != key@ by {
            lemma_lex_total(key@, key@);
            if j > pos {
                lemma_lex_total(ev[pos as int].0, key@);
                lemma_lex_transitive(key@, ev[pos as int].0, ev[j].0);
            }
        }
    }
    None
}

/// Whether two documents convert to equal JSON objects.
fn same_document(x: &Document, y: &Document) -> (r: bool)
    ensures
        r == json_same(ValueView::Document(fields_view(x@)), ValueView::Document(fields_view(y@))),
{
    if x.len() != y.len() {
        false
    } else {
        same_members(x, y)
    }
}

}

verus! {

/// Diff two keyed collections: walk the source keys (only-in-source, identical or
/// differing), then the target keys (only-in-target), counting each kind and keeping
/// the first `SAMPLE_CAP` of each as JSON text.
#[verifier::rlimit(30)]
pub fn diff_keyed(source: &Vec<Document>, ks: &Vec<(String, usize)>, target: &Vec<Document>, kt: &Vec<(String, usize)>) -> (r: DiffResult)
    requires
        keyed_ok(entries_view(ks@), keys_of(docs_view(source@))),
        keyed_ok(entries_view(kt@), keys_of(docs_view(target@))),
    ensures
        diff_matches(r, docs_view(source@), entries_view(ks@), docs_view(target@), entries_view(kt@)),
{
    let ghost sv = docs_view(source@);
    let ghost tv = docs_view(target@);
    let ghost es = entries_view(ks@);
    let ghost et = entries_view(kt@);
    let ghost p_only = missing_from(et, tv);
    let ghost p_same = matched(sv, et, tv, true);
    let ghost p_diff = matched(sv, et, tv, false);
    proof {
        lemma_keyed_distinct(et, keys_of(tv));
        lemma_keyed_distinct(es, keys_of(sv));
        lemma_doc_for_distinct(et, tv, Seq::empty());
    }
    let mut only_s_count: u64 = 0;
    let mut same_count: u64 = 0;
    let mut diff_count: u64 = 0;
    let mut only_s: Vec<String> = Vec::new();
    let mut differing: Vec<DiffPair> = Vec::new();
    let mut i: usize = 0;
    assert(es.take(0) =~= Seq::<(Seq<char>, int)>::empty());
    assert(crate::text::views(only_s@) =~= Seq::<Seq<char>>::empty());
    assert(pairs_view(differing@) =~= Seq::<(Seq<char>, Seq<char>, Seq<char>)>::empty());
    while i < ks.len()
        invariant
            i <= ks@.len(),
            sv == docs_view(source@),
            tv == docs_view(target@),
            es == entries_view(ks@),
            et == entries_view(kt@),
            keyed_ok(es, keys_of(sv)),
            keyed_ok(et, keys_of(tv)),
            forall|a: int, b: int| 0 <= a < b < et.len() ==> et[a].0 != et[b].0,
            p_only == missing_from(et, tv),
            p_same == matched(sv, et, tv, true),
            p_diff == matched(sv, et, tv, false),
            only_s_count == keep_where(es.take(i as int), p_only).len(),
            same_count == keep_where(es.take(i as int), p_same).len(),
            diff_count == keep_where(es.take(i as int), p_diff).len(),
            crate::text::views(only_s@) == sample_of(keep_where(es.take(i as int), p_only)).map_values(entry_json(sv)),
            pairs_view(differing@) == sample_of(keep_where(es.take(i as int), p_diff)).map_values(|e: (Seq<char>, int)|
                (e.0, json_text(ValueView::Document(sv[e.1])), json_text(ValueView::Document(doc_for(et, tv, e.0)->Some_0)))),
        decreases ks@.len() - i,
    {
        let ghost e = es[i as int];
        let ghost before = es.take(i as int);
        assert(es.take(i as int + 1) =~= before.push(e));
        proof {
            lemma_keep_push(before, p_only, e);
            lemma_keep_push(before, p_same, e);
            lemma_keep_push(before, p_diff, e);
            lemma_keep_all_satisfy(before, p_only);
            lemma_keep_all_satisfy(before, p_same);
            lemma_keep_all_satisfy(before, p_diff);
            lemma_sample_push(keep_where(before, p_only), e);
            lemma_sample_push(keep_where(before, p_diff), e);
            lemma_keyed_fact(es, keys_of(sv), i as int);
        }
        let idx = ks[i].1;
        assert(e == (ks@[i as int].0@, idx as int));
        assert(sv[idx as int] == fields_view(source@[idx as int]@));
        match find_entry(kt, ks[i].0.as_str(), Ghost(keys_of(tv))) {
            None => {
                proof {
                    lemma_doc_for_distinct(et, tv, e.0);
                }
                assert(p_only(e) && !p_same(e) && !p_diff(e));
                only_s_count = only_s_count + 1;
                if only_s.len() < SAMPLE_CAP {
                    let text = document_json(&source[idx]);
                    let ghost prev = only_s@;
                    only_s.push(text);
                    assert(crate::text::views(only_s@) =~= crate::text::views(prev).push(entry_json(sv)(e)));
                }
                proof {
                    assert(sample_of(keep_where(before, p_only).push(e)).map_values(entry_json(sv))
                        =~= if keep_where(before, p_only).len() < SAMPLE_CAP {
                            sample_of(keep_where(before, p_only)).map_values(entry_json(sv)).push(entry_json(sv)(e))
                        } else {
                            sample_of(keep_where(before, p_only)).map_values(entry_json(sv))
                        });
                }
            },
            Some(j) => {
                proof {
                    lemma_doc_for_distinct(et, tv, e.0);
                    lemma_keyed_fact(et, keys_of(tv), j as int);
                }
                let tidx = kt[j].1;
                assert(et[j as int] == (kt@[j as int].0@, tidx as int));
                assert(doc_for(et, tv, e.0) == Some(tv[tidx as int]));
                assert(tv[tidx as int] == fields_view(target@[tidx as int]@));
                let same = same_document(&source[idx], &target[tidx]);
                assert(!p_only(e));
                if same {
                    assert(p_same(e) && !p_diff(e));
                    same_count = same_count + 1;
                } else {
                    assert(!p_same(e) && p_diff(e));
                    diff_count = diff_count + 1;
                    if differing.len() < SAMPLE_CAP {
                        let pair = DiffPair {
                            id: ks[i].0.clone(),
                            source: document_json(&source[idx]),
                            target: document_json(&target[tidx]),
                        };
                        let ghost prev = differing@;
                        let ghost pv = (pair.id@, pair.source@, pair.target@);
                        differing.push(pair);
                        assert(pairs_view(differing@) =~= pairs_view(prev).push(pv));
                    }
                    proof {
                        let f = |e: (Seq<char>, int)|
                            (e.0, json_text(ValueView::Document(sv[e.1])), json_text(ValueView::Document(doc_for(et, tv, e.0)->Some_0)));
                        assert(sample_of(keep_where(before, p_diff).push(e)).map_values(f)
                            =~= if keep_where(before, p_diff).len() < SAMPLE_CAP {
                                sample_of(keep_where(before, p_diff)).map_values(f).push(f(e))
                            } else {
                                sample_of(keep_where(before, p_diff)).map_values(f)
                            });
                    }
                }
            },
        }
        i = i + 1;
    }
    assert(es.take(ks@.len() as int) =~= es);
    // Walk the target keys for those the source lacks.
    let ghost q_only = missing_from(es, sv);
    let mut only_t_count: u64 = 0;
    let mut only_t: Vec<String> = Vec::new();
    let mut j: usize = 0;
    assert(et.take(0) =~= Seq::<(Seq<char>, int)>::empty());
    assert(crate::text::views(only_t@) =~= Seq::<Seq<char>>::empty());
    while j < kt.len()
        invariant
            j <= kt@.len(),
            sv == docs_view(source@),
            tv == docs_view(target@),
            es == entries_view(ks@),
            et == entries_view(kt@),
            keyed_ok(es, keys_of(sv)),
            keyed_ok(et, keys_of(tv)),
            forall|a: int, b: int| 0 <= a < b < es.len() ==> es[a].0 != es[b].0,
            q_only == missing_from(es, sv),
            only_t_count == keep_where(et.take(j as int), q_only).len(),
            crate::text::views(only_t@) == sample_of(keep_where(et.take(j as int), q_only)).map_values(entry_json(tv)),
        decreases kt@.len() - j,
    {
        let ghost e = et[j as int];
        let ghost before = et.take(j as int);
        assert(et.take(j as int + 1) =~= before.push(e));
        proof {
            lemma_keep_push(before, q_only, e);
            lemma_keep_all_satisfy(before, q_only);
            lemma_sample_push(keep_where(before, q_only), e);
            lemma_keyed_fact(et, keys_of(tv), j as int);
            lemma_doc_for_distinct(es, sv, e.0);
        }
        let tidx = kt[j].1;
        assert(e == (kt@[j as int].0@, tidx as int));
        assert(tv[tidx as int] == fields_view(target@[tidx as int]@));
        match find_entry(ks, kt[j].0.as_str(), Ghost(keys_of(sv))) {
            None => {
                assert(q_only(e));
                only_t_count = only_t_count + 1;
                if only_t.len() < SAMPLE_CAP {
                    let text = document_json(&target[tidx]);
                    let ghost prev = only_t@;
                    only_t.push(text);
                    assert(crate::text::views(only_t@) =~= crate::text::views(prev).push(entry_json(tv)(e)));
                }
                proof {
                    assert(sample_of(keep_where(before, q_only).push(e)).map_values(entry_json(tv))
                        =~= if keep_where(before, q_only).len() < SAMPLE_CAP {
                            sample_of(keep_where(before, q_only)).map_values(entry_json(tv)).push(entry_json(tv)(e))
                        } else {
                            sample_of(keep_where(before, q_only)).map_values(entry_json(tv))
                        });
                }
            },
            Some(m) => {
                assert(!q_only(e));
            },
        }
        j = j + 1;
    }
    assert(et.take(kt@.len() as int) =~= et);
    DiffResult {
        source_total: ks.len() as u64,
        target_total: kt.len() as u64,
        only_in_source_count: only_s_count,
        only_in_target_count: only_t_count,
        differing_count: diff_count,
        identical_count: same_count,
        only_in_source: only_s,
        only_in_target: only_t,
        differing,
    }
}

}

verus! {

/// Pure diff of two document sets, keyed by `_id`. Content equality is
/// order-insensitive (compared as JSON), so a differing field order alone does not count
/// as a difference. Documents with no `_id` are ignored, and of documents sharing an
/// `_id` the last one counts. The keyings are unique (`law_keyed_is_unique`), so the
/// result is determined by the documents.
pub fn diff_docs(source: &Vec<Document>, target: &Vec<Document>) -> (r: DiffResult)
    ensures
        exists|ks: Seq<(Seq<char>, int)>, kt: Seq<(Seq<char>, int)>|
            keyed_ok(ks, keys_of(docs_view(source@)))
            && keyed_ok(kt, keys_of(docs_view(target@)))
            && diff_matches(r, docs_view(source@), ks, docs_view(target@), kt),
{
    let ks = keyed_entries(source);
    let kt = keyed_entries(target);
    let r = diff_keyed(source, &ks, target, &kt);
    assert(keyed_ok(entries_view(ks@), keys_of(docs_view(source@)))
        && keyed_ok(entries_view(kt@), keys_of(docs_view(target@)))
        && diff_matches(r, docs_view(source@), entries_view(ks@), docs_view(target@), entries_view(kt@)));
    r
}

/// Documents scanned per side when no positive limit is given.
pub const DEFAULT_COMPARE_SCAN: i64 = 2000;
/// The most documents scanned per side.
pub const MAX_COMPARE_SCAN: i64 = 20000;

/// Documents to scan per side: a positive request capped at `MAX_COMPARE_SCAN`, else
/// `DEFAULT_COMPARE_SCAN`.
pub fn compare_scan(requested: Option<i64>) -> (r: i64)
    ensures
        r == match requested {
            Some(v) => if v > 0 { if v < MAX_COMPARE_SCAN { v } else { MAX_COMPARE_SCAN } } else { DEFAULT_COMPARE_SCAN },
            None => DEFAULT_COMPARE_SCAN,
        },
{
    match requested {
        Some(v) => if v > 0 { if v < MAX_COMPARE_SCAN { v } else { MAX_COMPARE_SCAN } } else { DEFAULT_COMPARE_SCAN },
        None => DEFAULT_COMPARE_SCAN,
    }
}

}
