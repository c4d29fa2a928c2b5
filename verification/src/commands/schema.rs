//! Schema inference over a sample of documents: for every dotted path, how many
//! sampled documents hold it and how often each BSON type occurs there.

use vstd::prelude::*;
use crate::commands::search::key_path;
use crate::text::{lex_less, lemma_lex_total, lemma_lex_transitive, push_char, push_str, str_eq, str_less};
use crate::value::{fields_view, lemma_document_view, Document, Value, ValueView};

verus! {

/// A path and one type it held.
pub type PathType = (Seq<char>, Seq<char>);

/// The mongo shell's name for a value's BSON type.
pub open spec fn kind_of(v: ValueView) -> Seq<char> {
    match v {
        ValueView::Double { .. } => "double"@,
        ValueView::Text(_) => "string"@,
        ValueView::Document(_) => "object"@,
        ValueView::Array(_) => "array"@,
        ValueView::ObjectId(_) => "objectId"@,
        ValueView::Bool(_) => "bool"@,
        ValueView::DateTime { .. } => "date"@,
        ValueView::Null => "null"@,
        ValueView::Int32(_) => "int"@,
        ValueView::Int64(_) => "long"@,
        ValueView::Decimal { .. } => "decimal"@,
        ValueView::Other { kind, .. } => kind,
    }
}

/// Human-readable BSON type name, the vocabulary the mongo shell uses.
pub fn bson_kind(value: &Value) -> (r: String)
    ensures
        r@ == kind_of(value@),
{
    match value {
        Value::Double(_) => "double".to_owned(),
        Value::Text(_) => "string".to_owned(),
        Value::Document(_) => "object".to_owned(),
        Value::Array(_) => "array".to_owned(),
        Value::ObjectId(_) => "objectId".to_owned(),
        Value::Bool(_) => "bool".to_owned(),
        Value::DateTime(_) => "date".to_owned(),
        Value::Null => "null".to_owned(),
        Value::Int32(_) => "int".to_owned(),
        Value::Int64(_) => "long".to_owned(),
        Value::Decimal(_) => "decimal".to_owned(),
        Value::Other(o) => o.kind.clone(),
    }
}

/// Every (path, type) a document's fields hold under `prefix`, in walk order: each
/// field's own path and type, then the paths inside it. Elements of an array that are
/// documents contribute their fields under the array's own path.
pub open spec fn path_types(fields: Seq<(Seq<char>, ValueView)>, prefix: Seq<char>) -> Seq<PathType> {
    field_type_parts(fields, prefix).flatten()
}

/// The (path, type) pairs of each field, one group per field.
pub open spec fn field_type_parts(fields: Seq<(Seq<char>, ValueView)>, prefix: Seq<char>) -> Seq<Seq<PathType>>
    decreases fields,
{
    Seq::new(fields.len(), |i: int|
        if 0 <= i < fields.len() { field_types(fields[i], prefix) } else { Seq::<PathType>::empty() })
}

/// The (path, type) pairs one field contributes.
pub open spec fn field_types(field: (Seq<char>, ValueView), prefix: Seq<char>) -> Seq<PathType>
    decreases field,
{
    let path = key_path(prefix, field.0);
    seq![(path, kind_of(field.1))] + match field.1 {
        ValueView::Document(sub) => field_type_parts(sub, path).flatten(),
        ValueView::Array(items) => item_type_parts(items, path).flatten(),
        _ => Seq::<PathType>::empty(),
    }
}

/// The (path, type) pairs of the document elements of an array, one group per element.
pub open spec fn item_type_parts(items: Seq<ValueView>, path: Seq<char>) -> Seq<Seq<PathType>>
    decreases items,
{
    Seq::new(items.len(), |i: int|
        if 0 <= i < items.len() {
            match items[i] {
                ValueView::Document(sub) => field_type_parts(sub, path).flatten(),
                _ => Seq::<PathType>::empty(),
            }
        } else {
            Seq::<PathType>::empty()
        })
}

/// The pairs held in a vector.
pub open spec fn pairs_view(v: Seq<(String, String)>) -> Seq<PathType> {
    v.map_values(|p: (String, String)| (p.0@, p.1@))
}

/// A concatenation holds what either part holds.
pub proof fn lemma_concat_contains<A>(a: Seq<A>, b: Seq<A>, x: A)
    ensures
        (a + b).contains(x) <==> a.contains(x) || b.contains(x),
{
    if a.contains(x) {
        let i = choose|i: int| 0 <= i < a.len() && a[i] == x;
        assert((a + b)[i] == x);
    }
    if b.contains(x) {
        let i = choose|i: int| 0 <= i < b.len() && b[i] == x;
        assert((a + b)[a.len() + i] == x);
    }
    if (a + b).contains(x) {
        let i = choose|i: int| 0 <= i < (a + b).len() && (a + b)[i] == x;
        if i < a.len() {
            assert(a[i] == x);
        } else {
            assert(b[i - a.len()] == x);
        }
    }
}

/// The relation the collecting functions keep: `seen` holds what it held before and
/// the pairs of `more`, each once.
pub open spec fn holds_union(seen: Seq<PathType>, before: Seq<PathType>, more: Seq<PathType>) -> bool {
    &&& seen.no_duplicates()
    &&& forall|x: PathType| seen.contains(x) <==> (before.contains(x) || more.contains(x))
}

/// Add a (path, type) pair to a document's list unless it is already there, so each
/// type counts once per path per document.
fn record_type(path: &str, kind: String, seen: &mut Vec<(String, String)>)
    requires
        pairs_view(old(seen)@).no_duplicates(),
    ensures
        holds_union(pairs_view(final(seen)@), pairs_view(old(seen)@), seq![(path@, kind@)]),
{
    let ghost target = (path@, kind@);
    let ghost one = seq![target];
    assert(one[0] == target);
    assert(forall|x: PathType| one.contains(x) <==> x == target);
    let mut i: usize = 0;
    while i < seen.len()
        invariant
            i <= seen@.len(),
            seen@ == old(seen)@,
            pairs_view(old(seen)@).no_duplicates(),
            target == (path@, kind@),
            forall|k: int| 0 <= k < i ==> pairs_view(seen@)[k] != target,
        decreases seen@.len() - i,
    {
        if str_eq(seen[i].0.as_str(), path) && str_eq(seen[i].1.as_str(), kind.as_str()) {
            assert(pairs_view(seen@)[i as int] == target);
            return;
        }
        i = i + 1;
    }
    let ghost before = pairs_view(seen@);
    seen.push((path.to_owned(), kind));
    proof {
        assert(pairs_view(seen@) =~= before.push(target));
        assert(!before.contains(target));
        assert(before.push(target) =~= before + one);
        assert forall|x: PathType| pairs_view(seen@).contains(x) <==> (before.contains(x) || one.contains(x)) by {
            lemma_concat_contains(before, one, x);
        }
    }
}

/// Adding `b` after `a` to what a list held adds the pairs of `a + b`.
proof fn lemma_union_step(s0: Seq<PathType>, s1: Seq<PathType>, s2: Seq<PathType>, a: Seq<PathType>, b: Seq<PathType>)
    requires
        holds_union(s1, s0, a),
        holds_union(s2, s1, b),
    ensures
        holds_union(s2, s0, a + b),
{
    assert forall|x: PathType| s2.contains(x) <==> (s0.contains(x) || (a + b).contains(x)) by {
        lemma_concat_contains(a, b, x);
    }
}

/// The path of field `key` under `prefix`.
fn field_path(prefix: &str, key: &str) -> (r: String)
    ensures
        r@ == key_path(prefix@, key@),
{
    if prefix.is_empty() {
        key.to_owned()
    } else {
        let mut p = prefix.to_owned();
        push_char(&mut p, '.');
        push_str(&mut p, key);
        p
    }
}

/// Record every (path, type) found among `fields` under `prefix` into `seen`.
pub fn collect_paths(fields: &Document, prefix: &str, seen: &mut Vec<(String, String)>)
    requires
        pairs_view(old(seen)@).no_duplicates(),
    ensures
        holds_union(pairs_view(final(seen)@), pairs_view(old(seen)@), path_types(fields_view(fields@), prefix@)),
    decreases fields,
{
    let ghost start = pairs_view(seen@);
    let ghost fv = fields_view(fields@);
    let ghost parts = field_type_parts(fv, prefix@);
    assert(parts.take(0).flatten() =~= Seq::<PathType>::empty());
    let mut i: usize = 0;
    while i < fields.len()
        invariant
            i <= fields@.len(),
            fv == fields_view(fields@),
            parts == field_type_parts(fv, prefix@),
            holds_union(pairs_view(seen@), start, parts.take(i as int).flatten()),
        decreases fields@.len() - i,
    {
        let ghost before = pairs_view(seen@);
        assert(fv[i as int] == (fields@[i as int].0@, fields@[i as int].1@));
        assert(decreases_to!(*fields => fields@));
        assert(decreases_to!(fields@ => fields@[i as int]));
        assert(decreases_to!(fields@[i as int] => fields@[i as int].1));
        collect_field(fields[i].0.as_str(), &fields[i].1, prefix, seen);
        proof {
            assert(parts[i as int] == field_types(fv[i as int], prefix@));
            assert(parts.take(i as int + 1) =~= parts.take(i as int).push(parts[i as int]));
            parts.take(i as int).lemma_flatten_push(parts[i as int]);
            lemma_union_step(start, before, pairs_view(seen@), parts.take(i as int).flatten(), parts[i as int]);
        }
        i = i + 1;
    }
    proof {
        assert(parts.take(fv.len() as int) =~= parts);
    }
}

/// Record the pairs of one field: its own path and type, then the pairs inside it.
fn collect_field(key: &str, value: &Value, prefix: &str, seen: &mut Vec<(String, String)>)
    requires
        pairs_view(old(seen)@).no_duplicates(),
    ensures
        holds_union(pairs_view(final(seen)@), pairs_view(old(seen)@), field_types((key@, value@), prefix@)),
    decreases value,
{
    let ghost start = pairs_view(seen@);
    let path = field_path(prefix, key);
    let kind = bson_kind(value);
    let ghost own = seq![(path@, kind@)];
    record_type(path.as_str(), kind, seen);
    let ghost mid = pairs_view(seen@);
    match value {
        Value::Document(sub) => {
            proof {
                lemma_document_view(*sub);
            }
            assert(decreases_to!(*value => value->Document_0));
            collect_paths(sub, path.as_str(), seen);
            proof {
                lemma_union_step(start, mid, pairs_view(seen@), own, path_types(fields_view(sub@), path@));
            }
        },
        Value::Array(items) => {
            assert(decreases_to!(*value => value->Array_0));
            collect_items(items, path.as_str(), seen);
            proof {
                let iv = value@->Array_0;
                assert(iv =~= items@.map_values(|v: Value| v@));
                lemma_union_step(start, mid, pairs_view(seen@), own, item_type_parts(iv, path@).flatten());
            }
        },
        _ => {
            assert(own + Seq::<PathType>::empty() =~= own);
        },
    }
}

/// Record the pairs of the document elements of an array, under the array's path.
fn collect_items(items: &Vec<Value>, path: &str, seen: &mut Vec<(String, String)>)
    requires
        pairs_view(old(seen)@).no_duplicates(),
    ensures
        holds_union(pairs_view(final(seen)@), pairs_view(old(seen)@),
            item_type_parts(items@.map_values(|v: Value| v@), path@).flatten()),
    decreases items,
{
    let ghost start = pairs_view(seen@);
    let ghost iv = items@.map_values(|v: Value| v@);
    let ghost parts = item_type_parts(iv, path@);
    assert(parts.take(0).flatten() =~= Seq::<PathType>::empty());
    let mut j: usize = 0;
    while j < items.len()
        invariant
            j <= items@.len(),
            iv == items@.map_values(|v: Value| v@),
            parts == item_type_parts(iv, path@),
            holds_union(pairs_view(seen@), start, parts.take(j as int).flatten()),
        decreases items@.len() - j,
    {
        let ghost before = pairs_view(seen@);
        match &items[j] {
            Value::Document(sub) => {
                proof {
                    lemma_document_view(*sub);
                }
                assert(decreases_to!(*items => items@));
                assert(decreases_to!(items@ => items@[j as int]));
                assert(decreases_to!(items@[j as int] => items@[j as int]->Document_0));
                collect_paths(sub, path, seen);
            },
            _ => {
                assert(holds_union(pairs_view(seen@), before, Seq::<PathType>::empty()));
            },
        }
        proof {
            assert(parts.take(j as int + 1) =~= parts.take(j as int).push(parts[j as int]));
            parts.take(j as int).lemma_flatten_push(parts[j as int]);
            lemma_union_step(start, before, pairs_view(seen@), parts.take(j as int).flatten(), parts[j as int]);
        }
        j = j + 1;
    }
    proof {
        assert(parts.take(iv.len() as int) =~= parts);
    }
}

}

verus! {

/// One BSON type a path took and in how many sampled documents.
#[derive(Debug)]
pub struct TypeCount {
    pub bson_type: String,
    pub count: u64,
}

/// A dotted path, how many sampled documents contain it, and its per-type counts.
#[derive(Debug)]
pub struct FieldSchema {
    pub path: String,
    pub present: u64,
    pub types: Vec<TypeCount>,
}

/// The inferred schema of a sample: its size and one entry per path.
#[derive(Debug)]
pub struct SchemaReport {
    pub sampled: u64,
    pub fields: Vec<FieldSchema>,
}

/// No two entries name the same type.
pub open spec fn names_distinct(ts: Seq<TypeCount>) -> bool {
    forall|m: int, n: int| 0 <= m < ts.len() && 0 <= n < ts.len() && m != n
        ==> ts[m].bson_type@ != ts[n].bson_type@
}

/// The entries are in strictly increasing order of type name.
pub open spec fn names_sorted(ts: Seq<TypeCount>) -> bool {
    forall|m: int, n: int| 0 <= m < n < ts.len() ==> lex_less(ts[m].bson_type@, ts[n].bson_type@)
}

/// The count an entry list gives type `t` (zero when no entry names it).
pub open spec fn count_in(ts: Seq<TypeCount>, t: Seq<char>) -> int {
    if exists|m: int| 0 <= m < ts.len() && ts[m].bson_type@ == t {
        ts[choose|m: int| 0 <= m < ts.len() && ts[m].bson_type@ == t].count as int
    } else {
        0
    }
}

/// Sorted names are distinct.
proof fn lemma_sorted_distinct(ts: Seq<TypeCount>)
    requires
        names_sorted(ts),
    ensures
        names_distinct(ts),
{
    assert forall|m: int, n: int| 0 <= m < ts.len() && 0 <= n < ts.len() && m != n
        implies ts[m].bson_type@ != ts[n].bson_type@ by {
        lemma_lex_total(ts[m].bson_type@, ts[m].bson_type@);
        if m < n {
            assert(lex_less(ts[m].bson_type@, ts[n].bson_type@));
        } else {
            assert(lex_less(ts[n].bson_type@, ts[m].bson_type@));
            lemma_lex_total(ts[n].bson_type@, ts[n].bson_type@);
        }
    }
}

/// In a list of distinct names, the count of an entry's name is that entry's count.
proof fn lemma_count_in_at(ts: Seq<TypeCount>, m: int)
    requires
        names_distinct(ts),
        0 <= m < ts.len(),
    ensures
        count_in(ts, ts[m].bson_type@) == ts[m].count,
{
    let t = ts[m].bson_type@;
    assert(exists|k: int| 0 <= k < ts.len() && ts[k].bson_type@ == t);
    let k = choose|k: int| 0 <= k < ts.len() && ts[k].bson_type@ == t;
    assert(k == m);
}

/// A name no entry holds counts zero.
proof fn lemma_count_in_none(ts: Seq<TypeCount>, t: Seq<char>)
    requires
        forall|m: int| 0 <= m < ts.len() ==> ts[m].bson_type@ != t,
    ensures
        count_in(ts, t) == 0,
{
}

/// Count one more document for type `t` in a name-sorted entry list.
fn bump_type(types: &mut Vec<TypeCount>, t: &str)
    requires
        names_sorted(old(types)@),
        forall|m: int| 0 <= m < old(types)@.len() ==> old(types)@[m].count > 0,
        count_in(old(types)@, t@) < u64::MAX,
    ensures
        names_sorted(final(types)@),
        forall|m: int| 0 <= m < final(types)@.len() ==> final(types)@[m].count > 0,
        forall|n: Seq<char>| #[trigger] count_in(final(types)@, n)
            == count_in(old(types)@, n) + (if n == t@ { 1int } else { 0int }),
{
    let ghost old_ts = types@;
    proof {
        lemma_sorted_distinct(old_ts);
    }
    let mut pos: usize = 0;
    while pos < types.len() && str_less(types[pos].bson_type.as_str(), t)
        invariant
            pos <= types@.len(),
            types@ == old_ts,
            forall|k: int| 0 <= k < pos ==> lex_less(#[trigger] types@[k].bson_type@, t@),
        decreases types@.len() - pos,
    {
        pos = pos + 1;
    }
    // Every entry from `pos` on orders after `t` or is `t` itself.
    proof {
        if pos < old_ts.len() {
            assert(!lex_less(old_ts[pos as int].bson_type@, t@));
            assert forall|k: int| pos < k < old_ts.len() implies lex_less(t@, #[trigger] old_ts[k].bson_type@) by {
                lemma_lex_total(old_ts[pos as int].bson_type@, t@);
                assert(lex_less(old_ts[pos as int].bson_type@, old_ts[k].bson_type@));
                if old_ts[pos as int].bson_type@ != t@ {
                    lemma_lex_transitive(t@, old_ts[pos as int].bson_type@, old_ts[k].bson_type@);
                }
            }
        }
        assert forall|k: int| 0 <= k < pos implies old_ts[k].bson_type@ != t@ by {
            lemma_lex_total(t@, t@);
        }
    }
    if pos < types.len() && str_eq(types[pos].bson_type.as_str(), t) {
        let mut entry = types.remove(pos);
        proof {
            lemma_count_in_at(old_ts, pos as int);
        }
        entry.count = entry.count + 1;
        types.insert(pos, entry);
        proof {
            let nt = types@;
            assert(nt =~= old_ts.update(pos as int, nt[pos as int]));
            assert(nt[pos as int].bson_type@ == t@);
            assert(names_sorted(nt));
            lemma_sorted_distinct(nt);
            assert forall|n: Seq<char>| #[trigger] count_in(nt, n)
                == count_in(old_ts, n) + (if n == t@ { 1int } else { 0int }) by {
                if n == t@ {
                    lemma_count_in_at(nt, pos as int);
                } else if exists|m: int| 0 <= m < old_ts.len() && old_ts[m].bson_type@ == n {
                    let m = choose|m: int| 0 <= m < old_ts.len() && old_ts[m].bson_type@ == n;
                    lemma_count_in_at(old_ts, m);
                    lemma_count_in_at(nt, m);
                } else {
                    lemma_count_in_none(old_ts, n);
                    lemma_count_in_none(nt, n);
                }
            }
        }
    } else {
        proof {
            if pos < old_ts.len() {
                lemma_lex_total(old_ts[pos as int].bson_type@, t@);
            }
            lemma_count_in_none(old_ts, t@);
        }
        types.insert(pos, TypeCount { bson_type: t.to_owned(), count: 1 });
        proof {
            let nt = types@;
            old_ts.insert_ensures(pos as int, nt[pos as int]);
            assert(nt == old_ts.insert(pos as int, nt[pos as int]));
            assert forall|k: int| pos <= k < old_ts.len() implies #[trigger] nt[k + 1] == old_ts[k] by {}
            assert(names_sorted(nt)) by {
                assert forall|m: int, n: int| 0 <= m < n < nt.len()
                    implies lex_less(nt[m].bson_type@, nt[n].bson_type@) by {
                    if n < pos {
                    } else if n == pos {
                    } else if m < pos {
                        assert(nt[n] == old_ts[n - 1]);
                        lemma_lex_transitive(nt[m].bson_type@, t@, nt[n].bson_type@);
                    } else if m == pos {
                        assert(nt[n] == old_ts[n - 1]);
                    } else {
                        assert(nt[n] == old_ts[n - 1]);
                        assert(nt[m] == old_ts[m - 1]);
                    }
                }
            }
            lemma_sorted_distinct(nt);
            assert forall|n: Seq<char>| #[trigger] count_in(nt, n)
                == count_in(old_ts, n) + (if n == t@ { 1int } else { 0int }) by {
                if n == t@ {
                    lemma_count_in_at(nt, pos as int);
                } else if exists|m: int| 0 <= m < old_ts.len() && old_ts[m].bson_type@ == n {
                    let m = choose|m: int| 0 <= m < old_ts.len() && old_ts[m].bson_type@ == n;
                    lemma_count_in_at(old_ts, m);
                    if m < pos {
                        lemma_count_in_at(nt, m);
                    } else {
                        assert(nt[m + 1] == old_ts[m]);
                        lemma_count_in_at(nt, m + 1);
                    }
                } else {
                    lemma_count_in_none(old_ts, n);
                    assert forall|k: int| 0 <= k < nt.len() implies nt[k].bson_type@ != n by {
                        if k > pos {
                            assert(nt[k] == old_ts[k - 1]);
                        }
                    }
                    lemma_count_in_none(nt, n);
                }
            }
        }
    }
}

}

verus! {

/// A sampled document by its fields.
pub type DocView = Seq<(Seq<char>, ValueView)>;

/// Every (path, type) a document holds, from its root.
pub open spec fn doc_pairs(d: DocView) -> Seq<PathType> {
    path_types(d, Seq::empty())
}

/// Whether some pair of `q` is at path `p`.
pub open spec fn pairs_have_path(q: Seq<PathType>, p: Seq<char>) -> bool {
    exists|i: int| 0 <= i < q.len() && q[i].0 == p
}

/// How many of the documents contain path `p`.
pub open spec fn docs_with_path(docs: Seq<DocView>, p: Seq<char>) -> nat
    decreases docs.len(),
{
    if docs.len() == 0 {
        0
    } else {
        docs_with_path(docs.drop_last(), p) + if pairs_have_path(doc_pairs(docs.last()), p) { 1nat } else { 0nat }
    }
}

/// How many of the documents hold a value of type `t` at path `p`.
pub open spec fn docs_with_type(docs: Seq<DocView>, p: Seq<char>, t: Seq<char>) -> nat
    decreases docs.len(),
{
    if docs.len() == 0 {
        0
    } else {
        docs_with_type(docs.drop_last(), p, t) + if doc_pairs(docs.last()).contains((p, t)) { 1nat } else { 0nat }
    }
}

/// The documents counted for path `p` once the pairs `q` of the next document are in.
pub open spec fn seen_path(docs: Seq<DocView>, q: Seq<PathType>, p: Seq<char>) -> int {
    docs_with_path(docs, p) + if pairs_have_path(q, p) { 1int } else { 0int }
}

/// The documents counted for type `t` at path `p` once the pairs `q` are in.
pub open spec fn seen_type(docs: Seq<DocView>, q: Seq<PathType>, p: Seq<char>, t: Seq<char>) -> int {
    docs_with_type(docs, p, t) + if q.contains((p, t)) { 1int } else { 0int }
}

/// An entry agrees with the counts: its coverage, and a positive count for exactly the
/// types seen at its path, in name order.
pub open spec fn field_matches(f: FieldSchema, docs: Seq<DocView>, q: Seq<PathType>) -> bool {
    &&& f.present == seen_path(docs, q, f.path@)
    &&& f.present > 0
    &&& names_sorted(f.types@)
    &&& forall|m: int| 0 <= m < f.types@.len() ==> f.types@[m].count > 0
    &&& forall|t: Seq<char>| #[trigger] count_in(f.types@, t) == seen_type(docs, q, f.path@, t)
}

/// The entries agree with the counts, are in path order, and cover every path seen.
pub open spec fn acc_matches(acc: Seq<FieldSchema>, docs: Seq<DocView>, q: Seq<PathType>) -> bool {
    &&& forall|i: int, j: int| 0 <= i < j < acc.len() ==> lex_less(acc[i].path@, acc[j].path@)
    &&& forall|i: int| 0 <= i < acc.len() ==> #[trigger] field_matches(acc[i], docs, q)
    &&& forall|p: Seq<char>| #[trigger] seen_path(docs, q, p) > 0
        ==> exists|i: int| 0 <= i < acc.len() && acc[i].path@ == p
}

/// No more documents hold a path than there are documents.
proof fn lemma_counts_bounded(docs: Seq<DocView>, p: Seq<char>, t: Seq<char>)
    ensures
        docs_with_path(docs, p) <= docs.len(),
        docs_with_type(docs, p, t) <= docs.len(),
        docs_with_type(docs, p, t) > 0 ==> docs_with_path(docs, p) > 0,
    decreases docs.len(),
{
    if docs.len() > 0 {
        lemma_counts_bounded(docs.drop_last(), p, t);
        let d = doc_pairs(docs.last());
        if d.contains((p, t)) {
            let i = choose|i: int| 0 <= i < d.len() && d[i] == (p, t);
            assert(d[i].0 == p);
        }
    }
}

/// What a list holds after one more pair.
proof fn lemma_push_pair(q: Seq<PathType>, x: PathType)
    ensures
        forall|y: PathType| #[trigger] q.push(x).contains(y) <==> (q.contains(y) || y == x),
        forall|p: Seq<char>| #[trigger] pairs_have_path(q.push(x), p) <==> (pairs_have_path(q, p) || x.0 == p),
{
    assert forall|y: PathType| #[trigger] q.push(x).contains(y) <==> (q.contains(y) || y == x) by {
        if q.contains(y) {
            let i = choose|i: int| 0 <= i < q.len() && q[i] == y;
            assert(q.push(x)[i] == y);
        }
        if y == x {
            assert(q.push(x)[q.len() as int] == y);
        }
    }
    assert forall|p: Seq<char>| #[trigger] pairs_have_path(q.push(x), p) <==> (pairs_have_path(q, p) || x.0 == p) by {
        if pairs_have_path(q, p) {
            let i = choose|i: int| 0 <= i < q.len() && q[i].0 == p;
            assert(q.push(x)[i].0 == p);
        }
        if x.0 == p {
            assert(q.push(x)[q.len() as int].0 == p);
        }
        if pairs_have_path(q.push(x), p) {
            let i = choose|i: int| 0 <= i < q.push(x).len() && q.push(x)[i].0 == p;
            if i < q.len() {
                assert(q[i].0 == p);
            }
        }
    }
}

/// An entry for another path is untouched by one more pair.
proof fn lemma_field_other(f: FieldSchema, docs: Seq<DocView>, q: Seq<PathType>, x: PathType)
    requires
        field_matches(f, docs, q),
        f.path@ != x.0,
    ensures
        field_matches(f, docs, q.push(x)),
{
    lemma_push_pair(q, x);
    assert forall|t: Seq<char>| #[trigger] count_in(f.types@, t) == seen_type(docs, q.push(x), f.path@, t) by {
        assert(count_in(f.types@, t) == seen_type(docs, q, f.path@, t));
    }
}

/// Count one more pair (path `p`, type `t`) of the current document: its path's entry,
/// found or created in path order, counts the document once for the path (when this
/// is the document's first pair there) and once for the type.
fn add_pair(acc: &mut Vec<FieldSchema>, p: &str, t: &str, first: bool, Ghost(docs): Ghost<Seq<DocView>>, Ghost(q): Ghost<Seq<PathType>>)
    requires
        acc_matches(old(acc)@, docs, q),
        !q.contains((p@, t@)),
        first == !pairs_have_path(q, p@),
        docs.len() < u64::MAX,
    ensures
        acc_matches(final(acc)@, docs, q.push((p@, t@))),
{
    let ghost old_acc = acc@;
    let ghost x = (p@, t@);
    let ghost q2 = q.push(x);
    proof {
        lemma_push_pair(q, x);
        lemma_counts_bounded(docs, p@, t@);
    }
    let mut pos: usize = 0;
    while pos < acc.len() && str_less(acc[pos].path.as_str(), p)
        invariant
            pos <= acc@.len(),
            acc@ == old_acc,
            forall|k: int| 0 <= k < pos ==> lex_less(#[trigger] acc@[k].path@, p@),
        decreases acc@.len() - pos,
    {
        pos = pos + 1;
    }
    proof {
        if pos < old_acc.len() {
            assert(!lex_less(old_acc[pos as int].path@, p@));
            assert forall|k: int| pos < k < old_acc.len() implies lex_less(p@, #[trigger] old_acc[k].path@) by {
                lemma_lex_total(old_acc[pos as int].path@, p@);
                assert(lex_less(old_acc[pos as int].path@, old_acc[k].path@));
                if old_acc[pos as int].path@ != p@ {
                    lemma_lex_transitive(p@, old_acc[pos as int].path@, old_acc[k].path@);
                }
            }
        }
        assert forall|k: int| 0 <= k < pos implies old_acc[k].path@ != p@ by {
            lemma_lex_total(p@, p@);
        }
    }
    if pos < acc.len() && str_eq(acc[pos].path.as_str(), p) {
        let mut entry = acc.remove(pos);
        assert(field_matches(old_acc[pos as int], docs, q));
        proof {
            assert(count_in(entry.types@, t@) == seen_type(docs, q, p@, t@));
        }
        if first {
            entry.present = entry.present + 1;
        }
        bump_type(&mut entry.types, t);
        acc.insert(pos, entry);
        proof {
            let na = acc@;
            assert(na =~= old_acc.update(pos as int, na[pos as int]));
            assert(field_matches(na[pos as int], docs, q2)) by {
                let f = na[pos as int];
                assert forall|u: Seq<char>| #[trigger] count_in(f.types@, u) == seen_type(docs, q2, f.path@, u) by {
                    assert(count_in(old_acc[pos as int].types@, u) == seen_type(docs, q, p@, u));
                }
            }
            assert forall|i: int| 0 <= i < na.len() implies #[trigger] field_matches(na[i], docs, q2) by {
                if i != pos {
                    assert(field_matches(old_acc[i], docs, q));
                    lemma_field_other(old_acc[i], docs, q, x);
                }
            }
            assert forall|r: Seq<char>| #[trigger] seen_path(docs, q2, r) > 0
                implies exists|i: int| 0 <= i < na.len() && na[i].path@ == r by {
                if r == p@ {
                    assert(na[pos as int].path@ == r);
                } else {
                    assert(seen_path(docs, q, r) > 0);
                    let i = choose|i: int| 0 <= i < old_acc.len() && old_acc[i].path@ == r;
                    assert(na[i].path@ == r);
                }
            }
        }
    } else {
        proof {
            if pos < old_acc.len() {
                lemma_lex_total(old_acc[pos as int].path@, p@);
            }
            assert forall|k: int| 0 <= k < old_acc.len() implies old_acc[k].path@ != p@ by {
                if k > pos {
                    lemma_lex_total(p@, p@);
                }
            }
            assert(seen_path(docs, q, p@) == 0);
            assert forall|u: Seq<char>| seen_type(docs, q, p@, u) == 0 by {
                lemma_counts_bounded(docs, p@, u);
                if q.contains((p@, u)) {
                    let i = choose|i: int| 0 <= i < q.len() && q[i] == (p@, u);
                    assert(q[i].0 == p@);
                }
            }
        }
        let entry = FieldSchema {
            path: p.to_owned(),
            present: 1,
            types: vec![TypeCount { bson_type: t.to_owned(), count: 1 }],
        };
        proof {
            let ts = entry.types@;
            assert(names_sorted(ts));
            assert(names_distinct(ts));
            assert forall|u: Seq<char>| #[trigger] count_in(ts, u) == seen_type(docs, q2, p@, u) by {
                assert(seen_type(docs, q, p@, u) == 0);
                assert(q.push(x).contains((p@, u)) <==> (q.contains((p@, u)) || (p@, u) == x));
                if u == t@ {
                    lemma_count_in_at(ts, 0);
                } else {
                    lemma_count_in_none(ts, u);
                }
            }
            assert(field_matches(entry, docs, q2));
        }
        acc.insert(pos, entry);
        proof {
            let na = acc@;
            old_acc.insert_ensures(pos as int, na[pos as int]);
            assert(na == old_acc.insert(pos as int, na[pos as int]));
            assert forall|k: int| pos <= k < old_acc.len() implies #[trigger] na[k + 1] == old_acc[k] by {}
            assert forall|m: int, n: int| 0 <= m < n < na.len()
                implies lex_less(na[m].path@, na[n].path@) by {
                if n < pos {
                } else if n == pos {
                } else if m < pos {
                    assert(na[n] == old_acc[n - 1]);
                    lemma_lex_transitive(na[m].path@, p@, na[n].path@);
                } else if m == pos {
                    assert(na[n] == old_acc[n - 1]);
                } else {
                    assert(na[n] == old_acc[n - 1]);
                    assert(na[m] == old_acc[m - 1]);
                }
            }
            assert forall|i: int| 0 <= i < na.len() implies #[trigger] field_matches(na[i], docs, q2) by {
                if i < pos {
                    assert(field_matches(old_acc[i], docs, q));
                    lemma_field_other(old_acc[i], docs, q, x);
                } else if i > pos {
                    assert(na[i] == old_acc[i - 1]);
                    assert(field_matches(old_acc[i - 1], docs, q));
                    lemma_field_other(old_acc[i - 1], docs, q, x);
                }
            }
            assert forall|r: Seq<char>| #[trigger] seen_path(docs, q2, r) > 0
                implies exists|i: int| 0 <= i < na.len() && na[i].path@ == r by {
                if r == p@ {
                    assert(na[pos as int].path@ == r);
                } else {
                    assert(seen_path(docs, q, r) > 0);
                    let i = choose|i: int| 0 <= i < old_acc.len() && old_acc[i].path@ == r;
                    if i < pos {
                        assert(na[i].path@ == r);
                    } else {
                        assert(na[i + 1].path@ == r);
                    }
                }
            }
        }
    }
}

}

verus! {

/// `a` is listed before `b`: more documents, or as many and an earlier name.
pub open spec fn ranks_before(a: TypeCount, b: TypeCount) -> bool {
    a.count > b.count || (a.count == b.count && lex_less(a.bson_type@, b.bson_type@))
}

/// The entries are listed most common first, ties by name.
pub open spec fn ranked(ts: Seq<TypeCount>) -> bool {
    forall|m: int, n: int| 0 <= m < n < ts.len() ==> ranks_before(ts[m], ts[n])
}

proof fn lemma_rank_order(a: TypeCount, b: TypeCount, c: TypeCount)
    ensures
        !ranks_before(a, a),
        ranks_before(a, b) ==> !ranks_before(b, a),
        a.bson_type@ != b.bson_type@ ==> ranks_before(a, b) || ranks_before(b, a),
        ranks_before(a, b) && ranks_before(b, c) ==> ranks_before(a, c),
{
    lemma_lex_total(a.bson_type@, a.bson_type@);
    lemma_lex_total(a.bson_type@, b.bson_type@);
    if ranks_before(a, b) && ranks_before(b, c) && a.count == c.count {
        lemma_lex_transitive(a.bson_type@, b.bson_type@, c.bson_type@);
    }
}

fn rank_before(a: &TypeCount, b: &TypeCount) -> (r: bool)
    ensures
        r == ranks_before(*a, *b),
{
    a.count > b.count || (a.count == b.count && str_less(a.bson_type.as_str(), b.bson_type.as_str()))
}

/// The same entries, most common type first and ties by type name.
fn order_by_count(src: Vec<TypeCount>) -> (r: Vec<TypeCount>)
    requires
        names_distinct(src@),
        forall|m: int| 0 <= m < src@.len() ==> src@[m].count > 0,
    ensures
        names_distinct(r@),
        ranked(r@),
        forall|m: int| 0 <= m < r@.len() ==> r@[m].count > 0,
        forall|t: Seq<char>| #[trigger] count_in(r@, t) == count_in(src@, t),
{
    let ghost all = src@;
    let mut rest = src;
    let mut out: Vec<TypeCount> = Vec::new();
    proof {
        assert(all.skip(all.len() as int) =~= Seq::<TypeCount>::empty());
        assert forall|t: Seq<char>| #[trigger] count_in(out@, t) == count_in(all.skip(all.len() as int), t) by {
            lemma_count_in_none(out@, t);
            lemma_count_in_none(all.skip(all.len() as int), t);
        }
    }
    while rest.len() > 0
        invariant
            rest@ == all.take(rest@.len() as int),
            rest@.len() <= all.len(),
            names_distinct(all),
            forall|m: int| 0 <= m < all.len() ==> all[m].count > 0,
            names_distinct(out@),
            ranked(out@),
            forall|m: int| 0 <= m < out@.len() ==> out@[m].count > 0,
            forall|m: int| 0 <= m < out@.len() ==> exists|k: int| rest@.len() <= k < all.len() && #[trigger] out@[m] == all[k],
            forall|t: Seq<char>| #[trigger] count_in(out@, t) == count_in(all.skip(rest@.len() as int), t),
        decreases rest@.len(),
    {
        let ghost n = rest@.len() as int;
        let e = rest.pop().unwrap();
        assert(e == all[n - 1]);
        assert(rest@ =~= all.take(n - 1));
        let ghost prev = out@;
        // `e`'s name is new to `out`.
        assert forall|m: int| 0 <= m < prev.len() implies prev[m].bson_type@ != e.bson_type@ by {
            let k = choose|k: int| n <= k < all.len() && prev[m] == all[k];
            assert(k != n - 1);
        }
        let mut pos: usize = 0;
        while pos < out.len() && rank_before(&out[pos], &e)
            invariant
                pos <= out@.len(),
                out@ == prev,
                forall|k: int| 0 <= k < pos ==> ranks_before(#[trigger] out@[k], e),
            decreases out@.len() - pos,
        {
            pos = pos + 1;
        }
        proof {
            if pos < prev.len() {
                lemma_rank_order(prev[pos as int], e, e);
                assert(ranks_before(e, prev[pos as int]));
                assert forall|k: int| pos < k < prev.len() implies ranks_before(e, #[trigger] prev[k]) by {
                    lemma_rank_order(e, prev[pos as int], prev[k]);
                }
            }
        }
        out.insert(pos, e);
        proof {
            let no = out@;
            prev.insert_ensures(pos as int, e);
            assert(no == prev.insert(pos as int, e));
            assert forall|k: int| pos <= k < prev.len() implies #[trigger] no[k + 1] == prev[k] by {}
            assert forall|a: int, b: int| 0 <= a < b < no.len() implies ranks_before(no[a], no[b]) by {
                if b < pos {
                } else if b == pos {
                } else if a < pos {
                    assert(no[b] == prev[b - 1]);
                    lemma_rank_order(no[a], e, no[b]);
                } else if a == pos {
                    assert(no[b] == prev[b - 1]);
                } else {
                    assert(no[b] == prev[b - 1]);
                    assert(no[a] == prev[a - 1]);
                }
            }
            assert forall|a: int, b: int| 0 <= a < no.len() && 0 <= b < no.len() && a != b
                implies no[a].bson_type@ != no[b].bson_type@ by {
                if a < b {
                    lemma_rank_order(no[a], no[b], no[a]);
                } else {
                    lemma_rank_order(no[b], no[a], no[b]);
                }
                if no[a].bson_type@ == no[b].bson_type@ {
                    lemma_lex_total(no[a].bson_type@, no[a].bson_type@);
                }
            }
            assert forall|m: int| 0 <= m < no.len() implies exists|k: int| n - 1 <= k < all.len() && #[trigger] no[m] == all[k] by {
                if m < pos {
                    let k = choose|k: int| n <= k < all.len() && prev[m] == all[k];
                    assert(no[m] == all[k]);
                } else if m == pos {
                    assert(no[m] == all[n - 1]);
                } else {
                    assert(no[m] == prev[m - 1]);
                    let k = choose|k: int| n <= k < all.len() && prev[m - 1] == all[k];
                    assert(no[m] == all[k]);
                }
            }
            let tail = all.skip(n - 1);
            assert(tail =~= seq![e] + all.skip(n));
            assert forall|m: int, k: int| 0 <= m < tail.len() && 0 <= k < tail.len() && m != k
                implies tail[m].bson_type@ != tail[k].bson_type@ by {
                assert(tail[m] == all[n - 1 + m]);
                assert(tail[k] == all[n - 1 + k]);
            }
            assert forall|t: Seq<char>| #[trigger] count_in(no, t) == count_in(tail, t) by {
                if t == e.bson_type@ {
                    lemma_count_in_at(no, pos as int);
                    lemma_count_in_at(tail, 0);
                } else if exists|m: int| 0 <= m < prev.len() && prev[m].bson_type@ == t {
                    let m = choose|m: int| 0 <= m < prev.len() && prev[m].bson_type@ == t;
                    let k = choose|k: int| n <= k < all.len() && prev[m] == all[k];
                    assert(tail[k - n + 1] == all[k]);
                    lemma_count_in_at(tail, k - n + 1);
                    if m < pos {
                        lemma_count_in_at(no, m);
                    } else {
                        lemma_count_in_at(no, m + 1);
                    }
                    assert(all.skip(n)[k - n] == all[k]);
                    assert(count_in(prev, t) == prev[m].count) by {
                        lemma_count_in_at(prev, m);
                    }
                } else {
                    lemma_count_in_none(prev, t);
                    assert(count_in(all.skip(n), t) == 0);
                    assert forall|k: int| 0 <= k < no.len() implies no[k].bson_type@ != t by {
                        if k > pos {
                            assert(no[k] == prev[k - 1]);
                        }
                    }
                    lemma_count_in_none(no, t);
                    if exists|k: int| 0 <= k < tail.len() && tail[k].bson_type@ == t {
                        let k = choose|k: int| 0 <= k < tail.len() && tail[k].bson_type@ == t;
                        assert(k > 0);
                        assert(all.skip(n)[k - 1] == tail[k]);
                        lemma_count_in_at(all.skip(n), k - 1);
                        assert(false);
                    }
                    lemma_count_in_none(tail, t);
                }
            }
        }
    }
    proof {
        assert(all.skip(0) =~= all);
    }
    out
}

}

verus! {

/// The sampled documents by their fields.
pub open spec fn docs_view(docs: Seq<Document>) -> Seq<DocView> {
    docs.map_values(|d: Document| fields_view(d@))
}

/// A report entry: its path's coverage, and each type seen there with the number of
/// documents holding it, most common first and ties by name.
pub open spec fn field_reports(f: FieldSchema, docs: Seq<DocView>) -> bool {
    &&& f.present == docs_with_path(docs, f.path@)
    &&& f.present > 0
    &&& names_distinct(f.types@)
    &&& ranked(f.types@)
    &&& forall|m: int| 0 <= m < f.types@.len() ==> f.types@[m].count > 0
    &&& forall|t: Seq<char>| #[trigger] count_in(f.types@, t) == docs_with_type(docs, f.path@, t)
}

/// Counts agree when the next document's pairs are folded into the documents.
proof fn lemma_fold_document(docs: Seq<DocView>, d: DocView, l: Seq<PathType>)
    requires
        forall|x: PathType| l.contains(x) <==> doc_pairs(d).contains(x),
    ensures
        forall|p: Seq<char>| #[trigger] seen_path(docs.push(d), Seq::empty(), p) == seen_path(docs, l, p),
        forall|p: Seq<char>, t: Seq<char>| #[trigger] seen_type(docs.push(d), Seq::empty(), p, t) == seen_type(docs, l, p, t),
{
    assert(docs.push(d).drop_last() =~= docs);
    assert forall|p: Seq<char>| #[trigger] seen_path(docs.push(d), Seq::empty(), p) == seen_path(docs, l, p) by {
        let dp = doc_pairs(d);
        if pairs_have_path(l, p) {
            let i = choose|i: int| 0 <= i < l.len() && l[i].0 == p;
            assert(l.contains(l[i]));
            let j = choose|j: int| 0 <= j < dp.len() && dp[j] == l[i];
            assert(dp[j].0 == p);
        }
        if pairs_have_path(dp, p) {
            let j = choose|j: int| 0 <= j < dp.len() && dp[j].0 == p;
            assert(dp.contains(dp[j]));
            assert(l.contains(dp[j]));
            let i = choose|i: int| 0 <= i < l.len() && l[i] == dp[j];
            assert(l[i].0 == p);
        }
        assert(!pairs_have_path(Seq::<PathType>::empty(), p));
    }
    assert forall|p: Seq<char>, t: Seq<char>| #[trigger] seen_type(docs.push(d), Seq::empty(), p, t) == seen_type(docs, l, p, t) by {
        assert(!Seq::<PathType>::empty().contains((p, t)));
    }
}

/// Pure inference over a sample of documents: every path found (nested documents and
/// documents inside arrays flattened with dots), in path order, with how many
/// documents contain it and how many hold each BSON type there.
pub fn infer_schema(docs: &Vec<Document>) -> (r: SchemaReport)
    ensures
        r.sampled == docs@.len(),
        forall|i: int, j: int| 0 <= i < j < r.fields@.len() ==> lex_less(r.fields@[i].path@, r.fields@[j].path@),
        forall|i: int| 0 <= i < r.fields@.len() ==> #[trigger] field_reports(r.fields@[i], docs_view(docs@)),
        forall|p: Seq<char>| #[trigger] docs_with_path(docs_view(docs@), p) > 0
            ==> exists|i: int| 0 <= i < r.fields@.len() && r.fields@[i].path@ == p,
{
    let ghost dv = docs_view(docs@);
    let mut acc: Vec<FieldSchema> = Vec::new();
    proof {
        assert(dv.take(0) =~= Seq::<DocView>::empty());
        assert forall|p: Seq<char>| #[trigger] seen_path(dv.take(0), Seq::empty(), p) == 0 by {
            assert(!pairs_have_path(Seq::<PathType>::empty(), p));
        }
    }
    let mut k: usize = 0;
    while k < docs.len()
        invariant
            k <= docs@.len(),
            dv == docs_view(docs@),
            acc_matches(acc@, dv.take(k as int), Seq::empty()),
        decreases docs@.len() - k,
    {
        let mut seen: Vec<(String, String)> = Vec::new();
        proof {
            assert(pairs_view(seen@) =~= Seq::<PathType>::empty());
        }
        collect_paths(&docs[k], "", &mut seen);
        let ghost l = pairs_view(seen@);
        let ghost done = dv.take(k as int);
        proof {
            reveal_strlit("");
            assert(""@ =~= Seq::<char>::empty());
            assert(dv[k as int] == fields_view(docs@[k as int]@));
            assert(l.take(0) =~= Seq::<PathType>::empty());
            assert(done.len() == k);
        }
        let mut j: usize = 0;
        while j < seen.len()
            invariant
                j <= seen@.len(),
                l == pairs_view(seen@),
                l.no_duplicates(),
                done.len() < u64::MAX,
                acc_matches(acc@, done, l.take(j as int)),
            decreases seen@.len() - j,
        {
            let p = &seen[j].0;
            let t = &seen[j].1;
            let mut first = true;
            let mut m: usize = 0;
            while m < j
                invariant
                    m <= j < seen@.len(),
                    l == pairs_view(seen@),
                    first == !(exists|a: int| 0 <= a < m && l[a].0 == p@),
                decreases j - m,
            {
                assert(l[m as int] == (seen@[m as int].0@, seen@[m as int].1@));
                if str_eq(seen[m].0.as_str(), p.as_str()) {
                    first = false;
                }
                proof {
                    if exists|a: int| 0 <= a < m + 1 && l[a].0 == p@ {
                        let a = choose|a: int| 0 <= a < m + 1 && l[a].0 == p@;
                        if a < m {
                            assert(exists|b: int| 0 <= b < m && l[b].0 == p@);
                        }
                    }
                }
                m = m + 1;
            }
            proof {
                let q = l.take(j as int);
                assert(l[j as int] == (p@, t@));
                if q.contains((p@, t@)) {
                    let a = choose|a: int| 0 <= a < q.len() && q[a] == (p@, t@);
                    assert(l[a] == l[j as int]);
                }
                if pairs_have_path(q, p@) {
                    let a = choose|a: int| 0 <= a < q.len() && q[a].0 == p@;
                    assert(l[a].0 == p@);
                }
                if !first {
                    let a = choose|a: int| 0 <= a < j && l[a].0 == p@;
                    assert(q[a].0 == p@);
                }
                assert(l.take(j as int + 1) =~= q.push((p@, t@)));
            }
            add_pair(&mut acc, p.as_str(), t.as_str(), first, Ghost(done), Ghost(l.take(j as int)));
            j = j + 1;
        }
        proof {
            assert(l.take(l.len() as int) =~= l);
            assert(dv.take(k as int + 1) =~= done.push(dv[k as int]));
            lemma_fold_document(done, dv[k as int], l);
            let nd = dv.take(k as int + 1);
            let na = acc@;
            assert forall|i: int| 0 <= i < na.len() implies #[trigger] field_matches(na[i], nd, Seq::empty()) by {
                assert(field_matches(na[i], done, l));
                assert forall|u: Seq<char>| #[trigger] count_in(na[i].types@, u) == seen_type(nd, Seq::empty(), na[i].path@, u) by {
                    assert(count_in(na[i].types@, u) == seen_type(done, l, na[i].path@, u));
                }
            }
            assert forall|p: Seq<char>| #[trigger] seen_path(nd, Seq::empty(), p) > 0
                implies exists|i: int| 0 <= i < na.len() && na[i].path@ == p by {
                assert(seen_path(done, l, p) > 0);
            }
        }
        k = k + 1;
    }
    proof {
        assert(dv.take(docs@.len() as int) =~= dv);
    }
    let ghost settled = acc@;
    let mut fields: Vec<FieldSchema> = Vec::new();
    let mut rest = acc;
    while rest.len() > 0
        invariant
            rest@ == settled.take(rest@.len() as int),
            rest@.len() <= settled.len(),
            dv == docs_view(docs@),
            acc_matches(settled, dv, Seq::empty()),
            fields@.len() == settled.len() - rest@.len(),
            forall|i: int| 0 <= i < fields@.len() ==> #[trigger] fields@[i].path@ == settled[rest@.len() + i].path@,
            forall|i: int| 0 <= i < fields@.len() ==> #[trigger] field_reports(fields@[i], dv),
        decreases rest@.len(),
    {
        let ghost n = rest@.len() as int;
        let f = rest.pop().unwrap();
        assert(f == settled[n - 1]);
        assert(rest@ =~= settled.take(n - 1));
        assert(field_matches(settled[n - 1], dv, Seq::empty()));
        proof {
            lemma_sorted_distinct(f.types@);
        }
        let types = order_by_count(f.types);
        let entry = FieldSchema { path: f.path, present: f.present, types };
        proof {
            assert(!pairs_have_path(Seq::<PathType>::empty(), entry.path@));
            assert forall|t: Seq<char>| #[trigger] count_in(entry.types@, t) == docs_with_type(dv, entry.path@, t) by {
                assert(count_in(f.types@, t) == seen_type(dv, Seq::empty(), f.path@, t));
                assert(!Seq::<PathType>::empty().contains((f.path@, t)));
            }
            assert(field_reports(entry, dv));
        }
        let ghost before = fields@;
        fields.insert(0, entry);
        proof {
            before.insert_ensures(0, entry);
            assert(fields@ == before.insert(0, entry));
            assert forall|i: int| 0 <= i < before.len() implies #[trigger] fields@[i + 1] == before[i] by {}
            assert forall|i: int| 0 <= i < fields@.len() implies #[trigger] fields@[i].path@ == settled[n - 1 + i].path@ by {
                if i > 0 {
                    assert(fields@[i] == before[i - 1]);
                }
            }
            assert forall|i: int| 0 <= i < fields@.len() implies #[trigger] field_reports(fields@[i], dv) by {
                if i > 0 {
                    assert(fields@[i] == before[i - 1]);
                }
            }
        }
    }
    proof {
        assert forall|i: int, j: int| 0 <= i < j < fields@.len() implies lex_less(fields@[i].path@, fields@[j].path@) by {
            assert(fields@[i].path@ == settled[i].path@);
            assert(fields@[j].path@ == settled[j].path@);
        }
    }
    let sampled = docs.len() as u64;
    let ghost fv = fields@;
    let r = SchemaReport { sampled, fields };
    proof {
        assert(r.fields@ == fv);
        assert forall|p: Seq<char>| #[trigger] docs_with_path(docs_view(docs@), p) > 0
            implies exists|i: int| 0 <= i < r.fields@.len() && r.fields@[i].path@ == p by {
            assert(!pairs_have_path(Seq::<PathType>::empty(), p));
            assert(seen_path(dv, Seq::empty(), p) > 0);
            let i = choose|i: int| 0 <= i < settled.len() && settled[i].path@ == p;
            assert(fv[i].path@ == settled[i].path@);
            assert(r.fields@[i].path@ == p);
        }
    }
    r
}

}

verus! {

/// Documents sampled when no size is asked for.
pub const DEFAULT_SAMPLE_SIZE: i64 = 1000;
/// The fewest documents sampled.
pub const MIN_SAMPLE_SIZE: i64 = 1;
/// The most documents sampled.
pub const MAX_SAMPLE_SIZE: i64 = 10000;

/// The sample size for a request: the requested size (default `DEFAULT_SAMPLE_SIZE`)
/// clamped to `MIN_SAMPLE_SIZE..=MAX_SAMPLE_SIZE`.
pub fn sample_size(requested: Option<i64>) -> (r: i64)
    ensures
        ({
            let v = match requested { Some(v) => v, None => DEFAULT_SAMPLE_SIZE };
            r == if v < MIN_SAMPLE_SIZE { MIN_SAMPLE_SIZE } else if v > MAX_SAMPLE_SIZE { MAX_SAMPLE_SIZE } else { v }
        }),
{
    let v = match requested {
        Some(v) => v,
        None => DEFAULT_SAMPLE_SIZE,
    };
    if v < MIN_SAMPLE_SIZE {
        MIN_SAMPLE_SIZE
    } else if v > MAX_SAMPLE_SIZE {
        MAX_SAMPLE_SIZE
    } else {
        v
    }
}

}
