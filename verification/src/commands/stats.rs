//! The headline numbers of a `collStats` result, read into typed fields.

use vstd::prelude::*;
use vstd::multiset::Multiset;
use crate::text::{lex_less, lemma_lex_total, lemma_lex_transitive, str_less};
use crate::value::{document_json, field_value, fields_view, get_field, json_text, Document, Value, ValueView};

verus! {

broadcast use vstd::seq_lib::to_multiset_build, vstd::seq_lib::to_multiset_insert, vstd::seq_lib::to_multiset_len,
    vstd::multiset::lemma_multiset_empty_len, vstd::multiset::group_multiset_axioms;

/// A single index's on-disk size.
#[derive(Debug)]
pub struct IndexSize {
    pub name: String,
    pub size: i64,
}

/// The headline numbers from `collStats`, and the raw result as compact relaxed
/// extended JSON.
#[derive(Debug)]
pub struct CollectionStats {
    pub ns: Option<String>,
    pub count: Option<i64>,
    pub size: Option<i64>,
    pub avg_obj_size: Option<i64>,
    pub storage_size: Option<i64>,
    pub total_index_size: Option<i64>,
    pub nindexes: Option<i64>,
    pub capped: bool,
    pub indexes: Vec<IndexSize>,
    pub raw: String,
}

/// A number of any of the three BSON number types, read as `i64` (a double as `as`
/// casts it).
pub open spec fn number_of(v: Option<ValueView>) -> Option<i64> {
    match v {
        Some(ValueView::Int32(n)) => Some(n as i64),
        Some(ValueView::Int64(n)) => Some(n),
        Some(ValueView::Double { truncated, .. }) => Some(truncated),
        _ => None,
    }
}

/// collStats mixes Int32 / Int64 / Double for its numeric fields depending on the
/// server and value magnitude, so read any of them as i64.
pub fn as_i64(value: Option<&Value>) -> (r: Option<i64>)
    ensures
        r == number_of(match value { Some(v) => Some(v@), None => None }),
{
    match value {
        Some(Value::Int32(v)) => Some(*v as i64),
        Some(Value::Int64(v)) => Some(*v),
        Some(Value::Double(d)) => Some(d.truncated),
        _ => None,
    }
}

/// The (name, size) entries of an `indexSizes` document whose values are numbers.
pub open spec fn index_entries(fields: Seq<(Seq<char>, ValueView)>) -> Seq<(Seq<char>, i64)>
    decreases fields.len(),
{
    if fields.len() == 0 {
        seq![]
    } else {
        index_entries(fields.drop_last()) + match number_of(Some(fields.last().1)) {
            Some(n) => seq![(fields.last().0, n)],
            None => Seq::<(Seq<char>, i64)>::empty(),
        }
    }
}

/// The index sizes a collStats result reports.
pub open spec fn index_sizes_of(doc: Seq<(Seq<char>, ValueView)>) -> Seq<(Seq<char>, i64)> {
    match field_value(doc, "indexSizes"@) {
        Some(ValueView::Document(f)) => index_entries(f),
        _ => seq![],
    }
}

/// The entries by their views.
pub open spec fn sizes_view(v: Seq<IndexSize>) -> Seq<(Seq<char>, i64)> {
    v.map_values(|i: IndexSize| (i.name@, i.size))
}

/// `a` is listed before `b`: a larger index, or as large and an earlier name.
pub open spec fn larger_first(a: (Seq<char>, i64), b: (Seq<char>, i64)) -> bool {
    a.1 > b.1 || (a.1 == b.1 && lex_less(a.0, b.0))
}

/// Largest first, ties by name.
pub open spec fn largest_first(s: Seq<(Seq<char>, i64)>) -> bool {
    forall|m: int, n: int| 0 <= m < n < s.len() ==> !larger_first(s[n], s[m])
}

proof fn lemma_larger_first(a: (Seq<char>, i64), b: (Seq<char>, i64), c: (Seq<char>, i64))
    ensures
        !larger_first(a, a),
        larger_first(a, b) ==> !larger_first(b, a),
        !larger_first(a, b) ==> (larger_first(b, a) || a == b),
        larger_first(a, b) && larger_first(b, c) ==> larger_first(a, c),
        !larger_first(b, a) && !larger_first(c, b) ==> !larger_first(c, a),
{
    lemma_lex_total(a.0, a.0);
    lemma_lex_total(a.0, b.0);
    lemma_lex_total(b.0, c.0);
    lemma_lex_total(a.0, c.0);
    if larger_first(a, b) && larger_first(b, c) && a.1 == c.1 {
        lemma_lex_transitive(a.0, b.0, c.0);
    }
    if larger_first(c, a) && !larger_first(b, a) && a.1 == c.1 && b.1 == a.1 {
        if a.0 != b.0 {
            lemma_lex_transitive(c.0, a.0, b.0);
        }
    }
    if larger_first(c, a) && !larger_first(b, a) && !larger_first(c, b) && b.1 == c.1 && a.1 == b.1 {
        if b.0 != c.0 && a.0 != b.0 {
            lemma_lex_transitive(c.0, a.0, b.0);
        }
    }
}

/// Put index sizes in order, largest first and ties by name.
fn order_largest_first(src: Vec<IndexSize>) -> (r: Vec<IndexSize>)
    ensures
        largest_first(sizes_view(r@)),
        sizes_view(r@).to_multiset() == sizes_view(src@).to_multiset(),
{
    let ghost all = sizes_view(src@);
    let mut rest = src;
    let mut out: Vec<IndexSize> = Vec::new();
    assert(sizes_view(out@) =~= Seq::<(Seq<char>, i64)>::empty());
    assert(sizes_view(out@).to_multiset().len() == 0);
    assert(sizes_view(out@).to_multiset() =~= Multiset::empty());
    assert(sizes_view(rest@) == all);
    assert(sizes_view(out@).to_multiset().add(sizes_view(rest@).to_multiset()) =~= all.to_multiset());
    while rest.len() > 0
        invariant
            largest_first(sizes_view(out@)),
            sizes_view(out@).to_multiset().add(sizes_view(rest@).to_multiset()) == all.to_multiset(),
        decreases rest@.len(),
    {
        let ghost before_rest = sizes_view(rest@);
        let e = rest.pop().unwrap();
        let ghost ev = (e.name@, e.size);
        assert(before_rest =~= sizes_view(rest@).push(ev));
        let ghost prev = sizes_view(out@);
        let mut pos: usize = 0;
        while pos < out.len()
            && !(e.size > out[pos].size || (e.size == out[pos].size && str_less(e.name.as_str(), out[pos].name.as_str())))
            invariant
                pos <= out@.len(),
                sizes_view(out@) == prev,
                ev == (e.name@, e.size),
                forall|k: int| 0 <= k < pos ==> !larger_first(ev, #[trigger] prev[k]),
            decreases out@.len() - pos,
        {
            assert(prev[pos as int] == (out@[pos as int].name@, out@[pos as int].size));
            pos = pos + 1;
        }
        proof {
            if pos < prev.len() {
                assert(prev[pos as int] == (out@[pos as int].name@, out@[pos as int].size));
                assert(larger_first(ev, prev[pos as int]));
            }
        }
        out.insert(pos, e);
        proof {
            let no = sizes_view(out@);
            assert(no =~= prev.insert(pos as int, ev));
            prev.insert_ensures(pos as int, ev);
            assert forall|k: int| pos <= k < prev.len() implies #[trigger] no[k + 1] == prev[k] by {}
            assert forall|a: int, b: int| 0 <= a < b < no.len() implies !larger_first(no[b], no[a]) by {
                if b < pos {
                } else if b == pos {
                    lemma_larger_first(ev, no[a], ev);
                } else if a < pos {
                    assert(no[b] == prev[b - 1]);
                    lemma_larger_first(ev, no[a], ev);
                    lemma_larger_first(prev[pos as int], ev, no[a]);
                    lemma_larger_first(no[a], ev, no[b]);
                    if pos < b - 1 {
                        lemma_larger_first(no[a], prev[pos as int], no[b]);
                    }
                } else if a == pos {
                    assert(no[b] == prev[b - 1]);
                    lemma_larger_first(ev, prev[pos as int], no[b]);
                    lemma_larger_first(prev[pos as int], ev, ev);
                    if pos < b - 1 {
                        lemma_larger_first(ev, prev[pos as int], no[b]);
                        lemma_larger_first(no[b], prev[pos as int], ev);
                    }
                } else {
                    assert(no[b] == prev[b - 1]);
                    assert(no[a] == prev[a - 1]);
                }
            }
            assert(sizes_view(rest@).push(ev).to_multiset() == sizes_view(rest@).to_multiset().insert(ev));
            assert(no.to_multiset() == prev.to_multiset().insert(ev));
            assert(no.to_multiset().add(sizes_view(rest@).to_multiset())
                =~= prev.to_multiset().add(before_rest.to_multiset()));
        }
    }
    proof {
        assert(sizes_view(rest@) =~= Seq::<(Seq<char>, i64)>::empty());
        assert(sizes_view(rest@).to_multiset().len() == 0);
        assert(sizes_view(rest@).to_multiset() =~= Multiset::empty());
        assert(sizes_view(out@).to_multiset().add(Multiset::empty()) =~= sizes_view(out@).to_multiset());
    }
    out
}

}

verus! {

/// A string field of a document, if it holds a string.
pub open spec fn text_field(doc: Seq<(Seq<char>, ValueView)>, key: Seq<char>) -> Option<Seq<char>> {
    match field_value(doc, key) {
        Some(ValueView::Text(s)) => Some(s),
        _ => None,
    }
}

/// The index sizes listed in an `indexSizes` sub-document, in document order.
fn index_sizes(sizes: &Document) -> (r: Vec<IndexSize>)
    ensures
        sizes_view(r@) == index_entries(fields_view(sizes@)),
{
    let ghost fv = fields_view(sizes@);
    let mut out: Vec<IndexSize> = Vec::new();
    let mut i: usize = 0;
    assert(fv.take(0) =~= Seq::<(Seq<char>, ValueView)>::empty());
    assert(sizes_view(out@) =~= index_entries(fv.take(0)));
    while i < sizes.len()
        invariant
            i <= sizes@.len(),
            fv == fields_view(sizes@),
            sizes_view(out@) == index_entries(fv.take(i as int)),
        decreases sizes@.len() - i,
    {
        let ghost before = sizes_view(out@);
        let ghost t = fv.take(i as int + 1);
        assert(t.drop_last() =~= fv.take(i as int));
        assert(t.last() == (sizes@[i as int].0@, sizes@[i as int].1@));
        match as_i64(Some(&sizes[i].1)) {
            Some(size) => {
                out.push(IndexSize { name: sizes[i].0.clone(), size });
                assert(sizes_view(out@) =~= before + seq![(sizes@[i as int].0@, size)]);
            },
            None => {
                assert(before + Seq::<(Seq<char>, i64)>::empty() =~= before);
            },
        }
        i = i + 1;
    }
    assert(fv.take(sizes@.len() as int) =~= fv);
    out
}

/// Pure extraction from a raw collStats document into the typed summary: the counts
/// and sizes read as numbers of any BSON number type, the capped flag (false unless
/// it is `true`), the namespace when it is a string, the index sizes largest first
/// (ties by name), and the raw document as compact relaxed extended JSON.
pub fn extract_stats(doc: &Document) -> (r: CollectionStats)
    ensures
        ({
            let d = fields_view(doc@);
            &&& match r.ns { Some(s) => text_field(d, "ns"@) == Some(s@), None => text_field(d, "ns"@) is None }
            &&& r.count == number_of(field_value(d, "count"@))
            &&& r.size == number_of(field_value(d, "size"@))
            &&& r.avg_obj_size == number_of(field_value(d, "avgObjSize"@))
            &&& r.storage_size == number_of(field_value(d, "storageSize"@))
            &&& r.total_index_size == number_of(field_value(d, "totalIndexSize"@))
            &&& r.nindexes == number_of(field_value(d, "nindexes"@))
            &&& r.capped == (field_value(d, "capped"@) == Some(ValueView::Bool(true)))
            &&& largest_first(sizes_view(r.indexes@))
            &&& sizes_view(r.indexes@).to_multiset() == index_sizes_of(d).to_multiset()
            &&& r.raw@ == json_text(ValueView::Document(d))
        }),
{
    let ghost d = fields_view(doc@);
    let found = match get_field(doc, "indexSizes") {
        Some(Value::Document(sizes)) => {
            proof {
                crate::value::lemma_document_view(*sizes);
            }
            index_sizes(sizes)
        },
        _ => Vec::new(),
    };
    assert(sizes_view(found@) == index_sizes_of(d));
    let indexes = order_largest_first(found);
    let capped = match get_field(doc, "capped") {
        Some(Value::Bool(b)) => *b,
        _ => false,
    };
    let ns = match get_field(doc, "ns") {
        Some(Value::Text(s)) => Some(s.clone()),
        _ => None,
    };
    CollectionStats {
        ns,
        count: as_i64(get_field(doc, "count")),
        size: as_i64(get_field(doc, "size")),
        avg_obj_size: as_i64(get_field(doc, "avgObjSize")),
        storage_size: as_i64(get_field(doc, "storageSize")),
        total_index_size: as_i64(get_field(doc, "totalIndexSize")),
        nindexes: as_i64(get_field(doc, "nindexes")),
        capped,
        indexes,
        raw: document_json(doc),
    }
}

}
