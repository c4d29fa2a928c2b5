//! Field mapping for the import/export wizard: which source field feeds which target
//! field, under which type, in which order. Coercing the values themselves (which
//! needs floating point) is left to the caller.

use vstd::prelude::*;
use crate::text::{str_eq, trim_chars, trimmed};
use crate::value::{Document, ValueView, fields_view};
use crate::commands::masking::{find_field, first_index};

verus! {

/// One column-to-field mapping: `source` is the column or key read, `target` the
/// field or header written, `kind` the type the value is coerced to. A blank `target`
/// drops the column.
pub struct FieldMap {
    pub source: String,
    pub target: String,
    pub kind: String,
}

/// One field of a mapped document before coercion: its name, the position of the
/// source field it takes its value from, and the kind to coerce that value to.
pub struct MappedField {
    pub target: String,
    pub source_index: usize,
    pub kind: String,
}

/// A planned field as plain values.
pub type PlannedView = (Seq<char>, int, Seq<char>);

/// `entries` with `e` put under its name: the first entry of that name is replaced
/// where it stands, or `e` is appended when there is none.
pub open spec fn put_entry(entries: Seq<PlannedView>, e: PlannedView) -> Seq<PlannedView>
    decreases entries.len(),
{
    if entries.len() == 0 {
        seq![e]
    } else if entries[0].0 == e.0 {
        seq![e] + entries.drop_first()
    } else {
        seq![entries[0]] + put_entry(entries.drop_first(), e)
    }
}

/// The mapped fields of a document: each mapping in turn, skipping those with a blank
/// target or whose source the document lacks, puts its target (with the source's
/// position and the kind) into the result, a repeated target replacing the earlier
/// one in its place.
pub open spec fn field_plan(doc: Seq<(Seq<char>, ValueView)>, maps: Seq<FieldMap>) -> Seq<PlannedView>
    decreases maps.len(),
{
    if maps.len() == 0 {
        seq![]
    } else {
        let prev = field_plan(doc, maps.drop_last());
        let m = maps.last();
        if trimmed(m.target@).len() == 0 {
            prev
        } else {
            match first_index(doc, m.source@) {
                Some(i) => put_entry(prev, (m.target@, i, m.kind@)),
                None => prev,
            }
        }
    }
}

/// Planned fields as plain values.
pub open spec fn plan_view(fields: Seq<MappedField>) -> Seq<PlannedView> {
    fields.map_values(|f: MappedField| (f.target@, f.source_index as int, f.kind@))
}

/// Putting an entry replaces the first entry of its name, or appends it.
proof fn lemma_put_entry(entries: Seq<PlannedView>, e: PlannedView, j: int)
    requires
        0 <= j <= entries.len(),
        forall|k: int| 0 <= k < j ==> entries[k].0 != e.0,
        j < entries.len() ==> entries[j].0 == e.0,
    ensures
        put_entry(entries, e) == if j < entries.len() { entries.update(j, e) } else { entries.push(e) },
    decreases entries.len(),
{
    if entries.len() == 0 {
        assert(seq![e] =~= entries.push(e));
    } else if j == 0 {
        assert(seq![e] + entries.drop_first() =~= entries.update(0, e));
    } else {
        let rest = entries.drop_first();
        assert forall|k: int| 0 <= k < j - 1 implies rest[k].0 != e.0 by {
            assert(rest[k] == entries[k + 1]);
        }
        lemma_put_entry(rest, e, j - 1);
        if j < entries.len() {
            assert(seq![entries[0]] + rest.update(j - 1, e) =~= entries.update(j, e));
        } else {
            assert(seq![entries[0]] + rest.push(e) =~= entries.push(e));
        }
    }
}

/// Plan the fields of a mapped document: for each mapping with a non-blank target
/// whose source the document has, the target field takes the source's value coerced
/// to the mapping's kind. The result holds exactly the mapped-and-present fields, in
/// mapping order, a target mapped twice keeping its first place and its last source.
pub fn map_fields(doc: &Document, mapping: &[FieldMap]) -> (r: Vec<MappedField>)
    ensures
        plan_view(r@) == field_plan(fields_view(doc@), mapping@),
        forall|i: int| 0 <= i < r@.len() ==> r@[i].source_index < doc@.len(),
        forall|a: int, b: int| 0 <= a < b < r@.len() ==> r@[a].target@ != r@[b].target@,
{
    let ghost fv = fields_view(doc@);
    let mut out: Vec<MappedField> = Vec::new();
    let mut i: usize = 0;
    assert(mapping@.take(0) =~= Seq::<FieldMap>::empty());
    assert(plan_view(out@) =~= Seq::<PlannedView>::empty());
    while i < mapping.len()
        invariant
            i <= mapping@.len(),
            fv == fields_view(doc@),
            plan_view(out@) == field_plan(fv, mapping@.take(i as int)),
            forall|k: int| 0 <= k < out@.len() ==> out@[k].source_index < doc@.len(),
            forall|a: int, b: int| 0 <= a < b < out@.len() ==> out@[a].target@ != out@[b].target@,
        decreases mapping@.len() - i,
    {
        let m = &mapping[i];
        assert(mapping@.take(i as int + 1).drop_last() =~= mapping@.take(i as int));
        assert(mapping@.take(i as int + 1).last() == mapping@[i as int]);
        if trim_chars(m.target.as_str()).len() > 0 {
            match find_field(doc, m.source.as_str()) {
                Some(src) => {
                    let ghost prev = plan_view(out@);
                    let ghost e: PlannedView = (m.target@, src as int, m.kind@);
                    let mut j: usize = 0;
                    while j < out.len()
                        invariant
                            j <= out@.len(),
                            prev == plan_view(out@),
                            e.0 == m.target@,
                            forall|k: int| 0 <= k < j ==> prev[k].0 != e.0,
                            forall|k: int| 0 <= k < out@.len() ==> prev[k].0 == out@[k].target@,
                        ensures
                            j <= out@.len(),
                            prev == plan_view(out@),
                            forall|k: int| 0 <= k < j ==> prev[k].0 != e.0,
                            j < out@.len() ==> prev[j as int].0 == e.0,
                            forall|k: int| 0 <= k < out@.len() ==> prev[k].0 == out@[k].target@,
                        decreases out@.len() - j,
                    {
                        assert(prev[j as int].0 == out@[j as int].target@);
                        if str_eq(out[j].target.as_str(), m.target.as_str()) {
                            break;
                        }
                        j = j + 1;
                    }
                    let entry = MappedField { target: m.target.clone(), source_index: src, kind: m.kind.clone() };
                    proof {
                        lemma_put_entry(prev, e, j as int);
                    }
                    let ghost old_out = out@;
                    if j < out.len() {
                        out.set(j, entry);
                        assert forall|k: int| 0 <= k < out@.len() implies out@[k].target@ == old_out[k].target@ by {
                            if k == j as int {
                                assert(prev[k].0 == old_out[k].target@);
                            }
                        }
                        assert(plan_view(out@) =~= prev.update(j as int, e));
                    } else {
                        out.push(entry);
                        assert forall|k: int| 0 <= k < old_out.len() implies out@[k].target@ != e.0 by {
                            assert(prev[k].0 == old_out[k].target@);
                        }
                        assert(plan_view(out@) =~= prev.push(e));
                    }
                },
                None => {},
            }
        }
        i = i + 1;
    }
    assert(mapping@.take(mapping@.len() as int) =~= mapping@);
    out
}

}
