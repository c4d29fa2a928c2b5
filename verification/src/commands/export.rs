//! CSV export: the header row is the union of the documents' keys in first-seen
//! order, and each document becomes one row of escaped cells in header order.

use vstd::prelude::*;
use crate::text::{views, join_with, push_char, push_str, contains_string};
use crate::value::{Document, ValueView, field_value, fields_view, value_text, get_field, to_plain_text};
use crate::commands::csv::{csv_escaped, csv_escape, csv_table, csv_run, CsvScan, char_marks, fresh_scan, lemma_fields_run, lemma_run_skip, needs_quoting};

verus! {

/// The keys of a document, in order.
pub open spec fn doc_keys(doc: Seq<(Seq<char>, ValueView)>) -> Seq<Seq<char>> {
    doc.map_values(|f: (Seq<char>, ValueView)| f.0)
}

/// `headers` extended by each of `keys` not already present, in order.
pub open spec fn with_keys(headers: Seq<Seq<char>>, keys: Seq<Seq<char>>) -> Seq<Seq<char>>
    decreases keys.len(),
{
    if keys.len() == 0 {
        headers
    } else {
        let h = with_keys(headers, keys.drop_last());
        if h.contains(keys.last()) { h } else { h.push(keys.last()) }
    }
}

/// The header row of a set of documents: every key of every document, once, in the
/// order first seen.
pub open spec fn header_union(docs: Seq<Seq<(Seq<char>, ValueView)>>) -> Seq<Seq<char>>
    decreases docs.len(),
{
    if docs.len() == 0 {
        seq![]
    } else {
        with_keys(header_union(docs.drop_last()), doc_keys(docs.last()))
    }
}

/// One CSV cell: the escaped plain text of the document's value under `header`, or
/// nothing when the document lacks the key.
pub open spec fn csv_cell_text(doc: Seq<(Seq<char>, ValueView)>, header: Seq<char>) -> Seq<char> {
    match field_value(doc, header) {
        Some(v) => csv_escaped(value_text(v)),
        None => seq![],
    }
}

/// One CSV row for a document, in header order.
pub open spec fn csv_row_text(headers: Seq<Seq<char>>, doc: Seq<(Seq<char>, ValueView)>) -> Seq<char> {
    join_with(headers.map_values(|h: Seq<char>| csv_cell_text(doc, h)), seq![','])
}

/// Each line followed by a newline, concatenated.
pub open spec fn lines_text(lines: Seq<Seq<char>>) -> Seq<char>
    decreases lines.len(),
{
    if lines.len() == 0 {
        seq![]
    } else {
        lines_text(lines.drop_last()) + lines.last() + seq!['\n']
    }
}

/// The CSV text of a set of documents: the escaped header row, then one row per
/// document, each line ending in a newline.
pub open spec fn csv_export_text(docs: Seq<Seq<(Seq<char>, ValueView)>>) -> Seq<char> {
    let headers = header_union(docs);
    lines_text(seq![join_with(headers.map_values(|h: Seq<char>| csv_escaped(h)), seq![','])]
        + docs.map_values(|d: Seq<(Seq<char>, ValueView)>| csv_row_text(headers, d)))
}

/// The documents by their fields' views.
pub open spec fn docs_fields(docs: Seq<Document>) -> Seq<Seq<(Seq<char>, ValueView)>> {
    docs.map_values(|d: Document| fields_view(d@))
}

/// Adds any of `doc`'s keys not already present to `headers`, in first-seen order.
/// Called once per document while building the CSV header union.
pub fn csv_collect_headers(headers: &mut Vec<String>, doc: &Document)
    ensures
        views(final(headers)@) == with_keys(views(old(headers)@), doc_keys(fields_view(doc@))),
{
    let ghost start = views(headers@);
    let ghost keys = doc_keys(fields_view(doc@));
    let mut i: usize = 0;
    assert(keys.take(0) =~= Seq::<Seq<char>>::empty());
    while i < doc.len()
        invariant
            i <= doc@.len(),
            keys == doc_keys(fields_view(doc@)),
            views(headers@) == with_keys(start, keys.take(i as int)),
        decreases doc@.len() - i,
    {
        let key = &doc[i].0;
        assert(keys.take(i as int + 1).drop_last() =~= keys.take(i as int));
        assert(keys.take(i as int + 1).last() == key@);
        if !contains_string(headers.as_slice(), key) {
            let ghost before = views(headers@);
            headers.push(key.clone());
            assert(views(headers@) =~= before.push(key@));
        }
        i = i + 1;
    }
    assert(keys.take(doc@.len() as int) =~= keys);
}

/// One CSV row (in `headers` column order) for a document; a key the document lacks
/// becomes an empty cell.
pub fn csv_format_row(headers: &[String], doc: &Document) -> (r: String)
    ensures
        r@ == csv_row_text(views(headers@), fields_view(doc@)),
{
    let ghost cells = views(headers@).map_values(|h: Seq<char>| csv_cell_text(fields_view(doc@), h));
    let mut out = String::new();
    let mut i: usize = 0;
    while i < headers.len()
        invariant
            i <= headers@.len(),
            cells == views(headers@).map_values(|h: Seq<char>| csv_cell_text(fields_view(doc@), h)),
            out@ == join_with(cells.take(i as int), seq![',']),
        decreases headers@.len() - i,
    {
        if i > 0 {
            push_char(&mut out, ',');
        }
        let cell = match get_field(doc, headers[i].as_str()) {
            Some(value) => {
                let text = to_plain_text(value);
                csv_escape(text.as_str())
            },
            None => String::new(),
        };
        push_str(&mut out, cell.as_str());
        proof {
            let t = cells.take(i as int + 1);
            assert(t.drop_last() =~= cells.take(i as int));
            assert(t.last() == cell@);
            if i == 0 {
                assert(t =~= seq![cell@]);
            }
        }
        i = i + 1;
    }
    assert(cells.take(headers@.len() as int) =~= cells);
    out
}

/// The header line's text: each header escaped, joined with commas.
pub open spec fn csv_header_text(headers: Seq<Seq<char>>) -> Seq<char> {
    join_with(headers.map_values(|h: Seq<char>| csv_escaped(h)), seq![','])
}

/// The CSV header line (without its line break): each header escaped, joined with
/// commas.
pub fn csv_header_line(headers: &[String]) -> (r: String)
    ensures
        r@ == csv_header_text(views(headers@)),
{
    let ghost hs = views(headers@);
    let ghost escaped = hs.map_values(|h: Seq<char>| csv_escaped(h));
    let mut out = String::new();
    let mut k: usize = 0;
    while k < headers.len()
        invariant
            k <= headers@.len(),
            views(headers@) == hs,
            escaped == hs.map_values(|h: Seq<char>| csv_escaped(h)),
            out@ == join_with(escaped.take(k as int), seq![',']),
        decreases headers@.len() - k,
    {
        if k > 0 {
            push_char(&mut out, ',');
        }
        let cell = csv_escape(headers[k].as_str());
        push_str(&mut out, cell.as_str());
        proof {
            let t = escaped.take(k as int + 1);
            assert(t.drop_last() =~= escaped.take(k as int));
            assert(views(headers@)[k as int] == headers@[k as int]@);
            assert(t.last() == cell@);
            if k == 0 {
                assert(t =~= seq![cell@]);
            }
        }
        k = k + 1;
    }
    assert(escaped.take(headers@.len() as int) =~= escaped);
    out
}

/// The CSV text of `docs`: the union of their keys as the header row, then one row per
/// document.
pub fn docs_to_csv(docs: &[Document]) -> (r: String)
    ensures
        r@ == csv_export_text(docs_fields(docs@)),
{
    let ghost ds = docs_fields(docs@);
    let mut headers: Vec<String> = Vec::new();
    let mut i: usize = 0;
    assert(ds.take(0) =~= Seq::<Seq<(Seq<char>, ValueView)>>::empty());
    while i < docs.len()
        invariant
            i <= docs@.len(),
            ds == docs_fields(docs@),
            views(headers@) == header_union(ds.take(i as int)),
        decreases docs@.len() - i,
    {
        csv_collect_headers(&mut headers, &docs[i]);
        assert(ds.take(i as int + 1).drop_last() =~= ds.take(i as int));
        i = i + 1;
    }
    assert(ds.take(docs@.len() as int) =~= ds);
    let ghost hs = header_union(ds);
    let ghost escaped = hs.map_values(|h: Seq<char>| csv_escaped(h));
    let mut out = csv_header_line(headers.as_slice());
    push_char(&mut out, '\n');
    let ghost rows = ds.map_values(|d: Seq<(Seq<char>, ValueView)>| csv_row_text(hs, d));
    let ghost all = seq![join_with(escaped, seq![','])] + rows;
    assert(all.take(1) =~= seq![join_with(escaped, seq![','])]);
    assert(lines_text(all.take(1).drop_last()) =~= Seq::<char>::empty());
    let mut j: usize = 0;
    while j < docs.len()
        invariant
            j <= docs@.len(),
            views(headers@) == hs,
            ds == docs_fields(docs@),
            rows == ds.map_values(|d: Seq<(Seq<char>, ValueView)>| csv_row_text(hs, d)),
            all == seq![join_with(hs.map_values(|h: Seq<char>| csv_escaped(h)), seq![','])] + rows,
            out@ == lines_text(all.take(j as int + 1)),
        decreases docs@.len() - j,
    {
        let row = csv_format_row(headers.as_slice(), &docs[j]);
        push_str(&mut out, row.as_str());
        push_char(&mut out, '\n');
        proof {
            let t = all.take(j as int + 2);
            assert(t.drop_last() =~= all.take(j as int + 1));
            assert(t.last() == rows[j as int]);
            assert(ds[j as int] == fields_view(docs@[j as int]@));
        }
        j = j + 1;
    }
    assert(all.take(docs@.len() as int + 1) =~= all);
    out
}

/// Extending headers keeps what they had, adds exactly the new keys, and repeats none.
pub proof fn lemma_with_keys(headers: Seq<Seq<char>>, keys: Seq<Seq<char>>)
    ensures
        forall|k: Seq<char>| with_keys(headers, keys).contains(k) <==> (headers.contains(k) || keys.contains(k)),
        headers.no_duplicates() ==> with_keys(headers, keys).no_duplicates(),
    decreases keys.len(),
{
    if keys.len() > 0 {
        let init = keys.drop_last();
        lemma_with_keys(headers, init);
        let h = with_keys(headers, init);
        assert forall|k: Seq<char>| with_keys(headers, keys).contains(k) <==> (headers.contains(k) || keys.contains(k)) by {
            if keys.contains(k) && k != keys.last() {
                let j = choose|j: int| 0 <= j < keys.len() && keys[j] == k;
                assert(init[j] == k);
            }
            if init.contains(k) {
                let j = choose|j: int| 0 <= j < init.len() && init[j] == k;
                assert(keys[j] == k);
            }
            if !h.contains(keys.last()) {
                let h2 = h.push(keys.last());
                if h.contains(k) {
                    let j = choose|j: int| 0 <= j < h.len() && h[j] == k;
                    assert(h2[j] == k);
                }
                if k == keys.last() {
                    assert(h2[h.len() as int] == k);
                }
                if h2.contains(k) && k != keys.last() {
                    let j = choose|j: int| 0 <= j < h2.len() && h2[j] == k;
                    assert(h[j] == k);
                }
            }
            if k == keys.last() {
                assert(keys[keys.len() - 1] == k);
            }
        }
    }
}

/// The keys of the documents, gathered in turn.
pub open spec fn has_doc_key(docs: Seq<Seq<(Seq<char>, ValueView)>>, k: Seq<char>) -> bool {
    exists|i: int, j: int| 0 <= i < docs.len() && 0 <= j < docs[i].len() && docs[i][j].0 == k
}

/// The exported header row names every key of every document, each exactly once, and
/// nothing else.
pub proof fn law_header_is_union_of_all_keys(docs: Seq<Seq<(Seq<char>, ValueView)>>)
    ensures
        header_union(docs).no_duplicates(),
        forall|k: Seq<char>| header_union(docs).contains(k) <==> has_doc_key(docs, k),
    decreases docs.len(),
{
    if docs.len() > 0 {
        let init = docs.drop_last();
        law_header_is_union_of_all_keys(init);
        lemma_with_keys(header_union(init), doc_keys(docs.last()));
        assert forall|k: Seq<char>| header_union(docs).contains(k) <==> has_doc_key(docs, k) by {
            if has_doc_key(docs, k) {
                let (i, j) = choose|i: int, j: int| 0 <= i < docs.len() && 0 <= j < docs[i].len() && docs[i][j].0 == k;
                if i < docs.len() - 1 {
                    assert(init[i][j].0 == k);
                    assert(has_doc_key(init, k));
                } else {
                    assert(doc_keys(docs.last())[j] == k);
                }
            }
            if has_doc_key(init, k) {
                let (i, j) = choose|i: int, j: int| 0 <= i < init.len() && 0 <= j < init[i].len() && init[i][j].0 == k;
                assert(docs[i][j].0 == k);
            }
            if doc_keys(docs.last()).contains(k) {
                let j = choose|j: int| 0 <= j < doc_keys(docs.last()).len() && doc_keys(docs.last())[j] == k;
                assert(docs[docs.len() - 1][j].0 == k);
            }
        }
    }
}

/// The plain text a document has under a header: its value's plain text, or nothing
/// when it lacks the key.
pub open spec fn plain_cell(doc: Seq<(Seq<char>, ValueView)>, header: Seq<char>) -> Seq<char> {
    match field_value(doc, header) {
        Some(v) => value_text(v),
        None => seq![],
    }
}

/// A CSV line's text (without its newline): the fields escaped and joined by commas.
pub open spec fn line_of(fields: Seq<Seq<char>>) -> Seq<char> {
    join_with(fields.map_values(|f: Seq<char>| csv_escaped(f)), seq![','])
}

/// The lines of rows of fields.
pub open spec fn lines_of(rows: Seq<Seq<Seq<char>>>) -> Seq<Seq<char>> {
    rows.map_values(|f: Seq<Seq<char>>| line_of(f))
}

/// Lines joined by newlines, read from the front: the first line, its newline, the rest.
proof fn lemma_lines_text_front(lines: Seq<Seq<char>>)
    requires
        lines.len() > 0,
    ensures
        lines_text(lines) == lines[0] + seq!['\n'] + lines_text(lines.drop_first()),
    decreases lines.len(),
{
    if lines.len() == 1 {
        assert(lines.drop_first() =~= Seq::<Seq<char>>::empty());
        assert(lines.drop_last() =~= Seq::<Seq<char>>::empty());
        assert(lines_text(lines.drop_last()) =~= Seq::<char>::empty());
        assert(lines_text(lines) =~= lines[0] + seq!['\n']);
    } else {
        lemma_lines_text_front(lines.drop_last());
        assert(lines.drop_last().drop_first() =~= lines.drop_first().drop_last());
        assert(lines.drop_first().last() == lines.last());
        assert(lines.drop_last()[0] == lines[0]);
    }
}

/// Reading written lines from a state between records appends exactly their rows.
proof fn lemma_lines_read(rows: Seq<Seq<Seq<char>>>, st: CsvScan<char>)
    requires
        forall|i: int| 0 <= i < rows.len() ==> (#[trigger] rows[i]).len() > 0,
        !st.in_quotes,
        st.field.len() == 0,
        st.record.len() == 0,
    ensures
        csv_run(lines_text(lines_of(rows)), 0, st, char_marks()) == (CsvScan { rows: st.rows + rows, ..st }),
    decreases rows.len(),
{
    let m = char_marks();
    if rows.len() == 0 {
        assert(lines_of(rows) =~= Seq::<Seq<char>>::empty());
        assert(lines_text(lines_of(rows)) =~= Seq::<char>::empty());
        assert(st.rows + rows =~= st.rows);
        assert(CsvScan { rows: st.rows + rows, ..st } == st);
    } else {
        let ls = lines_of(rows);
        lemma_lines_text_front(ls);
        let f = rows[0];
        let rest_text = lines_text(ls.drop_first());
        let tail = seq!['\n'] + rest_text;
        assert(ls[0] == line_of(f));
        assert(lines_text(ls) =~= line_of(f) + tail);
        lemma_fields_run(f, tail, st);
        let st2 = CsvScan { record: st.record + f.drop_last(), field: f.last(), ..st };
        assert(tail[0] == '\n');
        let st3 = CsvScan { rows: st2.rows.push(st2.record.push(st2.field)), record: seq![], field: seq![], ..st2 };
        assert(csv_run(tail, 0, st2, m) == csv_run(tail, 1, st3, m));
        lemma_run_skip(tail, 1, st3, m);
        assert(tail.skip(1) =~= rest_text);
        assert(st2.record.push(st2.field) =~= f);
        assert(lines_of(rows.drop_first()) =~= ls.drop_first());
        assert forall|i: int| 0 <= i < rows.drop_first().len() implies (#[trigger] rows.drop_first()[i]).len() > 0 by {
            assert(rows.drop_first()[i] == rows[i + 1]);
        }
        lemma_lines_read(rows.drop_first(), st3);
        assert(st3.rows + rows.drop_first() =~= st.rows + rows);
        assert(csv_run(lines_text(ls), 0, st, m) == csv_run(tail, 0, st2, m));
        assert(csv_run(tail, 0, st2, m) == csv_run(rest_text, 0, st3, m));
        assert(st3.record =~= st.record);
        assert(st3.field =~= st.field);
        assert(CsvScan { rows: st3.rows + rows.drop_first(), ..st3 } == (CsvScan { rows: st.rows + rows, ..st }));
    }
}

/// What the CSV export writes, the CSV reader reads back: the header row, then for each
/// document the plain text of its value under each header (empty where it lacks the
/// key), with commas, quotes and line breaks inside cells intact.
pub proof fn law_export_reads_back(docs: Seq<Seq<(Seq<char>, ValueView)>>)
    requires
        header_union(docs).len() > 0,
    ensures
        csv_table(csv_export_text(docs), char_marks()) == seq![header_union(docs)]
            + docs.map_values(|d: Seq<(Seq<char>, ValueView)>| header_union(docs).map_values(|h: Seq<char>| plain_cell(d, h))),
{
    let hs = header_union(docs);
    let body = docs.map_values(|d: Seq<(Seq<char>, ValueView)>| hs.map_values(|h: Seq<char>| plain_cell(d, h)));
    let rows = seq![hs] + body;
    let written = seq![join_with(hs.map_values(|h: Seq<char>| csv_escaped(h)), seq![','])]
        + docs.map_values(|d: Seq<(Seq<char>, ValueView)>| csv_row_text(hs, d));
    assert(lines_of(rows) =~= written) by {
        assert forall|i: int| 0 <= i < written.len() implies #[trigger] lines_of(rows)[i] == written[i] by {
            if i > 0 {
                let d = docs[i - 1];
                assert(rows[i] == hs.map_values(|h: Seq<char>| plain_cell(d, h)));
                assert(hs.map_values(|h: Seq<char>| plain_cell(d, h)).map_values(|f: Seq<char>| csv_escaped(f))
                    =~= hs.map_values(|h: Seq<char>| csv_cell_text(d, h))) by {
                    assert forall|k: int| 0 <= k < hs.len() implies
                        csv_escaped(#[trigger] plain_cell(d, hs[k])) == csv_cell_text(d, hs[k]) by {
                        if field_value(d, hs[k]) is None {
                            assert(!needs_quoting(Seq::<char>::empty()));
                        }
                    }
                }
            } else {
                assert(rows[0] == hs);
            }
        }
    }
    assert forall|i: int| 0 <= i < rows.len() implies (#[trigger] rows[i]).len() > 0 by {
        if i > 0 {
            assert(rows[i] == hs.map_values(|h: Seq<char>| plain_cell(docs[i - 1], h)));
        }
    }
    lemma_lines_read(rows, fresh_scan());
    let end = csv_run(lines_text(lines_of(rows)), 0, fresh_scan(), char_marks());
    assert(fresh_scan::<char>().rows + rows =~= rows);
    assert(end.field.len() == 0 && end.record.len() == 0);
}

}


verus! {

/// The pretty-printed form of a JSON text (serde_json's `to_string_pretty` of the
/// value `from_str` reads from it: two-space indents, one member per line, key order
/// kept); `None` when the text is not JSON.
pub uninterp spec fn pretty_of(text: Seq<char>) -> Option<Seq<char>>;

/// Pretty-print a JSON text (serde_json `from_str` then `to_string_pretty`). Claimed:
/// the result is `pretty_of` of the text, a function of the text alone.
#[verifier::external_body]
pub(crate) fn pretty_json(text: &str) -> (r: Option<String>)
    ensures
        match r {
            Some(p) => pretty_of(text@) == Some(p@),
            None => pretty_of(text@) is None,
        },
{
    match serde_json::from_str::<serde_json::Value>(text) {
        Ok(value) => match serde_json::to_string_pretty(&value) {
            Ok(p) => Some(p),
            Err(_) => None,
        },
        Err(_) => None,
    }
}

/// One document as an element of a pretty JSON array: the separator for its position
/// (none but a line break before the first), then the document pretty-printed.
pub open spec fn array_element_text(doc: Seq<(Seq<char>, ValueView)>, first: bool) -> Option<Seq<char>> {
    match pretty_of(crate::value::json_text(ValueView::Document(doc))) {
        Some(p) => Some((if first { "\n"@ } else { ",\n"@ }) + p),
        None => None,
    }
}

/// Pretty-prints one document as an element of a JSON array, prefixed with the
/// separator for its position.
pub fn json_array_element(doc: &Document, first: bool) -> (r: Option<String>)
    ensures
        match r {
            Some(t) => array_element_text(fields_view(doc@), first) == Some(t@),
            None => array_element_text(fields_view(doc@), first) is None,
        },
{
    let compact = crate::value::document_json(doc);
    match pretty_json(compact.as_str()) {
        Some(p) => {
            let mut out = if first { "\n".to_owned() } else { ",\n".to_owned() };
            push_str(&mut out, p.as_str());
            Some(out)
        },
        None => None,
    }
}

/// The elements of a pretty JSON array of documents, when each prints.
pub open spec fn array_elements(docs: Seq<Seq<(Seq<char>, ValueView)>>) -> Option<Seq<char>>
    decreases docs.len(),
{
    if docs.len() == 0 {
        Some(seq![])
    } else {
        match (array_elements(docs.drop_last()), array_element_text(docs.last(), docs.len() == 1)) {
            (Some(a), Some(e)) => Some(a + e),
            _ => None,
        }
    }
}

/// The documents as a pretty JSON array: `[`, the elements, a line break when there
/// are any, and `]`.
pub open spec fn json_array_text(docs: Seq<Seq<(Seq<char>, ValueView)>>) -> Option<Seq<char>> {
    match array_elements(docs) {
        Some(a) => Some("["@ + a + (if docs.len() > 0 { "\n"@ } else { seq![] }) + "]"@),
        None => None,
    }
}

/// Once a prefix fails to print, the whole does.
proof fn lemma_elements_fail(docs: Seq<Seq<(Seq<char>, ValueView)>>, n: int)
    requires
        0 <= n <= docs.len(),
        array_elements(docs.take(n)) is None,
    ensures
        array_elements(docs) is None,
    decreases docs.len() - n,
{
    if n < docs.len() {
        assert(docs.take(n + 1).drop_last() =~= docs.take(n));
        lemma_elements_fail(docs, n + 1);
    } else {
        assert(docs.take(n) =~= docs);
    }
}

/// The documents as a pretty-printed JSON array.
pub fn docs_to_json_array(docs: &[Document]) -> (r: Option<String>)
    ensures
        match r {
            Some(t) => json_array_text(docs_fields(docs@)) == Some(t@),
            None => json_array_text(docs_fields(docs@)) is None,
        },
{
    let ghost dv = docs_fields(docs@);
    proof {
        reveal_strlit("[");
    }
    let mut out = "[".to_owned();
    let mut i: usize = 0;
    assert(dv.take(0) =~= Seq::<Seq<(Seq<char>, ValueView)>>::empty());
    assert(out@.drop_first() =~= Seq::<char>::empty());
    while i < docs.len()
        invariant
            i <= docs@.len(),
            dv == docs_fields(docs@),
            array_elements(dv.take(i as int)) == Some(out@.drop_first()),
            out@.len() >= 1 && out@[0] == '[',
        decreases docs@.len() - i,
    {
        let ghost before = out@;
        assert(dv.take(i as int + 1).drop_last() =~= dv.take(i as int));
        assert(dv[i as int] == fields_view(docs@[i as int]@));
        match json_array_element(&docs[i], i == 0) {
            Some(e) => {
                push_str(&mut out, e.as_str());
                assert(out@.drop_first() =~= before.drop_first() + e@);
            },
            None => {
                proof {
                    lemma_elements_fail(dv, i as int + 1);
                }
                return None;
            },
        }
        i = i + 1;
    }
    assert(dv.take(docs@.len() as int) =~= dv);
    let ghost elems = out@.drop_first();
    if docs.len() > 0 {
        push_char(&mut out, '\n');
    }
    push_char(&mut out, ']');
    proof {
        reveal_strlit("[");
        reveal_strlit("]");
        reveal_strlit("\n");
        assert(out@ =~= "["@ + elems + (if docs@.len() > 0 { "\n"@ } else { seq![] }) + "]"@);
    }
    Some(out)
}

}
