//! CSV import: typing each cell, turning data rows into documents keyed by the header
//! row, and handing the documents out in bounded batches.

use vstd::prelude::*;
use crate::text::{chars_of, trim_chars, trimmed, string_of, chars_eq, views};
use crate::numbers::{parse_i64, i64_parse, is_float_literal, float_literal};
use crate::kv::{StrMap, pairs_insert, keys_unique, has_key, key_index};
use crate::error::AppError;
use crate::commands::csv::{CsvRecords, decode_fields, record_result};

verus! {

/// The typed value of an imported CSV cell. A number that is not a 64-bit integer is
/// kept as its text, which parses as a double.
pub enum Cell {
    Null,
    Bool(bool),
    Int64(i64),
    Double(String),
    Text(String),
}

/// A cell with its texts as character sequences.
pub enum CellView {
    Null,
    Bool(bool),
    Int64(i64),
    Double(Seq<char>),
    Text(Seq<char>),
}

impl View for Cell {
    type V = CellView;

    open spec fn view(&self) -> CellView {
        match self {
            Cell::Null => CellView::Null,
            Cell::Bool(b) => CellView::Bool(*b),
            Cell::Int64(n) => CellView::Int64(*n),
            Cell::Double(t) => CellView::Double(t@),
            Cell::Text(t) => CellView::Text(t@),
        }
    }
}

/// A document as the import builds it: its keys with their values, in order.
pub type DocView = Seq<(Seq<char>, CellView)>;

/// A document's pairs by their values' views.
pub open spec fn doc_view(p: Seq<(Seq<char>, Cell)>) -> DocView {
    p.map_values(|e: (Seq<char>, Cell)| (e.0, e.1@))
}

/// The documents of a batch.
pub open spec fn docs_view(docs: Seq<StrMap<Cell>>) -> Seq<DocView> {
    docs.map_values(|d: StrMap<Cell>| doc_view(d.pairs()))
}

/// Every cell of the row is empty.
pub open spec fn row_blank(row: Seq<Seq<char>>) -> bool {
    forall|i: int| 0 <= i < row.len() ==> (#[trigger] row[i]).len() == 0
}

/// A CSV data row is blank (a trailing line produced by a final newline) when every
/// cell is empty; such rows are skipped rather than imported as empty documents.
pub fn csv_row_is_blank(row: &[String]) -> (r: bool)
    ensures
        r == row_blank(views(row@)),
{
    let mut i: usize = 0;
    while i < row.len()
        invariant
            i <= row@.len(),
            forall|j: int| 0 <= j < i ==> (#[trigger] views(row@)[j]).len() == 0,
        decreases row@.len() - i,
    {
        if !row[i].as_str().is_empty() {
            assert(views(row@)[i as int].len() != 0);
            return false;
        }
        i = i + 1;
    }
    true
}

/// The typed value of a CSV cell: blank (after trimming white space) is null, `true`
/// and `false` are booleans, an integer that fits 64 bits is a long, other number text
/// is a double, and anything else stays the cell's text as written.
pub open spec fn csv_cell(cell: Seq<char>) -> CellView {
    let t = trimmed(cell);
    if t.len() == 0 {
        CellView::Null
    } else if t == seq!['t', 'r', 'u', 'e'] {
        CellView::Bool(true)
    } else if t == seq!['f', 'a', 'l', 's', 'e'] {
        CellView::Bool(false)
    } else {
        match i64_parse(t) {
            Some(n) => CellView::Int64(n),
            None => if float_literal(t) { CellView::Double(t) } else { CellView::Text(cell) },
        }
    }
}

/// Best-effort type coercion for a CSV cell: empty → null, true/false → bool,
/// integer/float → number, everything else → string.
pub fn coerce_csv_value(cell: &str) -> (r: Cell)
    ensures
        r@ == csv_cell(cell@),
{
    let t = trim_chars(cell);
    if t.len() == 0 {
        return Cell::Null;
    }
    if chars_eq(&t, &vec!['t', 'r', 'u', 'e']) {
        return Cell::Bool(true);
    }
    if chars_eq(&t, &vec!['f', 'a', 'l', 's', 'e']) {
        return Cell::Bool(false);
    }
    let text = string_of(t.as_slice());
    match parse_i64(text.as_str()) {
        Some(n) => Cell::Int64(n),
        None => {
            if is_float_literal(t.as_slice()) {
                Cell::Double(text)
            } else {
                Cell::Text(cell.to_owned())
            }
        },
    }
}

/// The document of a data row: each header in turn is stored with the typed value of
/// the cell in its column (an empty cell where the row is short); a repeated header
/// keeps its first place and takes the later value.
pub open spec fn csv_row_doc(headers: Seq<Seq<char>>, row: Seq<Seq<char>>) -> DocView
    decreases headers.len(),
{
    if headers.len() == 0 {
        seq![]
    } else {
        let i = headers.len() - 1;
        let cell = if i < row.len() { row[i] } else { Seq::<char>::empty() };
        pairs_insert(csv_row_doc(headers.drop_last(), row), headers[i], csv_cell(cell))
    }
}

/// Storing a value and then viewing the values is viewing and then storing the view.
proof fn lemma_doc_view_insert(p: Seq<(Seq<char>, Cell)>, k: Seq<char>, v: Cell)
    requires
        keys_unique(p),
    ensures
        doc_view(pairs_insert(p, k, v)) == pairs_insert(doc_view(p), k, v@),
{
    let q = doc_view(p);
    assert(has_key(p, k) == has_key(q, k)) by {
        if has_key(p, k) {
            let i = choose|i: int| 0 <= i < p.len() && p[i].0 == k;
            assert(q[i].0 == k);
        }
        if has_key(q, k) {
            let i = choose|i: int| 0 <= i < q.len() && q[i].0 == k;
            assert(p[i].0 == k);
        }
    }
    if has_key(p, k) {
        let i = key_index(p, k);
        let j = key_index(q, k);
        assert(p[j].0 == k);
        assert(i == j);
        assert(doc_view(p.update(i, (k, v))) =~= q.update(i, (k, v@)));
    } else {
        assert(doc_view(p.push((k, v))) =~= q.push((k, v@)));
    }
}

/// Build one document from a data row against the header row: each header becomes a
/// key, a missing trailing cell becomes an empty (→ null) value, and each cell is
/// type-coerced.
pub fn csv_row_to_document(headers: &[String], row: &[String]) -> (r: StrMap<Cell>)
    ensures
        doc_view(r.pairs()) == csv_row_doc(views(headers@), views(row@)),
{
    let mut doc: StrMap<Cell> = StrMap::new();
    let mut idx: usize = 0;
    assert(doc_view(doc.pairs()) =~= csv_row_doc(views(headers@).take(0), views(row@)));
    while idx < headers.len()
        invariant
            idx <= headers@.len(),
            keys_unique(doc.pairs()),
            doc_view(doc.pairs()) == csv_row_doc(views(headers@).take(idx as int), views(row@)),
        decreases headers@.len() - idx,
    {
        let cell: &str = if idx < row.len() { row[idx].as_str() } else { "" };
        let ghost cell_view = if idx < row@.len() { views(row@)[idx as int] } else { Seq::<char>::empty() };
        proof {
            if idx >= row@.len() {
                assert(cell@ =~= Seq::<char>::empty()) by {
                    reveal_strlit("");
                }
            }
        }
        let value = coerce_csv_value(cell);
        let ghost before = doc.pairs();
        let key = headers[idx].clone();
        doc.insert(key, value);
        proof {
            lemma_doc_view_insert(before, headers@[idx as int]@, value);
            let hs = views(headers@).take(idx as int + 1);
            assert(hs.drop_last() =~= views(headers@).take(idx as int));
            assert(hs[idx as int] == headers@[idx as int]@);
        }
        idx = idx + 1;
    }
    assert(views(headers@).take(headers@.len() as int) =~= views(headers@));
    doc
}

/// The importer inserts in batches of this many documents so that memory stays
/// bounded by a batch rather than by the file.
pub const IMPORT_BATCH_SIZE: usize = 1000;

/// How far an import has got: the header row once read, the documents built so far,
/// and the error that stopped it, if one did.
pub struct ImportProgress {
    pub headers: Option<Seq<Seq<char>>>,
    pub docs: Seq<DocView>,
    pub error: Option<Seq<char>>,
}

/// Nothing read yet.
pub open spec fn import_start() -> ImportProgress {
    ImportProgress { headers: None, docs: seq![], error: None }
}

/// Taking in one raw record: the first one is the header row; each later non-blank
/// row becomes a document; a record that is not valid UTF-8 stops the import.
pub open spec fn import_step(pr: ImportProgress, raw: Seq<Seq<u8>>) -> ImportProgress {
    if pr.error is Some {
        pr
    } else {
        match decode_fields(raw) {
            Err(m) => ImportProgress { error: Some(m), ..pr },
            Ok(row) => match pr.headers {
                None => ImportProgress { headers: Some(row), ..pr },
                Some(h) => if row_blank(row) {
                    pr
                } else {
                    ImportProgress { docs: pr.docs.push(csv_row_doc(h, row)), ..pr }
                },
            },
        }
    }
}

/// Taking in raw records in order.
pub open spec fn import_run(pr: ImportProgress, recs: Seq<Seq<Seq<u8>>>) -> ImportProgress
    decreases recs.len(),
{
    if recs.len() == 0 {
        pr
    } else {
        import_run(import_step(pr, recs[0]), recs.drop_first())
    }
}

/// The documents of a CSV file (and the error that cut them short, if any).
pub open spec fn csv_import_outcome(bytes: Seq<u8>) -> ImportProgress {
    import_run(import_start(), crate::commands::csv::csv_table(bytes, crate::commands::csv::byte_marks()))
}

/// The batch size in effect: a batch is handed out once it holds at least this many.
pub open spec fn batch_limit(batch_size: usize) -> nat {
    if batch_size == 0 { 1 } else { batch_size as nat }
}

/// Once an import has stopped on an error, later records change nothing.
pub proof fn lemma_run_stopped(pr: ImportProgress, recs: Seq<Seq<Seq<u8>>>)
    requires
        pr.error is Some,
    ensures
        import_run(pr, recs) == pr,
    decreases recs.len(),
{
    if recs.len() > 0 {
        lemma_run_stopped(import_step(pr, recs[0]), recs.drop_first());
    }
}

/// Documents already built stay at the front of what the import builds.
pub proof fn lemma_run_keeps_docs(pr: ImportProgress, recs: Seq<Seq<Seq<u8>>>)
    ensures
        import_run(pr, recs).docs.len() >= pr.docs.len(),
        import_run(pr, recs).docs.take(pr.docs.len() as int) == pr.docs,
    decreases recs.len(),
{
    if recs.len() == 0 {
        assert(pr.docs.take(pr.docs.len() as int) =~= pr.docs);
    } else {
        let next = import_step(pr, recs[0]);
        lemma_run_keeps_docs(next, recs.drop_first());
        let out = import_run(pr, recs);
        assert(next.docs.take(pr.docs.len() as int) =~= pr.docs);
        assert(out.docs.take(pr.docs.len() as int) =~= out.docs.take(next.docs.len() as int).take(pr.docs.len() as int));
    }
}

/// Streaming CSV import: reads the header row, then hands out the documents of the
/// data rows (blank rows skipped) in batches of `batch_size`, the last one partial.
pub struct CsvImport {
    records: CsvRecords,
    headers: Option<Vec<String>>,
    batch_size: usize,
    finished: bool,
    sent: Ghost<nat>,
    outcome: Ghost<ImportProgress>,
    progress: Ghost<ImportProgress>,
}

impl CsvImport {
    /// The documents (and error) of the whole input.
    pub closed spec fn outcome(&self) -> ImportProgress {
        self.outcome@
    }

    /// How many documents have been handed out.
    pub closed spec fn sent(&self) -> nat {
        self.sent@
    }

    /// Whether the import has ended (input exhausted or stopped by an error).
    pub closed spec fn finished(&self) -> bool {
        self.finished
    }

    /// The batch size asked for.
    pub closed spec fn batch_size(&self) -> usize {
        self.batch_size
    }

    /// The importer's bookkeeping is consistent.
    pub closed spec fn wf(&self) -> bool {
        &&& self.records.wf()
        &&& !self.finished ==> {
            &&& self.progress@.error is None
            &&& self.progress@.docs.len() == self.sent@
            &&& self.outcome@ == import_run(self.progress@, self.records.pending())
            &&& match (self.headers, self.progress@.headers) {
                (Some(h), Some(hv)) => views(h@) == hv,
                (None, None) => true,
                _ => false,
            }
        }
    }

    /// An import of the CSV text `bytes`, handing out batches of `batch_size`.
    pub fn new(bytes: Vec<u8>, batch_size: usize) -> (r: CsvImport)
        ensures
            r.wf(),
            r.outcome() == csv_import_outcome(bytes@),
            r.sent() == 0,
            !r.finished(),
            r.batch_size() == batch_size,
    {
        let ghost text = bytes@;
        let records = CsvRecords::new(bytes);
        CsvImport {
            records,
            headers: None,
            batch_size,
            finished: false,
            sent: Ghost(0),
            outcome: Ghost(csv_import_outcome(text)),
            progress: Ghost(import_start()),
        }
    }

    /// The next batch of documents: a full batch while enough documents remain, then
    /// the remaining partial batch, then `None`. A record that is not valid UTF-8 ends
    /// the import with its error once the documents before it no longer fill a batch.
    pub fn next_batch(&mut self) -> (r: Result<Option<Vec<StrMap<Cell>>>, AppError>)
        requires
            old(self).wf(),
        ensures
            final(self).wf(),
            final(self).outcome() == old(self).outcome(),
            final(self).batch_size() == old(self).batch_size(),
            old(self).finished() ==> (r matches Ok(None) && final(self).finished()),
            !old(self).finished() ==> {
                let o = old(self).outcome();
                let p = old(self).sent();
                let b = batch_limit(old(self).batch_size());
                if p + b <= o.docs.len() {
                    &&& r matches Ok(Some(v)) && docs_view(v@) == o.docs.subrange(p as int, (p + b) as int)
                    &&& final(self).sent() == p + b
                    &&& !final(self).finished()
                } else if o.error is Some {
                    &&& r matches Err(AppError::Bson(m)) && m@ == o.error.unwrap()
                    &&& final(self).finished()
                } else if p < o.docs.len() {
                    &&& r matches Ok(Some(v)) && docs_view(v@) == o.docs.subrange(p as int, o.docs.len() as int)
                    &&& final(self).finished()
                } else {
                    &&& r matches Ok(None)
                    &&& final(self).finished()
                }
            },
    {
        if self.finished {
            return Ok(None);
        }
        let ghost o = self.outcome@;
        let ghost p = self.sent@;
        let limit: usize = if self.batch_size == 0 { 1 } else { self.batch_size };
        let mut batch: Vec<StrMap<Cell>> = Vec::new();
        proof {
            lemma_run_keeps_docs(self.progress@, self.records.pending());
            assert(docs_view(batch@) =~= self.progress@.docs.skip(p as int));
        }
        loop
            invariant
                self.records.wf(),
                !self.finished,
                !old(self).finished(),
                o == self.outcome@,
                o == old(self).outcome(),
                p == old(self).sent(),
                limit == batch_limit(old(self).batch_size()),
                self.batch_size == old(self).batch_size(),
                self.sent@ == p,
                self.progress@.error is None,
                self.progress@.docs.len() == p + batch@.len(),
                batch@.len() < limit,
                docs_view(batch@) == self.progress@.docs.skip(p as int),
                o == import_run(self.progress@, self.records.pending()),
                match (self.headers, self.progress@.headers) {
                    (Some(h), Some(hv)) => views(h@) == hv,
                    (None, None) => true,
                    _ => false,
                },
            decreases self.records.pending().len(),
        {
            let ghost pr = self.progress@;
            let ghost pending = self.records.pending();
            proof {
                lemma_run_keeps_docs(pr, pending);
            }
            match self.records.next_record() {
                Ok(None) => {
                    self.finished = true;
                    assert(o == pr);
                    if batch.len() == 0 {
                        assert(o.docs.len() == p);
                        return Ok(None);
                    }
                    assert(o.docs.subrange(p as int, o.docs.len() as int) =~= pr.docs.skip(p as int));
                    return Ok(Some(batch));
                },
                Err(e) => {
                    self.finished = true;
                    let ghost next = import_step(pr, pending[0]);
                    assert(next.error is Some);
                    proof {
                        lemma_run_stopped(next, pending.drop_first());
                    }
                    assert(o == next);
                    return Err(e);
                },
                Ok(Some(row)) => {
                    let ghost next = import_step(pr, pending[0]);
                    assert(o == import_run(next, pending.drop_first()));
                    assert(decode_fields(pending[0]) == Ok::<Seq<Seq<char>>, Seq<char>>(views(row@)));
                    match &self.headers {
                        None => {
                            self.headers = Some(row);
                            proof {
                                self.progress = Ghost(next);
                            }
                        },
                        Some(h) => {
                            if !csv_row_is_blank(row.as_slice()) {
                                let doc = csv_row_to_document(h.as_slice(), row.as_slice());
                                let ghost before = docs_view(batch@);
                                batch.push(doc);
                                proof {
                                    self.progress = Ghost(next);
                                    assert(docs_view(batch@) =~= before.push(doc_view(doc.pairs())));
                                    assert(next.docs.skip(p as int) =~= pr.docs.skip(p as int).push(next.docs.last()));
                                }
                                if batch.len() >= limit {
                                    proof {
                                        lemma_run_keeps_docs(next, pending.drop_first());
                                        assert(o.docs.subrange(p as int, p + limit) =~= next.docs.skip(p as int));
                                        self.sent = Ghost((p + limit) as nat);
                                        self.progress = Ghost(ImportProgress { docs: next.docs, ..next });
                                    }
                                    return Ok(Some(batch));
                                }
                            } else {
                                proof {
                                    self.progress = Ghost(next);
                                }
                            }
                        },
                    }
                },
            }
        }
    }
}

/// The kind of the top-level value of a JSON import file.
pub enum JsonTop {
    Array,
    Object,
    /// A string, number, boolean or null.
    Other,
}

/// One element of a JSON import as the reader decoded it: a document, a value that is
/// not a document, or a value that did not decode (with the decoder's message).
pub enum JsonItem<T> {
    Document(T),
    NotDocument,
    Invalid(String),
}

/// The message for input that is not valid JSON where documents were expected.
pub open spec fn invalid_documents_text(detail: Seq<char>) -> Seq<char> {
    "Invalid JSON ("@ + detail + "). Expected an array of documents."@
}

/// The message for a failure of the JSON reader's structure (array start, end, next).
pub open spec fn invalid_json_text(detail: Seq<char>) -> Seq<char> {
    "Invalid JSON ("@ + detail + ")"@
}

/// The error for input that is not valid JSON where documents were expected.
pub fn invalid_documents(detail: &str) -> (r: AppError)
    ensures
        r matches AppError::Bson(m) && m@ == invalid_documents_text(detail@),
{
    let mut message = "Invalid JSON (".to_owned();
    crate::text::push_str(&mut message, detail);
    crate::text::push_str(&mut message, "). Expected an array of documents.");
    AppError::Bson(message)
}

/// The error for a failure of the JSON reader's structure.
pub fn invalid_json(detail: &str) -> (r: AppError)
    ensures
        r matches AppError::Bson(m) && m@ == invalid_json_text(detail@),
{
    let mut message = "Invalid JSON (".to_owned();
    crate::text::push_str(&mut message, detail);
    crate::text::push_str(&mut message, ")");
    AppError::Bson(message)
}

/// Streaming JSON import: accepts the top-level array's elements (or the single
/// top-level object) one at a time and hands them out in batches of `batch_size`, the
/// last one partial.
pub struct JsonImport<T> {
    batch: Vec<T>,
    batch_size: usize,
    total: usize,
    accepted: Ghost<Seq<T>>,
    flushed: Ghost<Seq<T>>,
}

impl<T> JsonImport<T> {
    /// The documents accepted so far, in order.
    pub closed spec fn accepted(&self) -> Seq<T> {
        self.accepted@
    }

    /// The documents already handed out in batches, in order.
    pub closed spec fn flushed(&self) -> Seq<T> {
        self.flushed@
    }

    /// The batch size asked for.
    pub closed spec fn batch_size(&self) -> usize {
        self.batch_size
    }

    /// The bookkeeping is consistent: what was handed out and what is pending are the
    /// accepted documents; a pending batch is never full; the count handed out is known
    /// (up to `usize::MAX`).
    pub closed spec fn wf(&self) -> bool {
        &&& self.flushed@ + self.batch@ == self.accepted@
        &&& self.batch@.len() < batch_limit(self.batch_size)
        &&& self.total == if self.flushed@.len() < usize::MAX { self.flushed@.len() } else { usize::MAX as nat }
    }

    /// An import that has accepted nothing.
    pub fn new(batch_size: usize) -> (r: JsonImport<T>)
        ensures
            r.wf(),
            r.accepted() == Seq::<T>::empty(),
            r.flushed() == Seq::<T>::empty(),
            r.batch_size() == batch_size,
    {
        let r = JsonImport { batch: Vec::new(), batch_size, total: 0, accepted: Ghost(Seq::empty()), flushed: Ghost(Seq::empty()) };
        assert(r.flushed@ + r.batch@ =~= r.accepted@);
        r
    }

    /// How many documents have been handed out (at most `usize::MAX`).
    pub fn total(&self) -> (r: usize)
        requires
            self.wf(),
        ensures
            r == if self.flushed().len() < usize::MAX { self.flushed().len() } else { usize::MAX as nat },
    {
        self.total
    }

    /// Check the top-level value: an array or an object can be imported; anything else,
    /// or input whose first value does not read, is an error.
    pub fn top_level(peeked: Result<JsonTop, String>) -> (r: Result<bool, AppError>)
        ensures
            match peeked {
                Ok(JsonTop::Array) => r == Ok::<bool, AppError>(true),
                Ok(JsonTop::Object) => r == Ok::<bool, AppError>(false),
                Ok(JsonTop::Other) => r matches Err(AppError::Bson(m))
                    && m@ == "Import file must be a JSON array of documents"@,
                Err(e) => r matches Err(AppError::Bson(m)) && m@ == invalid_documents_text(e@),
            },
    {
        match peeked {
            Ok(JsonTop::Array) => Ok(true),
            Ok(JsonTop::Object) => Ok(false),
            Ok(JsonTop::Other) => Err(AppError::Bson("Import file must be a JSON array of documents".to_owned())),
            Err(e) => Err(invalid_documents(e.as_str())),
        }
    }

    /// Take in one decoded element: a document is accepted (and a batch that it fills
    /// is handed out); anything else is an error, and nothing changes.
    pub fn accept(&mut self, item: Result<JsonItem<T>, String>) -> (r: Result<Option<Vec<T>>, AppError>)
        requires
            old(self).wf(),
        ensures
            final(self).wf(),
            final(self).batch_size() == old(self).batch_size(),
            match item {
                Ok(JsonItem::Document(d)) => {
                    &&& final(self).accepted() == old(self).accepted().push(d)
                    &&& match r {
                        Ok(Some(b)) => b@.len() == batch_limit(old(self).batch_size())
                            && final(self).flushed() == old(self).flushed() + b@
                            && final(self).flushed() == final(self).accepted(),
                        Ok(None) => final(self).flushed() == old(self).flushed(),
                        Err(_) => false,
                    }
                },
                Ok(JsonItem::NotDocument) => r matches Err(AppError::Bson(m))
                    && m@ == "Each item must be a JSON object"@ && final(self).accepted() == old(self).accepted()
                    && final(self).flushed() == old(self).flushed(),
                Ok(JsonItem::Invalid(e)) => r matches Err(AppError::Bson(m))
                    && m@ == invalid_documents_text(e@) && final(self).accepted() == old(self).accepted()
                    && final(self).flushed() == old(self).flushed(),
                Err(e) => r matches Err(AppError::Bson(m))
                    && m@ == invalid_documents_text(e@) && final(self).accepted() == old(self).accepted()
                    && final(self).flushed() == old(self).flushed(),
            },
    {
        match item {
            Ok(JsonItem::Document(d)) => {
                let ghost before = self.batch@;
                self.batch.push(d);
                proof {
                    self.accepted = Ghost(self.accepted@.push(d));
                    assert(self.flushed@ + self.batch@ =~= self.accepted@);
                }
                let limit: usize = if self.batch_size == 0 { 1 } else { self.batch_size };
                if self.batch.len() >= limit {
                    let mut full: Vec<T> = Vec::new();
                    std::mem::swap(&mut full, &mut self.batch);
                    self.total = self.total.saturating_add(full.len());
                    proof {
                        self.flushed = Ghost(self.flushed@ + full@);
                        assert(self.flushed@ + self.batch@ =~= self.accepted@);
                    }
                    Ok(Some(full))
                } else {
                    Ok(None)
                }
            },
            Ok(JsonItem::NotDocument) => Err(AppError::Bson("Each item must be a JSON object".to_owned())),
            Ok(JsonItem::Invalid(e)) => Err(invalid_documents(e.as_str())),
            Err(e) => Err(invalid_documents(e.as_str())),
        }
    }

    /// At the end of the input: the last partial batch, if any documents are pending.
    pub fn finish(&mut self) -> (r: Option<Vec<T>>)
        requires
            old(self).wf(),
        ensures
            final(self).wf(),
            final(self).accepted() == old(self).accepted(),
            final(self).flushed() == final(self).accepted(),
            match r {
                Some(b) => b@.len() > 0 && final(self).flushed() == old(self).flushed() + b@,
                None => final(self).flushed() == old(self).flushed(),
            },
    {
        if self.batch.len() == 0 {
            assert(self.flushed@ + self.batch@ =~= self.flushed@);
            return None;
        }
        let mut last: Vec<T> = Vec::new();
        std::mem::swap(&mut last, &mut self.batch);
        self.total = self.total.saturating_add(last.len());
        proof {
            self.flushed = Ghost(self.flushed@ + last@);
            assert(self.flushed@ + self.batch@ =~= self.accepted@);
        }
        Some(last)
    }
}

}

