//! RFC-4180 CSV: writing escaped fields, reading whole texts and streaming records,
//! and turning rows into import documents in bounded batches.

use vstd::prelude::*;
use crate::text::{chars_of, push_char, push_str, views, join_with};
use crate::error::AppError;
use vstd::utf8::{valid_utf8, decode_utf8};

verus! {

/// The four structural symbols of CSV in some alphabet (characters or bytes).
pub struct CsvMarks<T> {
    pub quote: T,
    pub comma: T,
    pub newline: T,
    pub carriage_return: T,
}

/// The structural characters.
pub open spec fn char_marks() -> CsvMarks<char> {
    CsvMarks { quote: '"', comma: ',', newline: '\n', carriage_return: '\r' }
}

/// The structural bytes (the same characters, which UTF-8 encodes as single bytes).
pub open spec fn byte_marks() -> CsvMarks<u8> {
    CsvMarks { quote: 34u8, comma: 44u8, newline: 10u8, carriage_return: 13u8 }
}

/// The reader's state part-way through a text: the finished rows, the fields of the
/// record being read, the field being read, and whether it is inside quotes.
pub struct CsvScan<T> {
    pub rows: Seq<Seq<Seq<T>>>,
    pub record: Seq<Seq<T>>,
    pub field: Seq<T>,
    pub in_quotes: bool,
}

/// The state before anything is read.
pub open spec fn fresh_scan<T>() -> CsvScan<T> {
    CsvScan { rows: seq![], record: seq![], field: seq![], in_quotes: false }
}

/// The state after reading `s` from position `i` on, starting in state `st`.
/// Inside quotes a doubled quote is one literal quote and a single quote ends the
/// quoting; outside, a quote starts quoting, a comma ends a field, a newline ends a
/// record, a carriage return is dropped and anything else is field content.
pub open spec fn csv_run<T>(s: Seq<T>, i: int, st: CsvScan<T>, m: CsvMarks<T>) -> CsvScan<T>
    decreases s.len() - i,
{
    if i < 0 || i >= s.len() {
        st
    } else {
        let c = s[i];
        if st.in_quotes {
            if c == m.quote {
                if i + 1 < s.len() && s[i + 1] == m.quote {
                    csv_run(s, i + 2, CsvScan { field: st.field.push(m.quote), ..st }, m)
                } else {
                    csv_run(s, i + 1, CsvScan { in_quotes: false, ..st }, m)
                }
            } else {
                csv_run(s, i + 1, CsvScan { field: st.field.push(c), ..st }, m)
            }
        } else if c == m.quote {
            csv_run(s, i + 1, CsvScan { in_quotes: true, ..st }, m)
        } else if c == m.comma {
            csv_run(s, i + 1, CsvScan { record: st.record.push(st.field), field: seq![], ..st }, m)
        } else if c == m.newline {
            csv_run(s, i + 1, CsvScan {
                rows: st.rows.push(st.record.push(st.field)),
                record: seq![],
                field: seq![],
                ..st
            }, m)
        } else if c == m.carriage_return {
            csv_run(s, i + 1, st, m)
        } else {
            csv_run(s, i + 1, CsvScan { field: st.field.push(c), ..st }, m)
        }
    }
}

/// The rows once the text has ended: a pending record (any pending data) is the last row.
pub open spec fn csv_finish<T>(st: CsvScan<T>) -> Seq<Seq<Seq<T>>> {
    if st.field.len() > 0 || st.record.len() > 0 {
        st.rows.push(st.record.push(st.field))
    } else {
        st.rows
    }
}

/// The rows of fields of a whole text.
pub open spec fn csv_table<T>(s: Seq<T>, m: CsvMarks<T>) -> Seq<Seq<Seq<T>>> {
    csv_finish(csv_run(s, 0, fresh_scan(), m))
}

/// The character sequences of a list of rows of strings.
pub open spec fn rows_view(rows: Seq<Vec<String>>) -> Seq<Seq<Seq<char>>> {
    rows.map_values(|r: Vec<String>| views(r@))
}

/// Minimal RFC-4180 CSV reader over a whole text: quoted fields, doubled quotes and
/// embedded newlines. Returns rows of string fields.
pub fn parse_csv_rows(text: &str) -> (r: Vec<Vec<String>>)
    ensures
        rows_view(r@) == csv_table(text@, char_marks()),
{
    let chars = chars_of(text);
    let ghost s = chars@;
    let ghost m = char_marks();
    let mut rows: Vec<Vec<String>> = Vec::new();
    let mut record: Vec<String> = Vec::new();
    let mut field = String::new();
    let mut in_quotes = false;
    let mut i: usize = 0;
    assert(rows_view(rows@) =~= Seq::<Seq<Seq<char>>>::empty());
    assert(views(record@) =~= Seq::<Seq<char>>::empty());
    while i < chars.len()
        invariant
            s == chars@,
            m == char_marks(),
            i <= s.len(),
            csv_table(s, m) == csv_finish(csv_run(s, i as int, CsvScan {
                rows: rows_view(rows@),
                record: views(record@),
                field: field@,
                in_quotes,
            }, m)),
        decreases s.len() - i,
    {
        let c = chars[i];
        if in_quotes {
            if c == '"' {
                if i + 1 < chars.len() && chars[i + 1] == '"' {
                    push_char(&mut field, '"');
                    i = i + 1;
                } else {
                    in_quotes = false;
                }
            } else {
                push_char(&mut field, c);
            }
        } else {
            if c == '"' {
                in_quotes = true;
            } else if c == ',' {
                let mut done = String::new();
                std::mem::swap(&mut done, &mut field);
                let ghost before = views(record@);
                record.push(done);
                assert(views(record@) =~= before.push(done@));
            } else if c == '\n' {
                let mut done = String::new();
                std::mem::swap(&mut done, &mut field);
                let ghost before = views(record@);
                record.push(done);
                assert(views(record@) =~= before.push(done@));
                let mut finished: Vec<String> = Vec::new();
                std::mem::swap(&mut finished, &mut record);
                let ghost before_rows = rows_view(rows@);
                rows.push(finished);
                assert(rows_view(rows@) =~= before_rows.push(views(finished@)));
                assert(views(record@) =~= Seq::<Seq<char>>::empty());
            } else if c == '\r' {
            } else {
                push_char(&mut field, c);
            }
        }
        i = i + 1;
    }
    if !field.as_str().is_empty() || record.len() > 0 {
        let ghost before = views(record@);
        let ghost f = field@;
        record.push(field);
        assert(views(record@) =~= before.push(f));
        let ghost before_rows = rows_view(rows@);
        rows.push(record);
        assert(rows_view(rows@) =~= before_rows.push(before.push(f)));
    }
    rows
}


/// Whether a field must be quoted: it holds a comma, a quote, a newline or a carriage return.
pub open spec fn needs_quoting(s: Seq<char>) -> bool {
    exists|i: int| 0 <= i < s.len() && (s[i] == ',' || s[i] == '"' || s[i] == '\n' || s[i] == '\r')
}

/// `s` with every quote doubled.
pub open spec fn double_quotes(s: Seq<char>) -> Seq<char>
    decreases s.len(),
{
    if s.len() == 0 {
        s
    } else {
        (if s[0] == '"' { seq!['"', '"'] } else { seq![s[0]] }) + double_quotes(s.drop_first())
    }
}

/// A field as RFC-4180 writes it: quoted, with doubled quotes, only when it must be.
pub open spec fn csv_escaped(s: Seq<char>) -> Seq<char> {
    if needs_quoting(s) { seq!['"'] + double_quotes(s) + seq!['"'] } else { s }
}

/// Quote a CSV field only when it contains a delimiter, quote, or newline, doubling
/// any embedded quotes.
pub fn csv_escape(value: &str) -> (r: String)
    ensures
        r@ == csv_escaped(value@),
{
    let cs = chars_of(value);
    let mut quoting = false;
    let mut i: usize = 0;
    while i < cs.len()
        invariant
            cs@ == value@,
            i <= cs@.len(),
            quoting == exists|j: int| 0 <= j < i && (cs@[j] == ',' || cs@[j] == '"' || cs@[j] == '\n' || cs@[j] == '\r'),
        decreases cs@.len() - i,
    {
        let c = cs[i];
        if c == ',' || c == '"' || c == '\n' || c == '\r' {
            quoting = true;
        }
        i = i + 1;
    }
    if !quoting {
        return value.to_owned();
    }
    let mut out = String::new();
    push_char(&mut out, '"');
    let mut k: usize = 0;
    assert(cs@.skip(0) =~= cs@);
    while k < cs.len()
        invariant
            cs@ == value@,
            k <= cs@.len(),
            seq!['"'] + double_quotes(value@) == out@ + double_quotes(cs@.skip(k as int)),
        decreases cs@.len() - k,
    {
        let c = cs[k];
        let ghost before = out@;
        assert(cs@.skip(k as int)[0] == c);
        assert(cs@.skip(k as int).drop_first() =~= cs@.skip(k as int + 1));
        if c == '"' {
            push_char(&mut out, '"');
            push_char(&mut out, '"');
            assert(out@ =~= before + seq!['"', '"']);
        } else {
            push_char(&mut out, c);
            assert(out@ =~= before + seq![c]);
        }
        assert(before + double_quotes(cs@.skip(k as int)) =~= out@ + double_quotes(cs@.skip(k as int + 1)));
        k = k + 1;
    }
    assert(cs@.skip(k as int) =~= Seq::<char>::empty());
    assert(out@ + Seq::<char>::empty() =~= out@);
    push_char(&mut out, '"');
    out
}

/// Reading a text from position `i` depends only on the text from `i` on.
pub proof fn lemma_run_skip<T>(s: Seq<T>, i: int, st: CsvScan<T>, m: CsvMarks<T>)
    requires
        0 <= i <= s.len(),
    ensures
        csv_run(s, i, st, m) == csv_run(s.skip(i), 0, st, m),
    decreases s.len() - i,
{
    let t = s.skip(i);
    if i < s.len() {
        let c = s[i];
        assert(t[0] == c);
        if i + 1 < s.len() {
            assert(t[1] == s[i + 1]);
        }
        let step: int = if st.in_quotes && c == m.quote && i + 1 < s.len() && s[i + 1] == m.quote { 2 } else { 1 };
        let st2 = if st.in_quotes {
            if c == m.quote {
                if i + 1 < s.len() && s[i + 1] == m.quote {
                    CsvScan { field: st.field.push(m.quote), ..st }
                } else {
                    CsvScan { in_quotes: false, ..st }
                }
            } else {
                CsvScan { field: st.field.push(c), ..st }
            }
        } else if c == m.quote {
            CsvScan { in_quotes: true, ..st }
        } else if c == m.comma {
            CsvScan { record: st.record.push(st.field), field: seq![], ..st }
        } else if c == m.newline {
            CsvScan { rows: st.rows.push(st.record.push(st.field)), record: seq![], field: seq![], ..st }
        } else if c == m.carriage_return {
            st
        } else {
            CsvScan { field: st.field.push(c), ..st }
        };
        assert(csv_run(s, i, st, m) == csv_run(s, i + step, st2, m));
        assert(csv_run(t, 0, st, m) == csv_run(t, step, st2, m));
        lemma_run_skip(s, i + step, st2, m);
        lemma_run_skip(t, step, st2, m);
        assert(s.skip(i + step) =~= t.skip(step));
    } else {
        assert(t.len() == 0);
    }
}

/// Outside quotes, characters that are not structural just extend the field.
proof fn lemma_plain_run(p: Seq<char>, rest: Seq<char>, st: CsvScan<char>)
    requires
        !st.in_quotes,
        !needs_quoting(p),
    ensures
        csv_run(p + rest, 0, st, char_marks()) == csv_run(rest, 0, CsvScan { field: st.field + p, ..st }, char_marks()),
    decreases p.len(),
{
    let m = char_marks();
    let s = p + rest;
    if p.len() == 0 {
        assert(s =~= rest);
        assert(st.field + p =~= st.field);
    } else {
        assert(s[0] == p[0]);
        assert(!(p[0] == ',' || p[0] == '"' || p[0] == '\n' || p[0] == '\r'));
        let st2 = CsvScan { field: st.field.push(p[0]), ..st };
        lemma_run_skip(s, 1, st2, m);
        assert(s.skip(1) =~= p.drop_first() + rest);
        assert(!needs_quoting(p.drop_first())) by {
            if needs_quoting(p.drop_first()) {
                let j = choose|j: int| 0 <= j < p.drop_first().len() && (p.drop_first()[j] == ',' || p.drop_first()[j] == '"' || p.drop_first()[j] == '\n' || p.drop_first()[j] == '\r');
                assert(p[j + 1] == p.drop_first()[j]);
            }
        }
        lemma_plain_run(p.drop_first(), rest, st2);
        assert(st2.field + p.drop_first() =~= st.field + p);
    }
}

/// Inside quotes, a quote-doubled text followed by a closing quote yields the text.
proof fn lemma_quoted_run(x: Seq<char>, rest: Seq<char>, st: CsvScan<char>)
    requires
        st.in_quotes,
        rest.len() == 0 || rest[0] != '"',
    ensures
        csv_run(double_quotes(x) + seq!['"'] + rest, 0, st, char_marks())
            == csv_run(rest, 0, CsvScan { field: st.field + x, in_quotes: false, ..st }, char_marks()),
    decreases x.len(),
{
    let m = char_marks();
    let s = double_quotes(x) + seq!['"'] + rest;
    if x.len() == 0 {
        assert(double_quotes(x) =~= Seq::<char>::empty());
        assert(s =~= seq!['"'] + rest);
        assert(s[0] == '"');
        if rest.len() > 0 {
            assert(s[1] == rest[0]);
        }
        let st2 = CsvScan { in_quotes: false, ..st };
        lemma_run_skip(s, 1, st2, m);
        assert(s.skip(1) =~= rest);
        assert(st.field + x =~= st.field);
    } else {
        let tail = double_quotes(x.drop_first()) + seq!['"'] + rest;
        if x[0] == '"' {
            assert(s =~= seq!['"', '"'] + tail);
            assert(s[0] == '"' && s[1] == '"');
            let st2 = CsvScan { field: st.field.push('"'), ..st };
            lemma_run_skip(s, 2, st2, m);
            assert(s.skip(2) =~= tail);
            lemma_quoted_run(x.drop_first(), rest, st2);
        } else {
            assert(s =~= seq![x[0]] + tail);
            assert(s[0] == x[0]);
            let st2 = CsvScan { field: st.field.push(x[0]), ..st };
            lemma_run_skip(s, 1, st2, m);
            assert(s.skip(1) =~= tail);
            lemma_quoted_run(x.drop_first(), rest, st2);
        }
        assert(st.field.push(x[0]) + x.drop_first() =~= st.field + x);
    }
}

/// An escaped field, read outside quotes, adds exactly its text to the current field.
proof fn lemma_escaped_run(x: Seq<char>, rest: Seq<char>, st: CsvScan<char>)
    requires
        !st.in_quotes,
        rest.len() == 0 || rest[0] != '"',
    ensures
        csv_run(csv_escaped(x) + rest, 0, st, char_marks())
            == csv_run(rest, 0, CsvScan { field: st.field + x, ..st }, char_marks()),
{
    let m = char_marks();
    if needs_quoting(x) {
        let s = csv_escaped(x) + rest;
        let body = double_quotes(x) + seq!['"'] + rest;
        assert(s =~= seq!['"'] + body);
        assert(s[0] == '"');
        let st2 = CsvScan { in_quotes: true, ..st };
        lemma_run_skip(s, 1, st2, m);
        assert(s.skip(1) =~= body);
        lemma_quoted_run(x, rest, st2);
    } else {
        lemma_plain_run(x, rest, st);
    }
}

/// The text of one CSV line: the escaped fields joined by commas, then a newline.
pub open spec fn csv_line(fields: Seq<Seq<char>>) -> Seq<char> {
    join_with(fields.map_values(|f: Seq<char>| csv_escaped(f)), seq![',']) + seq!['\n']
}

pub proof fn lemma_fields_run(fields: Seq<Seq<char>>, rest: Seq<char>, st: CsvScan<char>)
    requires
        fields.len() > 0,
        !st.in_quotes,
        st.field.len() == 0,
        rest.len() == 0 || rest[0] != '"',
    ensures
        csv_run(join_with(fields.map_values(|f: Seq<char>| csv_escaped(f)), seq![',']) + rest, 0, st, char_marks())
            == csv_run(rest, 0, CsvScan { record: st.record + fields.drop_last(), field: fields.last(), ..st }, char_marks()),
    decreases fields.len(),
{
    let m = char_marks();
    let escaped = fields.map_values(|f: Seq<char>| csv_escaped(f));
    if fields.len() == 1 {
        assert(join_with(escaped, seq![',']) == escaped[0]);
        lemma_escaped_run(fields[0], rest, st);
        assert(st.field + fields[0] =~= fields.last());
        assert(st.record + fields.drop_last() =~= st.record);
    } else {
        let init = fields.drop_last();
        let last = fields.last();
        assert(escaped.drop_last() =~= init.map_values(|f: Seq<char>| csv_escaped(f)));
        let head = join_with(init.map_values(|f: Seq<char>| csv_escaped(f)), seq![',']);
        let rest2 = seq![','] + csv_escaped(last) + rest;
        assert(join_with(escaped, seq![',']) + rest =~= head + rest2);
        lemma_fields_run(init, rest2, st);
        let st2 = CsvScan { record: st.record + init.drop_last(), field: init.last(), ..st };
        assert(rest2[0] == ',');
        let st3 = CsvScan { record: st2.record.push(st2.field), field: seq![], ..st2 };
        lemma_run_skip(rest2, 1, st3, m);
        assert(rest2.skip(1) =~= csv_escaped(last) + rest);
        lemma_escaped_run(last, rest, st3);
        assert(st3.record =~= st.record + fields.drop_last());
        assert(st3.field + last =~= last);
    }
}

/// Reading back one written line gives back exactly the fields that were written:
/// quoting and quote doubling are undone, and commas, quotes, newlines and carriage
/// returns inside fields survive.
pub proof fn law_escaped_line_reads_back(fields: Seq<Seq<char>>)
    requires
        fields.len() > 0,
    ensures
        csv_table(csv_line(fields), char_marks()) == seq![fields],
{
    let m = char_marks();
    let body = join_with(fields.map_values(|f: Seq<char>| csv_escaped(f)), seq![',']);
    let nl = seq!['\n'];
    lemma_fields_run(fields, nl, fresh_scan());
    let st = CsvScan { record: fresh_scan::<char>().record + fields.drop_last(), field: fields.last(), ..fresh_scan::<char>() };
    assert(nl[0] == '\n');
    let st2 = CsvScan {
        rows: st.rows.push(st.record.push(st.field)),
        record: seq![],
        field: seq![],
        ..st
    };
    lemma_run_skip(nl, 1, st2, m);
    assert(nl.skip(1) =~= Seq::<char>::empty());
    assert(st.record.push(st.field) =~= fields);
    assert(st2.rows =~= seq![fields]);
}


/// Reading with some rows already finished gives those rows followed by what reading
/// with none finished gives; the rest of the state does not depend on them.
pub proof fn lemma_rows_frame<T>(s: Seq<T>, i: int, st: CsvScan<T>, m: CsvMarks<T>)
    ensures
        csv_run(s, i, st, m) == (CsvScan {
            rows: st.rows + csv_run(s, i, CsvScan { rows: seq![], ..st }, m).rows,
            ..csv_run(s, i, CsvScan { rows: seq![], ..st }, m)
        }),
    decreases s.len() - i,
{
    let st0 = CsvScan { rows: seq![], ..st };
    if 0 <= i < s.len() {
        let c = s[i];
        if st.in_quotes {
            if c == m.quote {
                if i + 1 < s.len() && s[i + 1] == m.quote {
                    lemma_rows_frame(s, i + 2, CsvScan { field: st.field.push(m.quote), ..st }, m);
                    lemma_rows_frame(s, i + 2, CsvScan { field: st.field.push(m.quote), ..st0 }, m);
                } else {
                    lemma_rows_frame(s, i + 1, CsvScan { in_quotes: false, ..st }, m);
                    lemma_rows_frame(s, i + 1, CsvScan { in_quotes: false, ..st0 }, m);
                }
            } else {
                lemma_rows_frame(s, i + 1, CsvScan { field: st.field.push(c), ..st }, m);
                lemma_rows_frame(s, i + 1, CsvScan { field: st.field.push(c), ..st0 }, m);
            }
        } else if c == m.quote {
            lemma_rows_frame(s, i + 1, CsvScan { in_quotes: true, ..st }, m);
            lemma_rows_frame(s, i + 1, CsvScan { in_quotes: true, ..st0 }, m);
        } else if c == m.comma {
            lemma_rows_frame(s, i + 1, CsvScan { record: st.record.push(st.field), field: seq![], ..st }, m);
            lemma_rows_frame(s, i + 1, CsvScan { record: st.record.push(st.field), field: seq![], ..st0 }, m);
        } else if c == m.newline {
            let row = st.record.push(st.field);
            let a = CsvScan { rows: st.rows.push(row), record: seq![], field: seq![], ..st };
            let b = CsvScan { rows: seq![row], record: seq![], field: seq![], ..st0 };
            lemma_rows_frame(s, i + 1, a, m);
            lemma_rows_frame(s, i + 1, b, m);
            let base = csv_run(s, i + 1, CsvScan { rows: seq![], ..a }, m);
            assert(CsvScan { rows: seq![], ..a } == CsvScan { rows: seq![], ..b });
            assert(st.rows.push(row) + base.rows =~= st.rows + (seq![row] + base.rows));
        } else if c == m.carriage_return {
            lemma_rows_frame(s, i + 1, st, m);
        } else {
            lemma_rows_frame(s, i + 1, CsvScan { field: st.field.push(c), ..st }, m);
            lemma_rows_frame(s, i + 1, CsvScan { field: st.field.push(c), ..st0 }, m);
        }
    } else {
        assert(st.rows + Seq::<Seq<Seq<T>>>::empty() =~= st.rows);
    }
}

/// The message of a failed UTF-8 decoding of `bytes` (std `FromUtf8Error`'s text).
pub uninterp spec fn utf8_error_text(bytes: Seq<u8>) -> Seq<char>;

/// Decodes UTF-8 bytes into a string (std `String::from_utf8`). Claimed: it succeeds
/// exactly on valid UTF-8, giving the decoded characters; on failure the error's text
/// is a function of the bytes.
#[verifier::external_body]
fn utf8_to_string(bytes: Vec<u8>) -> (r: Result<String, String>)
    ensures
        match r {
            Ok(s) => valid_utf8(bytes@) && s@ == decode_utf8(bytes@),
            Err(text) => !valid_utf8(bytes@) && text@ == utf8_error_text(bytes@),
        },
{
    match String::from_utf8(bytes) {
        Ok(text) => Ok(text),
        Err(e) => Err(e.to_string()),
    }
}

/// The fields of a record decoded from UTF-8, or the message for the first field that
/// is not valid UTF-8.
pub open spec fn decode_fields(fields: Seq<Seq<u8>>) -> Result<Seq<Seq<char>>, Seq<char>>
    decreases fields.len(),
{
    if fields.len() == 0 {
        Ok(seq![])
    } else if !valid_utf8(fields[0]) {
        Err("Import file is not valid UTF-8: "@ + utf8_error_text(fields[0]))
    } else {
        match decode_fields(fields.drop_first()) {
            Ok(rest) => Ok(seq![decode_utf8(fields[0])] + rest),
            Err(e) => Err(e),
        }
    }
}

/// What the reader hands back for a raw record: its decoded fields, or the decoding
/// error.
pub open spec fn record_result(fields: Seq<Seq<u8>>, r: Result<Vec<String>, AppError>) -> bool {
    match decode_fields(fields) {
        Ok(texts) => r matches Ok(v) && views(v@) == texts,
        Err(message) => r matches Err(AppError::Bson(m)) && m@ == message,
    }
}

/// Streaming RFC-4180 CSV reader over the bytes of a file: one record per call,
/// quoted fields, doubled quotes and embedded newlines, each field decoded from UTF-8
/// at its boundary. The structural characters are single ASCII bytes, which never occur
/// inside a multi-byte UTF-8 sequence.
pub struct CsvRecords {
    bytes: Vec<u8>,
    pos: usize,
    finished: bool,
}

/// Where reading resumes after the first field, in the record being read from
/// position `i` in state `st`, that is not valid UTF-8: just after the comma or
/// newline that ends it, or at the end of the text. `None` when every field of that
/// record decodes (or no record is left).
pub open spec fn resume_after_bad_field(s: Seq<u8>, i: int, st: CsvScan<u8>) -> Option<int>
    decreases s.len() - i,
{
    let m = byte_marks();
    if i < 0 || i >= s.len() {
        if (st.field.len() > 0 || st.record.len() > 0) && !valid_utf8(st.field) { Some(s.len() as int) } else { None }
    } else {
        let c = s[i];
        if st.in_quotes {
            if c == m.quote {
                if i + 1 < s.len() && s[i + 1] == m.quote {
                    resume_after_bad_field(s, i + 2, CsvScan { field: st.field.push(m.quote), ..st })
                } else {
                    resume_after_bad_field(s, i + 1, CsvScan { in_quotes: false, ..st })
                }
            } else {
                resume_after_bad_field(s, i + 1, CsvScan { field: st.field.push(c), ..st })
            }
        } else if c == m.quote {
            resume_after_bad_field(s, i + 1, CsvScan { in_quotes: true, ..st })
        } else if c == m.comma {
            if !valid_utf8(st.field) {
                Some(i + 1)
            } else {
                resume_after_bad_field(s, i + 1, CsvScan { record: st.record.push(st.field), field: seq![], ..st })
            }
        } else if c == m.newline {
            if !valid_utf8(st.field) { Some(i + 1) } else { None }
        } else if c == m.carriage_return {
            resume_after_bad_field(s, i + 1, st)
        } else {
            resume_after_bad_field(s, i + 1, CsvScan { field: st.field.push(c), ..st })
        }
    }
}

/// Decoding one more field: the record so far decodes and so does the field, or the
/// first field that does not decode decides the error.
proof fn lemma_decode_push(rec: Seq<Seq<u8>>, f: Seq<u8>)
    ensures
        decode_fields(rec.push(f)) == match decode_fields(rec) {
            Ok(t) => if valid_utf8(f) {
                Ok(t.push(decode_utf8(f)))
            } else {
                Err("Import file is not valid UTF-8: "@ + utf8_error_text(f))
            },
            Err(e) => Err(e),
        },
    decreases rec.len(),
{
    if rec.len() == 0 {
        let x = rec.push(f);
        assert(x.drop_first() =~= Seq::<Seq<u8>>::empty());
        assert(x[0] == f);
        assert(decode_fields(Seq::<Seq<u8>>::empty()) == Ok::<Seq<Seq<char>>, Seq<char>>(Seq::<Seq<char>>::empty()));
        assert(decode_fields(rec) == Ok::<Seq<Seq<char>>, Seq<char>>(Seq::<Seq<char>>::empty()));
        if valid_utf8(f) {
            assert(seq![decode_utf8(f)] + Seq::<Seq<char>>::empty() =~= Seq::<Seq<char>>::empty().push(decode_utf8(f)));
            assert(decode_fields(x) == Ok::<Seq<Seq<char>>, Seq<char>>(seq![decode_utf8(f)] + Seq::<Seq<char>>::empty()));
        }
    } else {
        let x = rec.push(f);
        assert(x.drop_first() =~= rec.drop_first().push(f));
        assert(x[0] == rec[0]);
        assert(x.len() > 0);
        lemma_decode_push(rec.drop_first(), f);
        if valid_utf8(rec[0]) {
            assert(decode_fields(x) == match decode_fields(rec.drop_first().push(f)) {
                Ok(rest) => Ok(seq![decode_utf8(rec[0])] + rest),
                Err(e) => Err(e),
            });
            match decode_fields(rec.drop_first()) {
                Ok(t) => {
                    if valid_utf8(f) {
                        assert(seq![decode_utf8(rec[0])] + t.push(decode_utf8(f)) =~= (seq![decode_utf8(rec[0])] + t).push(decode_utf8(f)));
                    }
                },
                Err(_) => {},
            }
        } else {
            assert(decode_fields(x) == decode_fields(rec));
        }
    }
}

/// A record whose beginning does not decode does not decode, whatever follows.
proof fn lemma_decode_prefix_err(x: Seq<Seq<u8>>, y: Seq<Seq<u8>>)
    requires
        decode_fields(x) is Err,
    ensures
        decode_fields(x + y) == decode_fields(x),
    decreases x.len(),
{
    assert(x.len() > 0);
    assert((x + y)[0] == x[0]);
    assert((x + y).drop_first() =~= x.drop_first() + y);
    if valid_utf8(x[0]) {
        lemma_decode_prefix_err(x.drop_first(), y);
    }
}

/// Reading on from part-way through a record (no rows finished yet, some fields read)
/// finishes that record first: the first row starts with the fields read so far.
proof fn lemma_first_row_prefix(s: Seq<u8>, i: int, st: CsvScan<u8>)
    requires
        st.rows.len() == 0,
        st.record.len() > 0,
    ensures
        csv_finish(csv_run(s, i, st, byte_marks())).len() > 0,
        csv_finish(csv_run(s, i, st, byte_marks()))[0].len() >= st.record.len(),
        csv_finish(csv_run(s, i, st, byte_marks()))[0].take(st.record.len() as int) == st.record,
    decreases s.len() - i,
{
    let m = byte_marks();
    if 0 <= i < s.len() {
        let c = s[i];
        if st.in_quotes {
            if c == m.quote {
                if i + 1 < s.len() && s[i + 1] == m.quote {
                    lemma_first_row_prefix(s, i + 2, CsvScan { field: st.field.push(m.quote), ..st });
                } else {
                    lemma_first_row_prefix(s, i + 1, CsvScan { in_quotes: false, ..st });
                }
            } else {
                lemma_first_row_prefix(s, i + 1, CsvScan { field: st.field.push(c), ..st });
            }
        } else if c == m.quote {
            lemma_first_row_prefix(s, i + 1, CsvScan { in_quotes: true, ..st });
        } else if c == m.comma {
            let st2 = CsvScan { record: st.record.push(st.field), field: seq![], ..st };
            lemma_first_row_prefix(s, i + 1, st2);
            let r0 = csv_finish(csv_run(s, i + 1, st2, m))[0];
            assert(r0.take(st.record.len() as int) =~= r0.take(st2.record.len() as int).take(st.record.len() as int));
            assert(st2.record.take(st.record.len() as int) =~= st.record);
        } else if c == m.newline {
            let row = st.record.push(st.field);
            let st2 = CsvScan { rows: seq![row], record: seq![], field: seq![], ..st };
            assert(st.rows.push(row) =~= seq![row]);
            assert(csv_run(s, i, st, m) == csv_run(s, i + 1, st2, m));
            lemma_rows_frame(s, i + 1, st2, m);
            let out = csv_run(s, i + 1, st2, m);
            assert(out.rows[0] == row);
            assert(csv_finish(out)[0] == row);
            assert(row.take(st.record.len() as int) =~= st.record);
        } else if c == m.carriage_return {
            lemma_first_row_prefix(s, i + 1, st);
        } else {
            lemma_first_row_prefix(s, i + 1, CsvScan { field: st.field.push(c), ..st });
        }
    } else {
        let row = st.record.push(st.field);
        assert(csv_finish(st)[0] == row);
        assert(row.take(st.record.len() as int) =~= st.record);
    }
}

impl CsvRecords {
    /// The whole input.
    pub closed spec fn text(&self) -> Seq<u8> {
        self.bytes@
    }

    /// How far the input has been read.
    pub closed spec fn position(&self) -> int {
        self.pos as int
    }

    /// The raw records not handed out yet: those of the input from the position on.
    pub closed spec fn pending(&self) -> Seq<Seq<Seq<u8>>> {
        if self.finished {
            seq![]
        } else {
            csv_finish(csv_run(self.bytes@, self.pos as int, fresh_scan(), byte_marks()))
        }
    }

    /// The reader's bookkeeping is consistent.
    pub closed spec fn wf(&self) -> bool {
        &&& self.pos <= self.bytes@.len()
        &&& self.finished ==> self.pos == self.bytes@.len()
    }

    /// A reader at the start of `bytes`.
    pub fn new(bytes: Vec<u8>) -> (r: CsvRecords)
        ensures
            r.wf(),
            r.text() == bytes@,
            r.position() == 0,
            r.pending() == csv_table(bytes@, byte_marks()),
    {
        CsvRecords { bytes, pos: 0, finished: false }
    }

    /// Pull the next raw byte.
    fn next_byte(&mut self) -> (r: Option<u8>)
        ensures
            final(self).bytes@ == old(self).bytes@,
            final(self).finished == old(self).finished,
            old(self).pos < old(self).bytes@.len() ==> r == Some(old(self).bytes@[old(self).pos as int])
                && final(self).pos == old(self).pos + 1,
            old(self).pos >= old(self).bytes@.len() ==> r is None && final(self).pos == old(self).pos,
    {
        if self.pos < self.bytes.len() {
            let b = self.bytes[self.pos];
            self.pos = self.pos + 1;
            Some(b)
        } else {
            None
        }
    }

    /// Look at the next byte without consuming it.
    fn peek_byte(&self) -> (r: Option<u8>)
        ensures
            self.pos < self.bytes@.len() ==> r == Some(self.bytes@[self.pos as int]),
            self.pos >= self.bytes@.len() ==> r is None,
    {
        if self.pos < self.bytes.len() {
            Some(self.bytes[self.pos])
        } else {
            None
        }
    }

    /// Decode an accumulated field's bytes into a String.
    pub fn field_to_string(bytes: Vec<u8>) -> (r: Result<String, AppError>)
        ensures
            match r {
                Ok(text) => valid_utf8(bytes@) && text@ == decode_utf8(bytes@),
                Err(AppError::Bson(m)) => !valid_utf8(bytes@)
                    && m@ == "Import file is not valid UTF-8: "@ + utf8_error_text(bytes@),
                Err(_) => false,
            },
    {
        match utf8_to_string(bytes) {
            Ok(text) => Ok(text),
            Err(detail) => {
                let mut message = "Import file is not valid UTF-8: ".to_owned();
                push_str(&mut message, detail.as_str());
                Err(AppError::Bson(message))
            },
        }
    }

    /// Read the next record, or `None` at end of input. A record ends at an unquoted
    /// newline or at the end; a trailing newline does not produce a phantom empty
    /// record. Each field is decoded from UTF-8 where it ends; a field that does not
    /// decode is reported there, and the next call reads on just after it.
    pub fn next_record(&mut self) -> (r: Result<Option<Vec<String>>, AppError>)
        requires
            old(self).wf(),
        ensures
            final(self).wf(),
            final(self).text() == old(self).text(),
            final(self).pending() == (if final(self).position() < final(self).text().len() {
                csv_finish(csv_run(final(self).text(), final(self).position(), fresh_scan(), byte_marks()))
            } else {
                Seq::<Seq<Seq<u8>>>::empty()
            }),
            old(self).pending().len() == 0 ==> (r matches Ok(None) && final(self).pending().len() == 0),
            old(self).pending().len() > 0 ==> match r {
                Ok(Some(v)) => record_result(old(self).pending()[0], Ok(v))
                    && final(self).pending() == old(self).pending().drop_first(),
                Err(e) => record_result(old(self).pending()[0], Err(e))
                    && resume_after_bad_field(old(self).text(), old(self).position(), fresh_scan())
                        == Some(final(self).position()),
                Ok(None) => false,
            },
    {
        if self.finished {
            return Ok(None);
        }
        let ghost m = byte_marks();
        let ghost s = self.bytes@;
        let ghost start = self.pending();
        let ghost p0 = self.pos as int;
        let ghost resume = resume_after_bad_field(s, p0, fresh_scan());
        let mut out: Vec<String> = Vec::new();
        let ghost mut rec: Seq<Seq<u8>> = seq![];
        let mut field: Vec<u8> = Vec::new();
        let mut in_quotes = false;
        proof {
            assert(field@ =~= Seq::<u8>::empty());
            assert(views(out@) =~= Seq::<Seq<char>>::empty());
        }
        loop
            invariant
                self.bytes@ == s,
                s == old(self).bytes@,
                start == old(self).pending(),
                p0 == old(self).pos,
                !self.finished,
                p0 <= self.pos <= s.len(),
                m == byte_marks(),
                out@.len() == rec.len(),
                decode_fields(rec) == Ok::<Seq<Seq<char>>, Seq<char>>(views(out@)),
                start == csv_finish(csv_run(s, self.pos as int, CsvScan {
                    rows: seq![],
                    record: rec,
                    field: field@,
                    in_quotes,
                }, m)),
                resume == resume_after_bad_field(s, p0, fresh_scan()),
                resume == resume_after_bad_field(s, self.pos as int, CsvScan {
                    rows: seq![],
                    record: rec,
                    field: field@,
                    in_quotes,
                }),
            decreases s.len() - self.pos,
        {
            let ghost p = self.pos as int;
            let ghost st = CsvScan { rows: seq![], record: rec, field: field@, in_quotes };
            let byte = match self.next_byte() {
                Some(b) => b,
                None => {
                    self.finished = true;
                    if field.len() > 0 || out.len() > 0 {
                        let ghost f = field@;
                        assert(start =~= seq![rec.push(f)]);
                        proof {
                            lemma_decode_push(rec, f);
                        }
                        return match Self::field_to_string(field) {
                            Ok(text) => {
                                let ghost before = views(out@);
                                out.push(text);
                                assert(views(out@) =~= before.push(text@));
                                Ok(Some(out))
                            },
                            Err(e) => Err(e),
                        };
                    }
                    assert(start =~= Seq::<Seq<Seq<u8>>>::empty());
                    return Ok(None);
                },
            };
            assert(byte == s[p]);
            if in_quotes {
                if byte == 34u8 {
                    match self.peek_byte() {
                        Some(34u8) => {
                            let _ = self.next_byte();
                            field.push(34u8);
                        },
                        _ => {
                            in_quotes = false;
                        },
                    }
                } else {
                    field.push(byte);
                }
            } else {
                if byte == 34u8 {
                    in_quotes = true;
                } else if byte == 44u8 {
                    let mut done_field: Vec<u8> = Vec::new();
                    std::mem::swap(&mut done_field, &mut field);
                    let ghost f = done_field@;
                    proof {
                        lemma_decode_push(rec, f);
                    }
                    match Self::field_to_string(done_field) {
                        Ok(text) => {
                            let ghost before = views(out@);
                            out.push(text);
                            assert(views(out@) =~= before.push(text@));
                            proof {
                                rec = rec.push(f);
                            }
                        },
                        Err(e) => {
                            proof {
                                let st2 = CsvScan { rows: Seq::<Seq<Seq<u8>>>::empty(), record: rec.push(f), field: Seq::<u8>::empty(), in_quotes: false };
                                lemma_first_row_prefix(s, p + 1, st2);
                                let r0 = start[0];
                                assert(r0 =~= rec.push(f) + r0.skip(rec.len() as int + 1));
                                lemma_decode_prefix_err(rec.push(f), r0.skip(rec.len() as int + 1));
                            }
                            return Err(e);
                        },
                    }
                } else if byte == 10u8 {
                    let mut done_field: Vec<u8> = Vec::new();
                    std::mem::swap(&mut done_field, &mut field);
                    let ghost f = done_field@;
                    let ghost row = rec.push(f);
                    proof {
                        lemma_decode_push(rec, f);
                        lemma_rows_frame(s, p + 1, CsvScan { rows: seq![row], record: seq![], field: seq![], in_quotes: false }, m);
                        let rest = csv_run(s, p + 1, fresh_scan(), m);
                        assert(CsvScan { rows: Seq::<Seq<Seq<u8>>>::empty(), record: Seq::<Seq<u8>>::empty(), field: Seq::<u8>::empty(), in_quotes: false } == fresh_scan::<u8>());
                        assert(start == csv_finish(CsvScan { rows: seq![row] + rest.rows, ..rest }));
                        assert(start =~= seq![row] + csv_finish(rest));
                        assert(start.drop_first() =~= csv_finish(rest));
                    }
                    return match Self::field_to_string(done_field) {
                        Ok(text) => {
                            let ghost before = views(out@);
                            out.push(text);
                            assert(views(out@) =~= before.push(text@));
                            Ok(Some(out))
                        },
                        Err(e) => Err(e),
                    };
                } else if byte == 13u8 {
                } else {
                    field.push(byte);
                }
            }
        }
    }
}

}
