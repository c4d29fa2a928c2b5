//! Reading the UTF-8 bytes of a text as CSV gives, field for field, what reading the
//! text's characters gives: the structural characters are single ASCII bytes, and
//! every byte of a longer encoding is at least 0x80, so it is never one of them.

use vstd::prelude::*;
use vstd::utf8::{encode_utf8, encode_scalar, decode_utf8, valid_utf8, encode_utf8_valid_utf8, encode_utf8_decode_utf8, char_u32_cast};
use crate::commands::csv::{CsvScan, csv_run, csv_finish, csv_table, char_marks, byte_marks, fresh_scan, decode_fields, csv_line, law_escaped_line_reads_back, lemma_run_skip};

verus! {

/// Fields by their UTF-8 bytes.
pub open spec fn encoded_fields(fs: Seq<Seq<char>>) -> Seq<Seq<u8>> {
    fs.map_values(|f: Seq<char>| encode_utf8(f))
}

/// Rows by their fields' UTF-8 bytes.
pub open spec fn encoded_rows(rs: Seq<Seq<Seq<char>>>) -> Seq<Seq<Seq<u8>>> {
    rs.map_values(|r: Seq<Seq<char>>| encoded_fields(r))
}

/// A reading state over characters as the same state over bytes.
pub open spec fn encoded_scan(st: CsvScan<char>) -> CsvScan<u8> {
    CsvScan {
        rows: encoded_rows(st.rows),
        record: encoded_fields(st.record),
        field: encode_utf8(st.field),
        in_quotes: st.in_quotes,
    }
}

/// Encoding a text with one more character appends that character's encoding.
proof fn lemma_encode_push(a: Seq<char>, c: char)
    ensures
        encode_utf8(a.push(c)) == encode_utf8(a) + encode_scalar(c as u32),
    decreases a.len(),
{
    if a.len() == 0 {
        assert(a.push(c).drop_first() =~= Seq::<char>::empty());
        assert(encode_utf8(Seq::<char>::empty()) =~= Seq::<u8>::empty());
        assert(encode_scalar(c as u32) + Seq::<u8>::empty() =~= encode_scalar(c as u32));
        assert(Seq::<u8>::empty() + encode_scalar(c as u32) =~= encode_scalar(c as u32));
    } else {
        assert(a.push(c).drop_first() =~= a.drop_first().push(c));
        lemma_encode_push(a.drop_first(), c);
        assert(a.push(c)[0] == a[0]);
        assert(encode_scalar(a[0] as u32) + (encode_utf8(a.drop_first()) + encode_scalar(c as u32))
            =~= (encode_scalar(a[0] as u32) + encode_utf8(a.drop_first())) + encode_scalar(c as u32));
    }
}

/// A character's encoding: an ASCII character is its own single byte; any other
/// character's bytes are all at least 0x80.
proof fn lemma_scalar_bytes(c: char)
    ensures
        encode_scalar(c as u32).len() >= 1,
        (c as u32) < 0x80 ==> encode_scalar(c as u32) == seq![(c as u32) as u8],
        (c as u32) >= 0x80 ==> forall|k: int| 0 <= k < encode_scalar(c as u32).len() ==> #[trigger] encode_scalar(c as u32)[k] >= 0x80,
{
    let v = c as u32;
    if v < 0x80 {
        assert((v & 0x7F) as u8 == v as u8) by (bit_vector)
            requires v < 0x80;
    } else if v <= 0x7FF {
        assert((0xC0 | ((v >> 6) & 0x1F) as u8) >= 0x80u8 && (0x80 | (v & 0x3F) as u8) >= 0x80u8) by (bit_vector);
    } else if v <= 0xFFFF && !(0xD800 <= v <= 0xDFFF) {
        assert((0xE0 | ((v >> 12) & 0x0F) as u8) >= 0x80u8 && (0x80 | ((v >> 6) & 0x3F) as u8) >= 0x80u8
            && (0x80 | (v & 0x3F) as u8) >= 0x80u8) by (bit_vector);
    } else {
        assert((0xF0 | ((v >> 18) & 0x7) as u8) >= 0x80u8 && (0x80 | ((v >> 12) & 0x3F) as u8) >= 0x80u8
            && (0x80 | ((v >> 6) & 0x3F) as u8) >= 0x80u8 && (0x80 | (v & 0x3F) as u8) >= 0x80u8) by (bit_vector);
    }
}

/// Only the empty text encodes to no bytes.
proof fn lemma_encode_empty(a: Seq<char>)
    ensures
        (encode_utf8(a).len() == 0) == (a.len() == 0),
{
    if a.len() > 0 {
        lemma_scalar_bytes(a[0]);
    }
}

/// Two ASCII characters are equal exactly when their bytes are.
proof fn lemma_ascii_same(c: char, m: char)
    requires
        (c as u32) < 0x80,
        (m as u32) < 0x80,
    ensures
        (((c as u32) as u8) == ((m as u32) as u8)) == (c == m),
{
    if ((c as u32) as u8) == ((m as u32) as u8) {
        assert(c as u32 == m as u32);
        char_u32_cast(c, c as u32);
        char_u32_cast(m, m as u32);
    }
}

/// Bytes of at least 0x80 are field content, inside quotes or not.
proof fn lemma_plain_bytes(s: Seq<u8>, i: int, j: int, st: CsvScan<u8>)
    requires
        0 <= i <= j <= s.len(),
        forall|t: int| i <= t < j ==> #[trigger] s[t] >= 0x80,
    ensures
        csv_run(s, i, st, byte_marks()) == csv_run(s, j, CsvScan { field: st.field + s.subrange(i, j), ..st }, byte_marks()),
    decreases j - i,
{
    if i < j {
        let c = s[i];
        assert(c >= 0x80);
        let st2 = CsvScan { field: st.field.push(c), ..st };
        lemma_plain_bytes(s, i + 1, j, st2);
        assert(st2.field + s.subrange(i + 1, j) =~= st.field + s.subrange(i, j));
    } else {
        assert(st.field + s.subrange(i, j) =~= st.field);
    }
}

/// Reading a text's bytes from any state is reading its characters from the same
/// state, encoded.
proof fn lemma_run_encoded(cs: Seq<char>, st: CsvScan<char>)
    ensures
        csv_run(encode_utf8(cs), 0, encoded_scan(st), byte_marks()) == encoded_scan(csv_run(cs, 0, st, char_marks())),
    decreases cs.len(),
{
    let bm = byte_marks();
    let cm = char_marks();
    let b = encode_utf8(cs);
    let es = encoded_scan(st);
    if cs.len() == 0 {
        assert(b.len() == 0);
    } else {
        let c = cs[0];
        let rest = cs.drop_first();
        let e = encode_scalar(c as u32);
        lemma_scalar_bytes(c);
        assert(b == e + encode_utf8(rest));
        lemma_encode_push(st.field, c);
        if (c as u32) < 0x80 {
            let byte = (c as u32) as u8;
            assert(b[0] == byte);
            assert(b.skip(1) =~= encode_utf8(rest));
            assert(('"' as u32) as u8 == 34u8 && (',' as u32) as u8 == 44u8);
            lemma_ascii_same(c, '"');
            lemma_ascii_same(c, ',');
            lemma_ascii_same(c, '\n');
            lemma_ascii_same(c, '\r');
            assert((byte == 34u8) == (c == '"'));
            assert((byte == 44u8) == (c == ','));
            assert((byte == 10u8) == (c == '\n'));
            assert((byte == 13u8) == (c == '\r'));
            if st.in_quotes && c == '"' {
                let doubled = cs.len() > 1 && cs[1] == '"';
                if cs.len() > 1 {
                    lemma_scalar_bytes(cs[1]);
                    assert(encode_utf8(rest) == encode_scalar(cs[1] as u32) + encode_utf8(rest.drop_first()));
                    assert(b[1] == encode_scalar(cs[1] as u32)[0]);
                    if (cs[1] as u32) < 0x80 {
                        lemma_ascii_same(cs[1], '"');
                        assert((((cs[1] as u32) as u8) == 34u8) == (cs[1] == '"'));
                    }
                } else {
                    assert(b.len() == 1);
                }
                assert((b.len() > 1 && b[1] == 34u8) == doubled);
                if doubled {
                    let st2 = CsvScan { field: st.field.push('"'), ..st };
                    assert(encoded_scan(st2) == CsvScan { field: es.field.push(34u8), ..es }) by {
                        assert(encode_scalar('"' as u32) =~= seq![34u8]);
                        assert(es.field + seq![34u8] =~= es.field.push(34u8));
                    }
                    assert(encode_scalar(cs[1] as u32) =~= seq![34u8]);
                    assert(b.skip(2) =~= encode_utf8(cs.skip(2))) by {
                        assert(rest.drop_first() =~= cs.skip(2));
                    }
                    lemma_run_skip(b, 2, encoded_scan(st2), bm);
                    lemma_run_skip(cs, 2, st2, cm);
                    lemma_run_encoded(cs.skip(2), st2);
                } else {
                    let st2 = CsvScan { in_quotes: false, ..st };
                    assert(encoded_scan(st2) == CsvScan { in_quotes: false, ..es });
                    lemma_run_skip(b, 1, encoded_scan(st2), bm);
                    lemma_run_skip(cs, 1, st2, cm);
                    assert(cs.skip(1) =~= rest);
                    lemma_run_encoded(rest, st2);
                }
            } else {
                let st2 = if st.in_quotes {
                    CsvScan { field: st.field.push(c), ..st }
                } else if c == '"' {
                    CsvScan { in_quotes: true, ..st }
                } else if c == ',' {
                    CsvScan { record: st.record.push(st.field), field: seq![], ..st }
                } else if c == '\n' {
                    CsvScan { rows: st.rows.push(st.record.push(st.field)), record: seq![], field: seq![], ..st }
                } else if c == '\r' {
                    st
                } else {
                    CsvScan { field: st.field.push(c), ..st }
                };
                let bs2 = if es.in_quotes {
                    CsvScan { field: es.field.push(byte), ..es }
                } else if byte == 34u8 {
                    CsvScan { in_quotes: true, ..es }
                } else if byte == 44u8 {
                    CsvScan { record: es.record.push(es.field), field: seq![], ..es }
                } else if byte == 10u8 {
                    CsvScan { rows: es.rows.push(es.record.push(es.field)), record: seq![], field: seq![], ..es }
                } else if byte == 13u8 {
                    es
                } else {
                    CsvScan { field: es.field.push(byte), ..es }
                };
                assert(csv_run(b, 0, es, bm) == csv_run(b, 1, bs2, bm));
                assert(csv_run(cs, 0, st, cm) == csv_run(cs, 1, st2, cm));
                assert(encoded_scan(st2) == bs2) by {
                    assert(e =~= seq![byte]);
                    assert(es.field + seq![byte] =~= es.field.push(byte));
                    assert(encoded_fields(st.record.push(st.field)) =~= es.record.push(es.field));
                    assert(encode_utf8(Seq::<char>::empty()) =~= Seq::<u8>::empty());
                    assert(encoded_fields(Seq::<Seq<char>>::empty()) =~= Seq::<Seq<u8>>::empty());
                    assert(encoded_rows(st.rows.push(st.record.push(st.field))) =~= es.rows.push(es.record.push(es.field)));
                }
                lemma_run_skip(b, 1, bs2, bm);
                lemma_run_skip(cs, 1, st2, cm);
                assert(cs.skip(1) =~= rest);
                lemma_run_encoded(rest, st2);
            }
        } else {
            assert(c != '"' && c != ',' && c != '\n' && c != '\r');
            let k = e.len() as int;
            assert forall|t: int| 0 <= t < k implies #[trigger] b[t] >= 0x80 by {
                assert(b[t] == e[t]);
            }
            lemma_plain_bytes(b, 0, k, es);
            assert(b.subrange(0, k) =~= e);
            let st2 = CsvScan { field: st.field.push(c), ..st };
            assert(encoded_scan(st2) == CsvScan { field: es.field + b.subrange(0, k), ..es });
            assert(csv_run(cs, 0, st, cm) == csv_run(cs, 1, st2, cm));
            assert(b.skip(k) =~= encode_utf8(rest));
            lemma_run_skip(b, k, encoded_scan(st2), bm);
            lemma_run_skip(cs, 1, st2, cm);
            assert(cs.skip(1) =~= rest);
            lemma_run_encoded(rest, st2);
        }
    }
}

/// The records of a text's bytes are the text's records, encoded.
proof fn lemma_table_encoded(cs: Seq<char>)
    ensures
        csv_table(encode_utf8(cs), byte_marks()) == encoded_rows(csv_table(cs, char_marks())),
{
    let st = fresh_scan::<char>();
    assert(encoded_scan(st) == fresh_scan::<u8>()) by {
        assert(encoded_rows(st.rows) =~= Seq::<Seq<Seq<u8>>>::empty());
        assert(encoded_fields(st.record) =~= Seq::<Seq<u8>>::empty());
        assert(encode_utf8(st.field) =~= Seq::<u8>::empty());
    }
    lemma_run_encoded(cs, st);
    let end = csv_run(cs, 0, st, char_marks());
    let eend = encoded_scan(end);
    lemma_encode_empty(end.field);
    assert(encoded_fields(end.record).len() == end.record.len());
    if end.field.len() > 0 || end.record.len() > 0 {
        assert(encoded_fields(end.record.push(end.field)) =~= eend.record.push(eend.field));
        assert(encoded_rows(end.rows.push(end.record.push(end.field))) =~= eend.rows.push(eend.record.push(eend.field)));
    }
}

/// Encoded fields decode back to themselves.
proof fn lemma_decode_encoded(fs: Seq<Seq<char>>)
    ensures
        decode_fields(encoded_fields(fs)) == Ok::<Seq<Seq<char>>, Seq<char>>(fs),
    decreases fs.len(),
{
    if fs.len() > 0 {
        let e = encoded_fields(fs);
        encode_utf8_valid_utf8(fs[0]);
        encode_utf8_decode_utf8(fs[0]);
        assert(e[0] == encode_utf8(fs[0]));
        assert(e.drop_first() =~= encoded_fields(fs.drop_first()));
        lemma_decode_encoded(fs.drop_first());
        assert(valid_utf8(e[0]));
        assert(decode_utf8(e[0]) == fs[0]);
        assert(decode_fields(e.drop_first()) == Ok::<Seq<Seq<char>>, Seq<char>>(fs.drop_first()));
        assert(seq![fs[0]] + fs.drop_first() =~= fs);
        assert(decode_fields(e) == Ok::<Seq<Seq<char>>, Seq<char>>(seq![decode_utf8(e[0])] + fs.drop_first()));
    } else {
        assert(encoded_fields(fs) =~= Seq::<Seq<u8>>::empty());
        assert(fs =~= Seq::<Seq<char>>::empty());
        assert(decode_fields(Seq::<Seq<u8>>::empty()) == Ok::<Seq<Seq<char>>, Seq<char>>(seq![]));
    }
}

/// Reading the UTF-8 bytes of a text record by record (as `CsvRecords` does, decoding
/// each field at its end) gives the same records, fields and order as reading the text
/// whole (`parse_csv_rows`): quoting, doubled quotes, embedded newlines and dropped
/// carriage returns alike, and no field fails to decode.
pub proof fn law_bytes_read_as_text(text: Seq<char>)
    ensures
        csv_table(encode_utf8(text), byte_marks()).len() == csv_table(text, char_marks()).len(),
        forall|i: int| 0 <= i < csv_table(text, char_marks()).len() ==>
            decode_fields(#[trigger] csv_table(encode_utf8(text), byte_marks())[i])
                == Ok::<Seq<Seq<char>>, Seq<char>>(csv_table(text, char_marks())[i]),
{
    lemma_table_encoded(text);
    let rows = csv_table(text, char_marks());
    assert forall|i: int| 0 <= i < rows.len() implies
        decode_fields(#[trigger] csv_table(encode_utf8(text), byte_marks())[i]) == Ok::<Seq<Seq<char>>, Seq<char>>(rows[i]) by {
        assert(csv_table(encode_utf8(text), byte_marks())[i] == encoded_fields(rows[i]));
        lemma_decode_encoded(rows[i]);
    }
}

/// Reading back the UTF-8 bytes of one written line gives one record, which decodes
/// to exactly the fields that were written.
pub proof fn law_escaped_line_streams_back(fields: Seq<Seq<char>>)
    requires
        fields.len() > 0,
    ensures
        csv_table(encode_utf8(csv_line(fields)), byte_marks()).len() == 1,
        decode_fields(csv_table(encode_utf8(csv_line(fields)), byte_marks())[0])
            == Ok::<Seq<Seq<char>>, Seq<char>>(fields),
{
    law_escaped_line_reads_back(fields);
    law_bytes_read_as_text(csv_line(fields));
    assert(csv_table(csv_line(fields), char_marks())[0] == fields);
}

}
