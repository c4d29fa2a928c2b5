use ozendb::commands::csv::{csv_escape, parse_csv_rows, CsvRecords};
use ozendb::commands::import::{
    coerce_csv_value, csv_row_is_blank, csv_row_to_document, CsvImport, IMPORT_BATCH_SIZE,
};
use ozendb::error::AppError;
use ozendb::kv::StrMap;
use ozendb::commands::import::Cell;

// Run the streaming importer over `input`, returning the total and the list of batches
// (so a test can inspect batch sizes and per-document content).
fn collect_import(
    input: &[u8],
    batch_size: usize,
) -> Result<(usize, Vec<Vec<StrMap<Cell>>>), AppError> {
    let mut import = CsvImport::new(input.to_vec(), batch_size);
    let mut batches: Vec<Vec<StrMap<Cell>>> = Vec::new();
    let mut total = 0;
    loop {
        match import.next_batch() {
            Ok(Some(batch)) => {
                total += batch.len();
                batches.push(batch);
            }
            Ok(None) => break,
            Err(e) => return Err(e),
        }
    }
    Ok((total, batches))
}

fn strings(items: &[&str]) -> Vec<String> {
    items.iter().map(|s| s.to_string()).collect()
}

#[test]
fn import_csv_coerces_cells_like_the_old_reader() {
    let (total, batches) = collect_import(b"a,b\n1,x\ntrue,\n", IMPORT_BATCH_SIZE).unwrap();
    assert_eq!(total, 2);
    let docs = &batches[0];
    assert!(matches!(docs[0].get("a"), Some(Cell::Int64(1))));
    match docs[0].get("b") {
        Some(Cell::Text(value)) => assert_eq!(value, "x"),
        _ => panic!("expected a string"),
    }
    assert!(matches!(docs[1].get("a"), Some(Cell::Bool(true))));
    // An empty trailing cell coerces to null, matching `coerce_csv_value`.
    assert!(matches!(docs[1].get("b"), Some(Cell::Null)));
}

#[test]
fn import_csv_handles_quoted_embedded_newline() {
    // A quoted field containing a newline must stay one field / one row — proving the
    // streaming reader does not naively split on '\n'.
    let (total, batches) =
        collect_import(b"name,note\n\"a\",\"line1\nline2\"\n", IMPORT_BATCH_SIZE).unwrap();
    assert_eq!(total, 1);
    match batches[0][0].get("note") {
        Some(Cell::Text(value)) => assert_eq!(value, "line1\nline2"),
        _ => panic!("expected a string"),
    }
}

#[test]
fn import_csv_skips_blank_trailing_rows() {
    // A doubled final newline leaves a blank row that must be skipped, not imported.
    let (total, _batches) = collect_import(b"a\n1\n\n", IMPORT_BATCH_SIZE).unwrap();
    assert_eq!(total, 1);
}

#[test]
fn import_empty_csv_yields_no_documents() {
    let (total, batches) = collect_import(b"", IMPORT_BATCH_SIZE).unwrap();
    assert_eq!(total, 0);
    assert!(batches.is_empty());
}

#[test]
fn import_csv_flushes_multiple_batches_across_the_boundary() {
    let mut csv = String::from("n\n");
    for i in 0..1001 {
        csv.push_str(&format!("{i}\n"));
    }
    let (total, batches) = collect_import(csv.as_bytes(), IMPORT_BATCH_SIZE).unwrap();
    assert_eq!(total, 1001);
    assert_eq!(batches.len(), 2);
    assert_eq!(batches[0].len(), IMPORT_BATCH_SIZE);
    assert_eq!(batches[1].len(), 1);
}

#[test]
fn import_batches_are_exact_multiples_then_nothing() {
    let (total, batches) = collect_import(b"n\n1\n2\n3\n4\n", 2).unwrap();
    assert_eq!(total, 4);
    assert_eq!(batches.len(), 2);
    assert!(batches.iter().all(|b| b.len() == 2));
}

#[test]
fn import_batch_size_zero_hands_out_single_documents() {
    let (total, batches) = collect_import(b"n\n1\n2\n", 0).unwrap();
    assert_eq!(total, 2);
    assert_eq!(batches.len(), 2);
}

#[test]
fn import_invalid_utf8_stops_with_an_error() {
    let result = collect_import(b"a\n\xff\xfe\n", IMPORT_BATCH_SIZE);
    match result {
        Err(AppError::Bson(message)) => {
            assert!(message.starts_with("Import file is not valid UTF-8: "))
        }
        _ => panic!("expected a decoding error"),
    }
}

#[test]
fn import_keeps_full_batches_before_an_error() {
    let mut import = CsvImport::new(b"n\n1\n2\n\xff\n".to_vec(), 2);
    match import.next_batch() {
        Ok(Some(batch)) => assert_eq!(batch.len(), 2),
        _ => panic!("expected a full batch"),
    }
    assert!(matches!(import.next_batch(), Err(AppError::Bson(_))));
    assert!(matches!(import.next_batch(), Ok(None)));
}

#[test]
fn coerce_recognises_each_kind_of_cell() {
    assert!(matches!(coerce_csv_value(""), Cell::Null));
    assert!(matches!(coerce_csv_value("  \t"), Cell::Null));
    assert!(matches!(coerce_csv_value(" true "), Cell::Bool(true)));
    assert!(matches!(coerce_csv_value("false"), Cell::Bool(false)));
    assert!(matches!(coerce_csv_value("True"), Cell::Text(_)));
    assert!(matches!(coerce_csv_value("-42"), Cell::Int64(-42)));
    assert!(matches!(coerce_csv_value("+7"), Cell::Int64(7)));
    assert!(matches!(coerce_csv_value("9223372036854775807"), Cell::Int64(i64::MAX)));
    match coerce_csv_value("9223372036854775808") {
        Cell::Double(text) => assert_eq!(text, "9223372036854775808"),
        _ => panic!("an out-of-range integer is a double"),
    }
    match coerce_csv_value(" 1.5e3 ") {
        Cell::Double(text) => assert_eq!(text, "1.5e3"),
        _ => panic!("expected a double"),
    }
    assert!(matches!(coerce_csv_value(".5"), Cell::Double(_)));
    assert!(matches!(coerce_csv_value("5."), Cell::Double(_)));
    assert!(matches!(coerce_csv_value("-inf"), Cell::Double(_)));
    assert!(matches!(coerce_csv_value("NaN"), Cell::Double(_)));
    assert!(matches!(coerce_csv_value("Infinity"), Cell::Double(_)));
    match coerce_csv_value(" 1.2.3 ") {
        Cell::Text(text) => assert_eq!(text, " 1.2.3 "),
        _ => panic!("text stays as written"),
    }
    assert!(matches!(coerce_csv_value("1e"), Cell::Text(_)));
    assert!(matches!(coerce_csv_value("."), Cell::Text(_)));
    assert!(matches!(coerce_csv_value("e5"), Cell::Text(_)));
    assert!(matches!(coerce_csv_value("infinit"), Cell::Text(_)));
}

#[test]
fn float_texts_agree_with_std() {
    for text in [
        "1", "1.", ".1", "1.5", "1e5", "1E+5", "1e-5", "-2.5E10", "+.5", "inf", "-INF",
        "infinity", "nAn", "1.2.3", "1e", "e1", ".", "+", "", "1e+", "--1", "1_000", "0x10",
        " 1", "1 ", "in", "nan1",
    ] {
        let ours = match coerce_csv_value(text) {
            Cell::Double(_) | Cell::Int64(_) => true,
            _ => false,
        };
        let trimmed = text.trim();
        let std_accepts = !trimmed.is_empty() && trimmed.parse::<f64>().is_ok();
        assert_eq!(ours, std_accepts, "{text:?}");
    }
}

#[test]
fn blank_rows_are_all_empty() {
    assert!(csv_row_is_blank(&strings(&["", ""])));
    assert!(csv_row_is_blank(&strings(&[])));
    assert!(!csv_row_is_blank(&strings(&["", " "])));
}

#[test]
fn row_to_document_pads_short_rows_and_keeps_first_place_of_repeated_headers() {
    let doc = csv_row_to_document(&strings(&["a", "b", "a", "c"]), &strings(&["1", "x", "2"]));
    let keys: Vec<String> = doc.entries().iter().map(|(k, _)| k.clone()).collect();
    assert_eq!(keys, strings(&["a", "b", "c"]));
    assert!(matches!(doc.get("a"), Some(Cell::Int64(2))));
    assert!(matches!(doc.get("c"), Some(Cell::Null)));
}

#[test]
fn streaming_records_match_the_whole_text_reader() {
    let text = "h1,h2\r\n\"a,1\",\"say \"\"hi\"\"\"\n\nlast,";
    let mut records = CsvRecords::new(text.as_bytes().to_vec());
    let mut streamed: Vec<Vec<String>> = Vec::new();
    while let Some(record) = records.next_record().unwrap() {
        streamed.push(record);
    }
    assert_eq!(streamed, parse_csv_rows(text));
    assert_eq!(
        streamed,
        vec![
            strings(&["h1", "h2"]),
            strings(&["a,1", "say \"hi\""]),
            strings(&[""]),
            strings(&["last", ""]),
        ]
    );
}

#[test]
fn escaped_fields_read_back_unchanged() {
    let fields = strings(&["plain", "a,b", "say \"hi\"", "two\nlines", ""]);
    let line: Vec<String> = fields.iter().map(|f| csv_escape(f)).collect();
    let text = format!("{}\n", line.join(","));
    assert_eq!(parse_csv_rows(&text), vec![fields]);
}

#[test]
fn escape_quotes_only_when_needed() {
    assert_eq!(csv_escape("plain"), "plain");
    assert_eq!(csv_escape("a,b"), "\"a,b\"");
    assert_eq!(csv_escape("say \"hi\""), "\"say \"\"hi\"\"\"");
    assert_eq!(csv_escape("cr\r"), "\"cr\r\"");
}

fn streamed(text: &str) -> Vec<Vec<String>> {
    let mut records = CsvRecords::new(text.as_bytes().to_vec());
    let mut out = Vec::new();
    while let Some(record) = records.next_record().unwrap() {
        out.push(record);
    }
    out
}

#[test]
fn the_streaming_reader_reads_utf8_text_as_the_whole_text_reader_does() {
    for text in [
        "name,city\nZoë,Zürich\n\"a \"\"quoted\"\" é\",\"line\nbreak\"\r\n",
        "€,日本語\n🎉",
        "x,\"\"\n\n,\n",
        "",
    ] {
        assert_eq!(streamed(text), parse_csv_rows(text));
    }
}

#[test]
fn an_escaped_line_streams_back() {
    let fields = vec!["plain".to_string(), "a,b".to_string(), "say \"hé\"".to_string(), "two\nlines\r".to_string(), String::new()];
    let line = fields.iter().map(|f| csv_escape(f)).collect::<Vec<_>>().join(",") + "\n";
    assert_eq!(streamed(&line), vec![fields]);
}

#[test]
fn a_field_that_is_not_utf8_is_reported_and_reading_goes_on_after_it() {
    let mut bytes = b"a,".to_vec();
    bytes.push(0xff);
    bytes.extend_from_slice(b",b\nc\n");
    let mut records = CsvRecords::new(bytes);
    match records.next_record() {
        Err(AppError::Bson(m)) => assert!(m.starts_with("Import file is not valid UTF-8: ")),
        other => panic!("expected a decoding error, got {other:?}"),
    }
    assert_eq!(records.next_record().unwrap(), Some(strings(&["b"])));
    assert_eq!(records.next_record().unwrap(), Some(strings(&["c"])));
    assert_eq!(records.next_record().unwrap(), None);

    let mut last = b"x,".to_vec();
    last.push(0xfe);
    let mut records = CsvRecords::new(last);
    assert!(records.next_record().is_err());
    assert_eq!(records.next_record().unwrap(), None);
}
