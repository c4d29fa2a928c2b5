//! SQL migration: inferring a relational column type for each field of sampled
//! documents, and writing the CREATE TABLE + INSERT script.

use vstd::prelude::*;
use crate::text::{views, join_with, push_char, push_str, chars_of, decimal_text, decimal_string, str_eq};
use crate::value::{Value, ValueView, Document, fields_view, field_value, get_field, json_text, to_json};
use crate::kv::StrMap;
use crate::commands::export::{header_union, docs_fields, csv_collect_headers};

verus! {

/// One inferred relational column.
pub struct Column {
    pub name: String,
    pub sql_type: String,
}

/// The SQL type for a single value. Nested documents and arrays are stored as JSON
/// text, which keeps the migration lossless without extra tables.
pub open spec fn sql_type_of(v: ValueView) -> Seq<char> {
    match v {
        ValueView::Text(_) => "TEXT"@,
        ValueView::Int32(_) => "INTEGER"@,
        ValueView::Int64(_) => "BIGINT"@,
        ValueView::Double { .. } => "DOUBLE PRECISION"@,
        ValueView::Bool(_) => "BOOLEAN"@,
        ValueView::DateTime { .. } => "TIMESTAMP"@,
        ValueView::ObjectId(_) => "VARCHAR(24)"@,
        ValueView::Decimal { .. } => "DECIMAL"@,
        _ => "TEXT"@,
    }
}

/// The SQL type for a single value.
fn sql_type_for(value: &Value) -> (r: &'static str)
    ensures
        r@ == sql_type_of(value@),
{
    match value {
        Value::Text(_) => "TEXT",
        Value::Int32(_) => "INTEGER",
        Value::Int64(_) => "BIGINT",
        Value::Double(_) => "DOUBLE PRECISION",
        Value::Bool(_) => "BOOLEAN",
        Value::DateTime(_) => "TIMESTAMP",
        Value::ObjectId(_) => "VARCHAR(24)",
        Value::Decimal(_) => "DECIMAL",
        _ => "TEXT",
    }
}

/// How wide a numeric type is: INTEGER < BIGINT < DOUBLE PRECISION < DECIMAL; other
/// types are not numeric (0).
pub open spec fn rank_of(t: Seq<char>) -> u8 {
    if t == "INTEGER"@ {
        1
    } else if t == "BIGINT"@ {
        2
    } else if t == "DOUBLE PRECISION"@ {
        3
    } else if t == "DECIMAL"@ {
        4
    } else {
        0
    }
}

/// Numeric widening rank so a column that mixes INTEGER and DOUBLE across documents
/// resolves to the widest numeric type instead of collapsing to TEXT. Non-numeric
/// types are rank 0 (not widenable).
pub fn numeric_rank(sql_type: &str) -> (r: u8)
    ensures
        r == rank_of(sql_type@),
{
    if str_eq(sql_type, "INTEGER") {
        1
    } else if str_eq(sql_type, "BIGINT") {
        2
    } else if str_eq(sql_type, "DOUBLE PRECISION") {
        3
    } else if str_eq(sql_type, "DECIMAL") {
        4
    } else {
        0
    }
}

/// The type of a column seen with `existing` and then with `new`: the same type stays,
/// two numeric types widen to the wider, any other disagreement is TEXT.
pub open spec fn unified(existing: Seq<char>, new: Seq<char>) -> Seq<char> {
    if existing == new {
        existing
    } else if rank_of(existing) > 0 && rank_of(new) > 0 {
        if rank_of(existing) >= rank_of(new) { existing } else { new }
    } else {
        "TEXT"@
    }
}

/// Combine the type seen so far with a new observation. Same type stays; two
/// numerics widen to the larger; any other disagreement falls back to TEXT.
pub fn unify(existing: &str, new: &str) -> (r: String)
    ensures
        r@ == unified(existing@, new@),
{
    if str_eq(existing, new) {
        return existing.to_owned();
    }
    let a = numeric_rank(existing);
    let b = numeric_rank(new);
    if a > 0 && b > 0 {
        return if a >= b { existing.to_owned() } else { new.to_owned() };
    }
    "TEXT".to_owned()
}

/// The column types after seeing `value` under `key`: a null says nothing; otherwise
/// the value's type is unified with what was seen before.
pub open spec fn observe(types: Map<Seq<char>, Seq<char>>, key: Seq<char>, value: ValueView) -> Map<Seq<char>, Seq<char>> {
    if value is Null {
        types
    } else if types.contains_key(key) {
        types.insert(key, unified(types[key], sql_type_of(value)))
    } else {
        types.insert(key, sql_type_of(value))
    }
}

/// The column types after seeing the fields of one document in order.
pub open spec fn observe_fields(types: Map<Seq<char>, Seq<char>>, fields: Seq<(Seq<char>, ValueView)>) -> Map<Seq<char>, Seq<char>>
    decreases fields.len(),
{
    if fields.len() == 0 {
        types
    } else {
        observe(observe_fields(types, fields.drop_last()), fields.last().0, fields.last().1)
    }
}

/// The column types after seeing the documents in order.
pub open spec fn observe_docs(docs: Seq<Seq<(Seq<char>, ValueView)>>) -> Map<Seq<char>, Seq<char>>
    decreases docs.len(),
{
    if docs.len() == 0 {
        Map::empty()
    } else {
        observe_fields(observe_docs(docs.drop_last()), docs.last())
    }
}

/// The inferred columns: every field name in first-seen order, each with the type its
/// non-null values unify to, or TEXT when it was only ever null.
pub open spec fn inferred_columns(docs: Seq<Seq<(Seq<char>, ValueView)>>) -> Seq<(Seq<char>, Seq<char>)> {
    let types = observe_docs(docs);
    header_union(docs).map_values(|name: Seq<char>|
        (name, if types.contains_key(name) { types[name] } else { "TEXT"@ }))
}

/// The columns by their texts.
pub open spec fn columns_view(cols: Seq<Column>) -> Seq<(Seq<char>, Seq<char>)> {
    cols.map_values(|c: Column| (c.name@, c.sql_type@))
}

/// Infer columns in first-seen order across the sampled documents. NULLs and absent
/// fields don't drive the type; a field seen only as null becomes TEXT.
pub fn infer_columns(docs: &[Document]) -> (r: Vec<Column>)
    ensures
        columns_view(r@) == inferred_columns(docs_fields(docs@)),
{
    let ghost ds = docs_fields(docs@);
    let mut order: Vec<String> = Vec::new();
    let mut types: StrMap<String> = StrMap::new();
    let mut d: usize = 0;
    assert(ds.take(0) =~= Seq::<Seq<(Seq<char>, ValueView)>>::empty());
    assert(crate::kv::text_map(types.map()) =~= Map::<Seq<char>, Seq<char>>::empty());
    while d < docs.len()
        invariant
            d <= docs@.len(),
            ds == docs_fields(docs@),
            views(order@) == header_union(ds.take(d as int)),
            crate::kv::text_map(types.map()) == observe_docs(ds.take(d as int)),
        decreases docs@.len() - d,
    {
        let doc = &docs[d];
        csv_collect_headers(&mut order, doc);
        let ghost fv = fields_view(doc@);
        let ghost base = observe_docs(ds.take(d as int));
        let mut f: usize = 0;
        assert(fv.take(0) =~= Seq::<(Seq<char>, ValueView)>::empty());
        while f < doc.len()
            invariant
                f <= doc@.len(),
                fv == fields_view(doc@),
                crate::kv::text_map(types.map()) == observe_fields(base, fv.take(f as int)),
            decreases doc@.len() - f,
        {
            let key = &doc[f].0;
            let value = &doc[f].1;
            let ghost before = crate::kv::text_map(types.map());
            assert(fv.take(f as int + 1).drop_last() =~= fv.take(f as int));
            assert(fv.take(f as int + 1).last() == (key@, value@));
            match value {
                Value::Null => {},
                _ => {
                    let observed = sql_type_for(value);
                    let resolved = match types.get(key.as_str()) {
                        Some(prev) => unify(prev.as_str(), observed),
                        None => observed.to_owned(),
                    };
                    let ghost rv = resolved@;
                    types.insert(key.clone(), resolved);
                    assert(crate::kv::text_map(types.map()) =~= before.insert(key@, rv));
                },
            }
            f = f + 1;
        }
        assert(fv.take(doc@.len() as int) =~= fv);
        assert(ds.take(d as int + 1).drop_last() =~= ds.take(d as int));
        assert(ds.take(d as int + 1).last() == fv);
        d = d + 1;
    }
    assert(ds.take(docs@.len() as int) =~= ds);
    let ghost tmap = crate::kv::text_map(types.map());
    let mut cols: Vec<Column> = Vec::new();
    let mut k: usize = 0;
    while k < order.len()
        invariant
            k <= order@.len(),
            tmap == crate::kv::text_map(types.map()),
            tmap == observe_docs(ds),
            views(order@) == header_union(ds),
            columns_view(cols@) == inferred_columns(ds).take(k as int),
        decreases order@.len() - k,
    {
        let name = order[k].clone();
        let sql_type = match types.get(name.as_str()) {
            Some(t) => t.clone(),
            None => "TEXT".to_owned(),
        };
        let ghost entry = (name@, sql_type@);
        let ghost before = columns_view(cols@);
        cols.push(Column { name, sql_type });
        assert(columns_view(cols@) =~= before.push(entry));
        assert(views(order@)[k as int] == order@[k as int]@);
        assert(inferred_columns(ds).take(k as int + 1) =~= inferred_columns(ds).take(k as int).push(entry));
        k = k + 1;
    }
    assert(inferred_columns(ds).take(order@.len() as int) =~= inferred_columns(ds));
    cols
}

/// `s` between `q` characters, with each `q` inside doubled.
pub open spec fn quoted_with(s: Seq<char>, q: char) -> Seq<char> {
    seq![q] + doubled(s, q) + seq![q]
}

/// `s` with each `q` doubled.
pub open spec fn doubled(s: Seq<char>, q: char) -> Seq<char>
    decreases s.len(),
{
    if s.len() == 0 {
        seq![]
    } else {
        doubled(s.drop_last(), q) + (if s.last() == q { seq![q, q] } else { seq![s.last()] })
    }
}

/// `s` between `q` characters, with each `q` inside doubled.
fn quote_with(s: &str, q: char) -> (r: String)
    ensures
        r@ == quoted_with(s@, q),
{
    let cs = chars_of(s);
    let mut out = String::new();
    push_char(&mut out, q);
    let mut i: usize = 0;
    while i < cs.len()
        invariant
            i <= cs@.len(),
            cs@ == s@,
            out@ == seq![q] + doubled(cs@.take(i as int), q),
        decreases cs@.len() - i,
    {
        let c = cs[i];
        assert(cs@.take(i as int + 1).drop_last() =~= cs@.take(i as int));
        let ghost before = out@;
        if c == q {
            push_char(&mut out, q);
            push_char(&mut out, q);
            assert(out@ =~= before + seq![q, q]);
        } else {
            push_char(&mut out, c);
            assert(out@ =~= before + seq![c]);
        }
        i = i + 1;
    }
    assert(cs@.take(cs@.len() as int) =~= cs@);
    push_char(&mut out, q);
    out
}

/// Double-quote a SQL identifier, escaping embedded quotes.
pub fn quote_ident(name: &str) -> (r: String)
    ensures
        r@ == quoted_with(name@, '"'),
{
    quote_with(name, '"')
}

/// Single-quote a SQL string literal, doubling embedded quotes (standard SQL).
pub fn quote_str(value: &str) -> (r: String)
    ensures
        r@ == quoted_with(value@, '\''),
{
    quote_with(value, '\'')
}

/// A value as a SQL literal: NULL, quoted strings, numbers as written (a non-finite
/// double is NULL), TRUE/FALSE, an ObjectId's hex quoted, a date as its quoted RFC 3339
/// text (NULL when it has none), and anything nested as its quoted JSON text.
pub open spec fn sql_literal(v: ValueView) -> Seq<char> {
    match v {
        ValueView::Null => "NULL"@,
        ValueView::Text(s) => quoted_with(s, '\''),
        ValueView::Int32(n) => decimal_text(n as int),
        ValueView::Int64(n) => decimal_text(n as int),
        ValueView::Double { display, finite, .. } => if finite { display } else { "NULL"@ },
        ValueView::Bool(b) => if b { "TRUE"@ } else { "FALSE"@ },
        ValueView::ObjectId(h) => quoted_with(h, '\''),
        ValueView::Decimal { display, .. } => display,
        ValueView::DateTime { rfc3339, .. } => match rfc3339 {
            Some(t) => quoted_with(t, '\''),
            None => "NULL"@,
        },
        _ => quoted_with(json_text(v), '\''),
    }
}

/// The characters a body of an SQL string literal stands for, read left to right: `''`
/// is one `'`, any other character stands for itself, and a lone `'` makes the body
/// invalid (`None`).
pub open spec fn sql_string_body(t: Seq<char>) -> Option<Seq<char>>
    decreases t.len(),
{
    if t.len() == 0 {
        Some(Seq::<char>::empty())
    } else if t[0] == '\'' {
        if t.len() >= 2 && t[1] == '\'' {
            match sql_string_body(t.subrange(2, t.len() as int)) {
                Some(r) => Some(seq!['\''] + r),
                None => None,
            }
        } else {
            None
        }
    } else {
        match sql_string_body(t.subrange(1, t.len() as int)) {
            Some(r) => Some(seq![t[0]] + r),
            None => None,
        }
    }
}

/// The text an SQL single-quoted string literal denotes, or `None` when `lit` is not one.
pub open spec fn sql_string_value(lit: Seq<char>) -> Option<Seq<char>> {
    if lit.len() >= 2 && lit[0] == '\'' && lit[lit.len() - 1] == '\'' {
        sql_string_body(lit.subrange(1, lit.len() - 1))
    } else {
        None
    }
}

/// The text of a value that goes into SQL as a string: a string itself, an ObjectId's
/// hex digits, a date's RFC 3339 text, and a document, an array or another BSON type as
/// its JSON text. `None` for the values that are not text-like (numbers, booleans, null,
/// dates without an RFC 3339 form).
pub open spec fn text_like(v: ValueView) -> Option<Seq<char>> {
    match v {
        ValueView::Text(s) => Some(s),
        ValueView::ObjectId(h) => Some(h),
        ValueView::DateTime { rfc3339, .. } => rfc3339,
        ValueView::Array(_) => Some(json_text(v)),
        ValueView::Document(_) => Some(json_text(v)),
        ValueView::Other { .. } => Some(json_text(v)),
        _ => None,
    }
}

/// Doubling a character's quote, taken from the front.
proof fn lemma_doubled_front(c: char, s: Seq<char>, q: char)
    ensures
        doubled(seq![c] + s, q) == (if c == q { seq![q, q] } else { seq![c] }) + doubled(s, q),
    decreases s.len(),
{
    let head = if c == q { seq![q, q] } else { seq![c] };
    if s.len() == 0 {
        assert((seq![c] + s).drop_last() =~= Seq::<char>::empty());
        assert(doubled(Seq::<char>::empty(), q) == Seq::<char>::empty());
        assert(head + doubled(s, q) =~= head);
        assert(Seq::<char>::empty() + head =~= head);
    } else {
        lemma_doubled_front(c, s.drop_last(), q);
        assert((seq![c] + s).drop_last() =~= seq![c] + s.drop_last());
        assert((seq![c] + s).last() == s.last());
        let tail = if s.last() == q { seq![q, q] } else { seq![s.last()] };
        assert(head + doubled(s.drop_last(), q) + tail =~= head + (doubled(s.drop_last(), q) + tail));
    }
}

/// Reading a body with every `'` doubled gives back the text.
proof fn lemma_body_of_doubled(s: Seq<char>)
    ensures
        sql_string_body(doubled(s, '\'')) == Some(s),
    decreases s.len(),
{
    if s.len() > 0 {
        let rest = s.subrange(1, s.len() as int);
        assert(s =~= seq![s[0]] + rest);
        lemma_doubled_front(s[0], rest, '\'');
        lemma_body_of_doubled(rest);
        let t = doubled(s, '\'');
        if s[0] == '\'' {
            assert(t =~= seq!['\'', '\''] + doubled(rest, '\''));
            assert(t.subrange(2, t.len() as int) =~= doubled(rest, '\''));
            assert(seq!['\''] + rest =~= s);
        } else {
            assert(t =~= seq![s[0]] + doubled(rest, '\''));
            assert(t.subrange(1, t.len() as int) =~= doubled(rest, '\''));
        }
    } else {
        assert(doubled(s, '\'') =~= Seq::<char>::empty());
        assert(s =~= Seq::<char>::empty());
    }
}

/// Every text-like value (string, ObjectId, date, document, array, other type) becomes a
/// single-quoted SQL string literal that denotes exactly its text: it starts and ends
/// with `'`, and its inside, with `''` read as `'`, is the value's text (for a date, its
/// RFC 3339 form).
pub proof fn law_text_values_become_sql_strings(v: ValueView)
    requires
        text_like(v) is Some,
    ensures
        sql_string_value(sql_literal(v)) == text_like(v),
{
    let t = text_like(v)->Some_0;
    assert(sql_literal(v) == quoted_with(t, '\''));
    let lit = quoted_with(t, '\'');
    assert(lit.subrange(1, lit.len() - 1) =~= doubled(t, '\''));
    lemma_body_of_doubled(t);
}

/// Render one value as a SQL literal for an INSERT.
pub fn sql_value(value: &Value) -> (r: String)
    ensures
        r@ == sql_literal(value@),
{
    match value {
        Value::Null => "NULL".to_owned(),
        Value::Text(s) => quote_str(s.as_str()),
        Value::Int32(n) => decimal_string(*n as i64),
        Value::Int64(n) => decimal_string(*n),
        Value::Double(d) => if d.finite { d.display.clone() } else { "NULL".to_owned() },
        Value::Bool(b) => if *b { "TRUE".to_owned() } else { "FALSE".to_owned() },
        Value::ObjectId(h) => quote_str(h.as_str()),
        Value::Decimal(d) => d.display.clone(),
        Value::DateTime(d) => match &d.rfc3339 {
            Some(text) => quote_str(text.as_str()),
            None => "NULL".to_owned(),
        },
        _ => {
            let json = to_json(value);
            quote_str(json.as_str())
        },
    }
}

/// A column's definition line: two spaces, the quoted name, a space, the type.
pub open spec fn column_def(c: (Seq<char>, Seq<char>)) -> Seq<char> {
    "  "@ + quoted_with(c.0, '"') + " "@ + c.1
}

/// The literal of a document's value for a column, NULL when the field is missing.
pub open spec fn cell_literal(doc: Seq<(Seq<char>, ValueView)>, name: Seq<char>) -> Seq<char> {
    match field_value(doc, name) {
        Some(v) => sql_literal(v),
        None => "NULL"@,
    }
}

/// The INSERT statement of one document.
pub open spec fn insert_line(table: Seq<char>, cols: Seq<(Seq<char>, Seq<char>)>, doc: Seq<(Seq<char>, ValueView)>) -> Seq<char> {
    "INSERT INTO "@ + quoted_with(table, '"') + " ("@
        + join_with(cols.map_values(|c: (Seq<char>, Seq<char>)| quoted_with(c.0, '"')), ", "@)
        + ") VALUES ("@
        + join_with(cols.map_values(|c: (Seq<char>, Seq<char>)| cell_literal(doc, c.0)), ", "@)
        + ");\n"@
}

/// The INSERT statements of the documents, in order.
pub open spec fn insert_lines(table: Seq<char>, cols: Seq<(Seq<char>, Seq<char>)>, docs: Seq<Seq<(Seq<char>, ValueView)>>) -> Seq<char>
    decreases docs.len(),
{
    if docs.len() == 0 {
        seq![]
    } else {
        insert_lines(table, cols, docs.drop_last()) + insert_line(table, cols, docs.last())
    }
}

/// The migration script: the CREATE TABLE statement, then (when there are columns) one
/// INSERT per document; a field missing from a document inserts NULL.
pub open spec fn migration_script(table: Seq<char>, cols: Seq<(Seq<char>, Seq<char>)>, docs: Seq<Seq<(Seq<char>, ValueView)>>) -> Seq<char> {
    let create = "CREATE TABLE "@ + quoted_with(table, '"') + " (\n"@
        + join_with(cols.map_values(|c: (Seq<char>, Seq<char>)| column_def(c)), ",\n"@) + "\n);\n"@;
    if cols.len() == 0 { create } else { create + insert_lines(table, cols, docs) }
}

/// `parts` joined by `sep`, as a string.
fn join_parts(parts: &Vec<String>, sep: &str) -> (r: String)
    ensures
        r@ == join_with(views(parts@), sep@),
{
    crate::text::join_strings(parts.as_slice(), sep)
}

/// Build the full CREATE TABLE + INSERT script for the given table name, inferred
/// columns, and documents. A field missing from a given document inserts NULL.
pub fn generate_sql(table: &str, columns: &[Column], docs: &[Document]) -> (r: String)
    ensures
        r@ == migration_script(table@, columns_view(columns@), docs_fields(docs@)),
{
    let ghost cv = columns_view(columns@);
    let ghost ds = docs_fields(docs@);
    let qt = quote_ident(table);
    let mut out = "CREATE TABLE ".to_owned();
    push_str(&mut out, qt.as_str());
    push_str(&mut out, " (\n");
    let mut defs: Vec<String> = Vec::new();
    let mut names: Vec<String> = Vec::new();
    let mut i: usize = 0;
    while i < columns.len()
        invariant
            i <= columns@.len(),
            cv == columns_view(columns@),
            views(defs@) == cv.take(i as int).map_values(|c: (Seq<char>, Seq<char>)| column_def(c)),
            views(names@) == cv.take(i as int).map_values(|c: (Seq<char>, Seq<char>)| quoted_with(c.0, '"')),
        decreases columns@.len() - i,
    {
        let qn = quote_ident(columns[i].name.as_str());
        let mut def = "  ".to_owned();
        push_str(&mut def, qn.as_str());
        push_char(&mut def, ' ');
        push_str(&mut def, columns[i].sql_type.as_str());
        let ghost d0 = views(defs@);
        let ghost n0 = views(names@);
        let ghost c = cv[i as int];
        assert(c == (columns@[i as int].name@, columns@[i as int].sql_type@));
        assert(def@ =~= column_def(c)) by {
            reveal_strlit(" ");
        }
        defs.push(def);
        names.push(qn);
        assert(views(defs@) =~= d0.push(column_def(c)));
        assert(views(names@) =~= n0.push(quoted_with(c.0, '"')));
        assert(cv.take(i as int + 1).map_values(|c: (Seq<char>, Seq<char>)| column_def(c))
            =~= cv.take(i as int).map_values(|c: (Seq<char>, Seq<char>)| column_def(c)).push(column_def(c)));
        assert(cv.take(i as int + 1).map_values(|c: (Seq<char>, Seq<char>)| quoted_with(c.0, '"'))
            =~= cv.take(i as int).map_values(|c: (Seq<char>, Seq<char>)| quoted_with(c.0, '"')).push(quoted_with(c.0, '"')));
        i = i + 1;
    }
    assert(cv.take(columns@.len() as int) =~= cv);
    let body = join_parts(&defs, ",\n");
    push_str(&mut out, body.as_str());
    push_str(&mut out, "\n);\n");
    if columns.len() == 0 {
        return out;
    }
    let col_clause = join_parts(&names, ", ");
    let ghost create = out@;
    let mut j: usize = 0;
    assert(ds.take(0) =~= Seq::<Seq<(Seq<char>, ValueView)>>::empty());
    while j < docs.len()
        invariant
            j <= docs@.len(),
            cv == columns_view(columns@),
            ds == docs_fields(docs@),
            col_clause@ == join_with(cv.map_values(|c: (Seq<char>, Seq<char>)| quoted_with(c.0, '"')), ", "@),
            qt@ == quoted_with(table@, '"'),
            out@ == create + insert_lines(table@, cv, ds.take(j as int)),
        decreases docs@.len() - j,
    {
        let doc = &docs[j];
        let ghost fv = fields_view(doc@);
        let mut values: Vec<String> = Vec::new();
        let mut k: usize = 0;
        while k < columns.len()
            invariant
                k <= columns@.len(),
                cv == columns_view(columns@),
                fv == fields_view(doc@),
                views(values@) == cv.take(k as int).map_values(|c: (Seq<char>, Seq<char>)| cell_literal(fv, c.0)),
            decreases columns@.len() - k,
        {
            let text = match get_field(doc, columns[k].name.as_str()) {
                Some(v) => sql_value(v),
                None => "NULL".to_owned(),
            };
            let ghost v0 = views(values@);
            let ghost c = cv[k as int];
            assert(c.0 == columns@[k as int].name@);
            values.push(text);
            assert(views(values@) =~= v0.push(cell_literal(fv, c.0)));
            assert(cv.take(k as int + 1).map_values(|c: (Seq<char>, Seq<char>)| cell_literal(fv, c.0))
                =~= cv.take(k as int).map_values(|c: (Seq<char>, Seq<char>)| cell_literal(fv, c.0)).push(cell_literal(fv, c.0)));
            k = k + 1;
        }
        assert(cv.take(columns@.len() as int) =~= cv);
        let vals = join_parts(&values, ", ");
        let ghost before = out@;
        push_str(&mut out, "INSERT INTO ");
        push_str(&mut out, qt.as_str());
        push_str(&mut out, " (");
        push_str(&mut out, col_clause.as_str());
        push_str(&mut out, ") VALUES (");
        push_str(&mut out, vals.as_str());
        push_str(&mut out, ");\n");
        assert(ds.take(j as int + 1).drop_last() =~= ds.take(j as int));
        assert(ds.take(j as int + 1).last() == fv);
        assert(out@ =~= before + insert_line(table@, cv, fv));
        j = j + 1;
    }
    assert(ds.take(docs@.len() as int) =~= ds);
    out
}

/// Unifying column types is order-independent: it is commutative, associative and
/// idempotent, so the type inferred for a column does not depend on the order in which
/// its values are seen.
pub proof fn law_unify_is_order_independent(a: Seq<char>, b: Seq<char>, c: Seq<char>)
    ensures
        unified(a, b) == unified(b, a),
        unified(unified(a, b), c) == unified(a, unified(b, c)),
        unified(a, a) == a,
{
    let text = "TEXT"@;
    assert(rank_of(text) == 0) by {
        reveal_strlit("TEXT");
        reveal_strlit("INTEGER");
        reveal_strlit("BIGINT");
        reveal_strlit("DOUBLE PRECISION");
        reveal_strlit("DECIMAL");
        assert(text.len() == 4);
        assert("INTEGER"@.len() == 7);
        assert("BIGINT"@.len() == 6);
        assert("DOUBLE PRECISION"@.len() == 16);
        assert("DECIMAL"@.len() == 7);
    }
    // Two types with the same non-zero rank are the same type.
    assert forall|x: Seq<char>, y: Seq<char>| rank_of(x) > 0 && rank_of(x) == rank_of(y) implies x == y by {}
}

}

