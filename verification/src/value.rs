//! The document values the commands compute on: a plain model of BSON values,
//! with ordered documents whose keys are looked up by text.

use vstd::prelude::*;
use crate::text::{decimal_text, decimal_string, join_with, push_char, push_str};

verus! {

/// A double as the logic reads it: its `Display` text, its relaxed extended-JSON text,
/// whether it is finite, and the `i64` that `as` casts it to (toward zero, saturating
/// at the bounds, NaN as zero).
#[derive(Clone, Debug, PartialEq)]
pub struct DoubleText {
    pub display: String,
    pub json: String,
    pub finite: bool,
    pub truncated: i64,
}

/// A date as the logic reads it: its relaxed extended-JSON text, its RFC 3339 text
/// where the date has one, and its `Display` text.
#[derive(Clone, Debug, PartialEq)]
pub struct DateText {
    pub json: String,
    pub rfc3339: Option<String>,
    pub display: String,
}

/// A value of one of the BSON types the logic only carries through: the type's shell
/// name (`regex`, `binData`, `timestamp`, ...), the value's `Display` text and its
/// relaxed extended-JSON text.
#[derive(Clone, Debug, PartialEq)]
pub struct OtherText {
    pub kind: String,
    pub display: String,
    pub json: String,
}

/// A 128-bit decimal as the logic reads it: its `Display` text and its extended-JSON text.
#[derive(Clone, Debug, PartialEq)]
pub struct DecimalText {
    pub display: String,
    pub json: String,
}

/// A BSON value as the library's logic reads it: doubles, dates and decimals by the
/// texts the logic prints, an ObjectId by its hex digits, and values of the other BSON
/// types, which the logic only carries through, by their relaxed extended-JSON text.
#[derive(Debug, PartialEq)]
pub enum Value {
    Null,
    Bool(bool),
    Int32(i32),
    Int64(i64),
    Double(DoubleText),
    Text(String),
    ObjectId(String),
    DateTime(DateText),
    Decimal(DecimalText),
    Array(Vec<Value>),
    Document(Vec<(String, Value)>),
    Other(OtherText),
}

/// The mathematical form of a value: strings by their characters.
pub enum ValueView {
    Null,
    Bool(bool),
    Int32(i32),
    Int64(i64),
    Double { display: Seq<char>, json: Seq<char>, finite: bool, truncated: i64 },
    Text(Seq<char>),
    ObjectId(Seq<char>),
    DateTime { json: Seq<char>, rfc3339: Option<Seq<char>>, display: Seq<char> },
    Decimal { display: Seq<char>, json: Seq<char> },
    Array(Seq<ValueView>),
    Document(Seq<(Seq<char>, ValueView)>),
    Other { kind: Seq<char>, display: Seq<char>, json: Seq<char> },
}

/// The view of a value: each string by its characters, each element by its view.
pub open spec fn value_view(v: Value) -> ValueView
    decreases v,
{
    match v {
        Value::Null => ValueView::Null,
        Value::Bool(b) => ValueView::Bool(b),
        Value::Int32(n) => ValueView::Int32(n),
        Value::Int64(n) => ValueView::Int64(n),
        Value::Double(d) => ValueView::Double { display: d.display@, json: d.json@, finite: d.finite, truncated: d.truncated },
        Value::Text(t) => ValueView::Text(t@),
        Value::ObjectId(t) => ValueView::ObjectId(t@),
        Value::DateTime(d) => ValueView::DateTime {
            json: d.json@,
            rfc3339: match d.rfc3339 { Some(s) => Some(s@), None => None },
            display: d.display@,
        },
        Value::Decimal(d) => ValueView::Decimal { display: d.display@, json: d.json@ },
        Value::Array(items) => ValueView::Array(Seq::new(items@.len(), |i: int|
            if 0 <= i < items@.len() { value_view(items@[i]) } else { ValueView::Null })),
        Value::Document(fields) => ValueView::Document(Seq::new(fields@.len(), |i: int|
            if 0 <= i < fields@.len() { (fields@[i].0@, value_view(fields@[i].1)) } else { (Seq::empty(), ValueView::Null) })),
        Value::Other(o) => ValueView::Other { kind: o.kind@, display: o.display@, json: o.json@ },
    }
}

impl View for Value {
    type V = ValueView;

    open spec fn view(&self) -> ValueView {
        value_view(*self)
    }
}

/// A lower-case hexadecimal digit.
pub open spec fn hex_digit(d: int) -> char {
    if d < 10 { ((d + 48) as u8) as char } else { ((d + 87) as u8) as char }
}

/// One character as JSON writes it inside a string: quote, backslash and control
/// characters escaped (the short forms where JSON has them, `\u00XX` otherwise).
pub open spec fn json_char(c: char) -> Seq<char> {
    if c == '"' {
        seq!['\\', '"']
    } else if c == '\\' {
        seq!['\\', '\\']
    } else if c == '\u{8}' {
        seq!['\\', 'b']
    } else if c == '\t' {
        seq!['\\', 't']
    } else if c == '\n' {
        seq!['\\', 'n']
    } else if c == '\u{c}' {
        seq!['\\', 'f']
    } else if c == '\r' {
        seq!['\\', 'r']
    } else if (c as int) < 0x20 {
        seq!['\\', 'u', '0', '0', hex_digit((c as int) / 16), hex_digit((c as int) % 16)]
    } else {
        seq![c]
    }
}

/// The characters of `s`, each as JSON writes it inside a string.
pub open spec fn json_escaped(s: Seq<char>) -> Seq<char>
    decreases s.len(),
{
    if s.len() == 0 {
        seq![]
    } else {
        json_escaped(s.drop_last()) + json_char(s.last())
    }
}

/// A JSON string literal for `s`.
pub open spec fn json_quoted(s: Seq<char>) -> Seq<char> {
    seq!['"'] + json_escaped(s) + seq!['"']
}

/// The JSON text of one character inside a string literal.
fn push_json_char(out: &mut String, c: char)
    ensures
        final(out)@ == old(out)@ + json_char(c),
{
    let digits: [char; 16] = ['0', '1', '2', '3', '4', '5', '6', '7', '8', '9', 'a', 'b', 'c', 'd', 'e', 'f'];
    let ghost before = out@;
    if c == '"' {
        push_char(out, '\\');
        push_char(out, '"');
    } else if c == '\\' {
        push_char(out, '\\');
        push_char(out, '\\');
    } else if c == '\u{8}' {
        push_char(out, '\\');
        push_char(out, 'b');
    } else if c == '\t' {
        push_char(out, '\\');
        push_char(out, 't');
    } else if c == '\n' {
        push_char(out, '\\');
        push_char(out, 'n');
    } else if c == '\u{c}' {
        push_char(out, '\\');
        push_char(out, 'f');
    } else if c == '\r' {
        push_char(out, '\\');
        push_char(out, 'r');
    } else if (c as u32) < 0x20 {
        let v = c as u32;
        let hi = digits[(v / 16) as usize];
        let lo = digits[(v % 16) as usize];
        assert(hi == hex_digit((c as int) / 16)) by {
            assert(digits@[(v / 16) as int] == hi);
        }
        assert(lo == hex_digit((c as int) % 16)) by {
            assert(digits@[(v % 16) as int] == lo);
        }
        push_char(out, '\\');
        push_char(out, 'u');
        push_char(out, '0');
        push_char(out, '0');
        push_char(out, hi);
        push_char(out, lo);
    } else {
        push_char(out, c);
    }
    assert(out@ =~= before + json_char(c));
}

/// Writes `s` as a JSON string literal, as serde_json's `to_string` does on a `str`:
/// the text in double quotes with `"`, `\\` and the control characters below U+0020
/// escaped and everything else kept.
pub fn json_string(s: &str) -> (r: String)
    ensures
        r@ == json_quoted(s@),
{
    let cs = crate::text::chars_of(s);
    let mut out = String::new();
    push_char(&mut out, '"');
    let mut i: usize = 0;
    while i < cs.len()
        invariant
            i <= cs@.len(),
            cs@ == s@,
            out@ == seq!['"'] + json_escaped(cs@.take(i as int)),
        decreases cs@.len() - i,
    {
        let ghost before = out@;
        push_json_char(&mut out, cs[i]);
        assert(cs@.take(i as int + 1).drop_last() =~= cs@.take(i as int));
        assert(cs@.take(i as int + 1).last() == cs@[i as int]);
        assert(out@ =~= seq!['"'] + json_escaped(cs@.take(i as int + 1)));
        i = i + 1;
    }
    assert(cs@.take(cs@.len() as int) =~= cs@);
    push_char(&mut out, '"');
    assert(out@ =~= json_quoted(s@));
    out
}

/// The compact relaxed extended JSON of a value: scalars as JSON values, an ObjectId as
/// `{"$oid":...}`, arrays and documents element by element in order.
pub open spec fn json_text(v: ValueView) -> Seq<char>
    decreases v,
{
    match v {
        ValueView::Null => seq!['n', 'u', 'l', 'l'],
        ValueView::Bool(b) => if b { seq!['t', 'r', 'u', 'e'] } else { seq!['f', 'a', 'l', 's', 'e'] },
        ValueView::Int32(n) => decimal_text(n as int),
        ValueView::Int64(n) => decimal_text(n as int),
        ValueView::Double { json, .. } => json,
        ValueView::DateTime { json, .. } => json,
        ValueView::Decimal { json, .. } => json,
        ValueView::Text(s) => json_quoted(s),
        ValueView::ObjectId(h) => seq!['{', '"', '$', 'o', 'i', 'd', '"', ':'] + json_quoted(h) + seq!['}'],
        ValueView::Array(items) => seq!['['] + join_with(json_items(items), seq![',']) + seq![']'],
        ValueView::Document(fields) => seq!['{'] + join_with(json_members(fields), seq![',']) + seq!['}'],
        ValueView::Other { json, .. } => json,
    }
}

/// The JSON texts of the elements of an array.
pub open spec fn json_items(items: Seq<ValueView>) -> Seq<Seq<char>>
    decreases items,
{
    Seq::new(items.len(), |i: int| if 0 <= i < items.len() { json_text(items[i]) } else { Seq::<char>::empty() })
}

/// The `"key":value` texts of the fields of a document.
pub open spec fn json_members(fields: Seq<(Seq<char>, ValueView)>) -> Seq<Seq<char>>
    decreases fields,
{
    Seq::new(fields.len(), |i: int|
        if 0 <= i < fields.len() { json_quoted(fields[i].0) + seq![':'] + json_text(fields[i].1) } else { Seq::<char>::empty() })
}

/// A document: its fields in order.
pub type Document = Vec<(String, Value)>;

/// The compact relaxed extended JSON text of a document.
pub fn document_json(fields: &Document) -> (r: String)
    ensures
        r@ == json_text(ValueView::Document(fields_view(fields@))),
    decreases fields,
{
    let ghost parts = Seq::new(fields@.len(), |i: int|
        if 0 <= i < fields@.len() { json_quoted(fields@[i].0@) + seq![':'] + json_text(fields@[i].1@) } else { Seq::<char>::empty() });
    let mut out = String::new();
    push_char(&mut out, '{');
    let mut i: usize = 0;
    while i < fields.len()
        invariant
            i <= fields@.len(),
            parts == Seq::new(fields@.len(), |i: int|
                if 0 <= i < fields@.len() { json_quoted(fields@[i].0@) + seq![':'] + json_text(fields@[i].1@) } else { Seq::<char>::empty() }),
            out@ == seq!['{'] + join_with(parts.take(i as int), seq![',']),
        decreases fields@.len() - i,
    {
        if i > 0 {
            push_char(&mut out, ',');
        }
        let key = json_string(fields[i].0.as_str());
        push_str(&mut out, key.as_str());
        push_char(&mut out, ':');
        assert(decreases_to!(*fields => fields@));
        assert(decreases_to!(fields@ => fields@[i as int]));
        assert(decreases_to!(fields@[i as int] => fields@[i as int].1));
        let item = to_json(&fields[i].1);
        push_str(&mut out, item.as_str());
        proof {
            let t = parts.take(i as int + 1);
            assert(t.drop_last() =~= parts.take(i as int));
            assert(t.last() =~= key@ + seq![':'] + item@);
            if i == 0 {
                assert(t =~= seq![key@ + seq![':'] + item@]);
            }
            assert(out@ =~= seq!['{'] + join_with(t, seq![',']));
        }
        i = i + 1;
    }
    push_char(&mut out, '}');
    assert(parts.take(fields@.len() as int) =~= parts);
    proof {
        let fv = fields_view(fields@);
        assert(fv.len() == fields@.len());
        assert(forall|i: int| 0 <= i < fv.len() ==> fv[i] == (fields@[i].0@, fields@[i].1@));
        assert(json_members(fv) =~= parts);
    }
    out
}

/// The compact relaxed extended JSON text of a value.
pub fn to_json(v: &Value) -> (r: String)
    ensures
        r@ == json_text(v@),
    decreases v,
{
    match v {
        Value::Null => {
            proof {
                reveal_strlit("null");
            }
            let r = "null".to_owned();
            assert(r@ == json_text(v@));
            r
        },
        Value::Bool(b) => {
            proof {
                reveal_strlit("true");
                reveal_strlit("false");
            }
            let r = if *b { "true".to_owned() } else { "false".to_owned() };
            assert(r@ == json_text(v@));
            r
        },
        Value::Int32(n) => {
            let r = decimal_string(*n as i64);
            assert(r@ == json_text(v@));
            r
        },
        Value::Int64(n) => decimal_string(*n),
        Value::Double(d) => {
            let r = d.json.clone();
            assert(r@ == json_text(v@));
            r
        },
        Value::DateTime(d) => d.json.clone(),
        Value::Decimal(d) => d.json.clone(),
        Value::Text(s) => {
            let r = json_string(s.as_str());
            assert(r@ == json_text(v@));
            r
        },
        Value::ObjectId(h) => {
            proof {
                reveal_strlit("{\"$oid\":");
            }
            let mut out = "{\"$oid\":".to_owned();
            let quoted = json_string(h.as_str());
            push_str(&mut out, quoted.as_str());
            push_char(&mut out, '}');
            assert(out@ == json_text(v@));
            out
        },
        Value::Array(items) => {
            let ghost parts = Seq::new(items@.len(), |i: int|
                if 0 <= i < items@.len() { json_text(items@[i]@) } else { Seq::<char>::empty() });
            let mut out = String::new();
            push_char(&mut out, '[');
            let mut i: usize = 0;
            while i < items.len()
                invariant
                    i <= items@.len(),
                    *v == Value::Array(*items),
                    parts == Seq::new(items@.len(), |i: int|
                        if 0 <= i < items@.len() { json_text(items@[i]@) } else { Seq::<char>::empty() }),
                    out@ == seq!['['] + join_with(parts.take(i as int), seq![',']),
                decreases items@.len() - i,
            {
                let ghost before = out@;
                if i > 0 {
                    push_char(&mut out, ',');
                }
                assert(*items == v->Array_0);
                assert(decreases_to!(*v => v->Array_0));
                assert(decreases_to!(*items => items@));
                assert(decreases_to!(items@ => items@[i as int]));
                let item = to_json(&items[i]);
                push_str(&mut out, item.as_str());
                proof {
                    let t = parts.take(i as int + 1);
                    assert(t.drop_last() =~= parts.take(i as int));
                    assert(t.last() == item@);
                    if i == 0 {
                        assert(t =~= seq![item@]);
                    }
                    assert(out@ =~= seq!['['] + join_with(t, seq![',']));
                }
                i = i + 1;
            }
            push_char(&mut out, ']');
            assert(parts.take(items@.len() as int) =~= parts);
            proof {
                assert(v@ is Array);
                let iv = v@->Array_0;
                assert(iv.len() == items@.len());
                assert(forall|i: int| 0 <= i < iv.len() ==> iv[i] == items@[i]@);
                assert(json_items(iv) =~= parts);
                assert(out@ == json_text(v@));
            }
            out
        },
        Value::Document(fields) => {
            proof {
                lemma_document_view(*fields);
            }
            assert(decreases_to!(*v => v->Document_0));
            document_json(fields)
        },
        Value::Other(o) => o.json.clone(),
    }
}


/// The value of the first field named `key`, if any (a document has each key once).
pub open spec fn field_value(fields: Seq<(Seq<char>, ValueView)>, key: Seq<char>) -> Option<ValueView>
    decreases fields.len(),
{
    if fields.len() == 0 {
        None
    } else if fields[0].0 == key {
        Some(fields[0].1)
    } else {
        field_value(fields.drop_first(), key)
    }
}

/// A document's fields by their views.
pub open spec fn fields_view(doc: Seq<(String, Value)>) -> Seq<(Seq<char>, ValueView)> {
    doc.map_values(|f: (String, Value)| (f.0@, f.1@))
}

/// A document value's view is the document of its fields' views.
pub proof fn lemma_document_view(fields: Document)
    ensures
        Value::Document(fields)@ == ValueView::Document(fields_view(fields@)),
{
    assert(Value::Document(fields)@ is Document);
    assert(Value::Document(fields)@->Document_0 =~= fields_view(fields@));
}

/// Append `(key, value)` to a document.
pub fn push_field(doc: &mut Document, key: &str, value: Value)
    ensures
        fields_view(final(doc)@) == fields_view(old(doc)@).push((key@, value@)),
{
    let ghost before = fields_view(doc@);
    let ghost kv = (key@, value@);
    doc.push((key.to_owned(), value));
    assert(fields_view(doc@) =~= before.push(kv));
}

/// A document of one field.
pub fn single_field(key: String, value: Value) -> (r: Value)
    ensures
        r@ == ValueView::Document(seq![(key@, value@)]),
{
    let ghost kv = (key@, value@);
    let fields: Document = vec![(key, value)];
    proof {
        lemma_document_view(fields);
        assert(fields_view(fields@) =~= seq![kv]);
    }
    Value::Document(fields)
}

/// The field named `key` of a document, if any.
pub fn get_field<'a>(doc: &'a Document, key: &str) -> (r: Option<&'a Value>)
    ensures
        match r {
            Some(v) => field_value(fields_view(doc@), key@) == Some(v@),
            None => field_value(fields_view(doc@), key@) is None,
        },
{
    let ghost fv = fields_view(doc@);
    let mut i: usize = 0;
    assert(fv.skip(0) =~= fv);
    while i < doc.len()
        invariant
            i <= doc@.len(),
            fv == fields_view(doc@),
            field_value(fv, key@) == field_value(fv.skip(i as int), key@),
        decreases doc@.len() - i,
    {
        assert(fv.skip(i as int)[0] == fv[i as int]);
        if crate::text::str_eq(doc[i].0.as_str(), key) {
            return Some(&doc[i].1);
        }
        assert(fv.skip(i as int).drop_first() =~= fv.skip(i as int + 1));
        i = i + 1;
    }
    None
}

/// The plain text of a value: a string as is, booleans and integers as written,
/// a double by its `Display` text, null as nothing, an ObjectId by its hex digits,
/// and anything else by its JSON text.
pub open spec fn value_text(v: ValueView) -> Seq<char> {
    match v {
        ValueView::Text(s) => s,
        ValueView::Bool(b) => if b { seq!['t', 'r', 'u', 'e'] } else { seq!['f', 'a', 'l', 's', 'e'] },
        ValueView::Int32(n) => decimal_text(n as int),
        ValueView::Int64(n) => decimal_text(n as int),
        ValueView::Double { display, .. } => display,
        ValueView::Null => seq![],
        ValueView::ObjectId(h) => h,
        _ => json_text(v),
    }
}

/// Render a single value as flat text. Scalars become their plain text; anything
/// nested (documents, arrays, dates) falls back to its JSON form.
pub fn to_plain_text(v: &Value) -> (r: String)
    ensures
        r@ == value_text(v@),
{
    match v {
        Value::Text(s) => s.clone(),
        Value::Bool(b) => {
            proof {
                reveal_strlit("true");
                reveal_strlit("false");
            }
            if *b { "true".to_owned() } else { "false".to_owned() }
        },
        Value::Int32(n) => decimal_string(*n as i64),
        Value::Int64(n) => decimal_string(*n),
        Value::Double(d) => d.display.clone(),
        Value::Null => String::new(),
        Value::ObjectId(h) => h.clone(),
        _ => to_json(v),
    }
}

}

verus! {

/// An array value's view is the array of its elements' views.
pub proof fn lemma_array_view(items: Vec<Value>)
    ensures
        Value::Array(items)@ == ValueView::Array(items@.map_values(|v: Value| v@)),
{
    assert(Value::Array(items)@ is Array);
    assert(Value::Array(items)@->Array_0 =~= items@.map_values(|v: Value| v@));
}

/// The string a value holds, if it is a string.
pub open spec fn text_value(v: Option<ValueView>) -> Option<Seq<char>> {
    match v {
        Some(ValueView::Text(s)) => Some(s),
        _ => None,
    }
}

/// The elements of the array field `key` of a document (none when it is not an array).
pub open spec fn array_field(doc: Seq<(Seq<char>, ValueView)>, key: Seq<char>) -> Seq<ValueView> {
    match field_value(doc, key) {
        Some(ValueView::Array(items)) => items,
        _ => seq![],
    }
}

/// The values of the `Some` entries, in order.
pub open spec fn somes<T>(s: Seq<Option<T>>) -> Seq<T>
    decreases s.len(),
{
    if s.len() == 0 {
        seq![]
    } else {
        somes(s.drop_last()) + match s.last() {
            Some(x) => seq![x],
            None => Seq::<T>::empty(),
        }
    }
}

/// The string field `key` of a document, if it holds a string.
pub fn text_field_of(doc: &Document, key: &str) -> (r: Option<String>)
    ensures
        match r {
            Some(s) => text_value(field_value(fields_view(doc@), key@)) == Some(s@),
            None => text_value(field_value(fields_view(doc@), key@)) is None,
        },
{
    match get_field(doc, key) {
        Some(Value::Text(s)) => Some(s.clone()),
        _ => None,
    }
}

}
