//! Searching documents for fields whose value or name matches a term: the matcher,
//! the walk that collects one row per matching field, and the bookkeeping of a search
//! across collections (document count, hit cap, truncation).

use vstd::prelude::*;
use crate::text::{chars_of, decimal_text, natural_string, push_char, push_str, string_of, trim_chars, trimmed};
use crate::error::AppError;
use crate::value::{field_value, fields_view, get_field, json_text, lemma_document_view, to_json, Document, Value, ValueView};

verus! {

/// Whether `needle` occurs in `hay` as a run of consecutive characters.
pub open spec fn occurs_in(hay: Seq<char>, needle: Seq<char>) -> bool {
    exists|i: int| 0 <= i && i + needle.len() <= hay.len()
        && #[trigger] hay.subrange(i, i + needle.len()) == needle
}

/// Whether the characters of `needle` stand in `hay` from position `at` on.
fn occurs_at(hay: &Vec<char>, needle: &Vec<char>, at: usize) -> (r: bool)
    requires
        at + needle@.len() <= hay@.len(),
    ensures
        r == (hay@.subrange(at as int, at + needle@.len()) == needle@),
{
    let hay_len = hay.len();
    assert(hay@.len() == hay_len);
    let mut j: usize = 0;
    while j < needle.len()
        invariant
            j <= needle@.len(),
            at + needle@.len() <= hay@.len(),
            hay@.len() <= usize::MAX,
            forall|k: int| 0 <= k < j ==> hay@[at + k] == needle@[k],
        decreases needle@.len() - j,
    {
        if hay[at + j] != needle[j] {
            assert(hay@.subrange(at as int, at + needle@.len())[j as int] != needle@[j as int]);
            return false;
        }
        j = j + 1;
    }
    assert(hay@.subrange(at as int, at + needle@.len()) =~= needle@);
    true
}

/// Whether `needle` occurs in `hay` (std `str::contains` with a `&str` pattern).
pub fn contains_text(hay: &str, needle: &str) -> (r: bool)
    ensures
        r == occurs_in(hay@, needle@),
{
    let h = chars_of(hay);
    let n = chars_of(needle);
    if n.len() > h.len() {
        return false;
    }
    let last = h.len() - n.len();
    let mut i: usize = 0;
    loop
        invariant
            h@ == hay@,
            n@ == needle@,
            last == h@.len() - n@.len(),
            i <= last,
            forall|k: int| 0 <= k < i ==> #[trigger] h@.subrange(k, k + n@.len()) != n@,
        decreases last - i,
    {
        if occurs_at(&h, &n, i) {
            return true;
        }
        if i == last {
            return false;
        }
        i = i + 1;
    }
}

/// The lower-case form of a text, as std's `str::to_lowercase` computes it from the
/// Unicode case tables.
pub uninterp spec fn lowercase_of(s: Seq<char>) -> Seq<char>;

/// The lower-case form of `s` (std `str::to_lowercase`). Claimed: the result is a
/// function of the text alone, named `lowercase_of`; the case mapping is not stated.
#[verifier::external_body]
fn lowercase(s: &str) -> (r: String)
    ensures
        r@ == lowercase_of(s@),
{
    s.to_lowercase()
}

/// What building a regular expression from `pattern` gives, with case-insensitive
/// matching when asked (regex's `RegexBuilder::build`): `None` when the pattern
/// compiles, else the error's message.
pub uninterp spec fn regex_build_error(pattern: Seq<char>, case_insensitive: bool) -> Option<Seq<char>>;

/// Whether the regular expression built from `pattern` matches somewhere in `hay`
/// (regex's `Regex::is_match`).
pub uninterp spec fn regex_is_match(pattern: Seq<char>, case_insensitive: bool, hay: Seq<char>) -> bool;

/// Builds the pattern (regex `RegexBuilder::new`, `case_insensitive`, `build`) and keeps
/// only the outcome. Claimed: `Ok` exactly when the build succeeds, else the error's
/// `Display` text, both named by `regex_build_error` as functions of the arguments.
#[verifier::external_body]
fn check_pattern(pattern: &str, case_insensitive: bool) -> (r: Result<(), String>)
    ensures
        match r {
            Ok(_) => regex_build_error(pattern@, case_insensitive) is None,
            Err(e) => regex_build_error(pattern@, case_insensitive) == Some(e@),
        },
{
    match regex::RegexBuilder::new(pattern).case_insensitive(case_insensitive).build() {
        Ok(_) => Ok(()),
        Err(e) => Err(e.to_string()),
    }
}

/// Builds the pattern as `check_pattern` does and asks whether it matches in `hay`
/// (regex `Regex::is_match`). Claimed: the answer is `regex_is_match` of the arguments.
#[verifier::external_body]
fn pattern_matches(pattern: &str, case_insensitive: bool, hay: &str) -> (r: bool)
    requires
        regex_build_error(pattern@, case_insensitive) is None,
    ensures
        r == regex_is_match(pattern@, case_insensitive, hay@),
{
    match regex::RegexBuilder::new(pattern).case_insensitive(case_insensitive).build() {
        Ok(re) => re.is_match(hay),
        Err(_) => false,
    }
}

/// A regular expression that compiles, by its source text and case mode.
pub struct Pattern {
    source: String,
    case_insensitive: bool,
}

/// The mathematical form of a pattern.
pub struct PatternView {
    pub source: Seq<char>,
    pub case_insensitive: bool,
}

impl View for Pattern {
    type V = PatternView;

    closed spec fn view(&self) -> PatternView {
        PatternView { source: self.source@, case_insensitive: self.case_insensitive }
    }
}

impl Pattern {
    /// A pattern holds only sources that compile.
    #[verifier::type_invariant]
    spec fn compiles(self) -> bool {
        regex_build_error(self.source@, self.case_insensitive) is None
    }

    /// The pattern for `source`, or the build error's message when it does not compile.
    pub fn new(source: &str, case_insensitive: bool) -> (r: Result<Pattern, String>)
        ensures
            match r {
                Ok(p) => regex_build_error(source@, case_insensitive) is None
                    && p@ == (PatternView { source: source@, case_insensitive }),
                Err(e) => regex_build_error(source@, case_insensitive) == Some(e@),
            },
    {
        match check_pattern(source, case_insensitive) {
            Ok(_) => Ok(Pattern { source: source.to_owned(), case_insensitive }),
            Err(e) => Err(e),
        }
    }

    /// Whether the pattern matches somewhere in `hay`.
    pub fn is_match(&self, hay: &str) -> (r: bool)
        ensures
            r == regex_is_match(self@.source, self@.case_insensitive, hay@),
    {
        proof {
            use_type_invariant(self);
        }
        pattern_matches(self.source.as_str(), self.case_insensitive, hay)
    }
}

/// How a single value or name is tested against the search term. `Substr` looks for the
/// needle as a substring; when it is case-insensitive the needle is expected lower-case
/// and the text is lower-cased before the test. `Regex` tests a compiled pattern.
pub enum Matcher {
    Substr { needle: String, case_sensitive: bool },
    Regex(Pattern),
}

/// The mathematical form of a matcher.
pub enum MatcherView {
    Substr { needle: Seq<char>, case_sensitive: bool },
    Regex(PatternView),
}

impl View for Matcher {
    type V = MatcherView;

    open spec fn view(&self) -> MatcherView {
        match self {
            Matcher::Substr { needle, case_sensitive } => MatcherView::Substr { needle: needle@, case_sensitive: *case_sensitive },
            Matcher::Regex(p) => MatcherView::Regex(p@),
        }
    }
}

/// Whether a matcher accepts a text.
pub open spec fn text_matches(m: MatcherView, hay: Seq<char>) -> bool {
    match m {
        MatcherView::Substr { needle, case_sensitive } =>
            if case_sensitive { occurs_in(hay, needle) } else { occurs_in(lowercase_of(hay), needle) },
        MatcherView::Regex(p) => regex_is_match(p.source, p.case_insensitive, hay),
    }
}

impl Matcher {
    /// Whether the matcher accepts `hay`.
    pub fn matches(&self, hay: &str) -> (r: bool)
        ensures
            r == text_matches(self@, hay@),
    {
        match self {
            Matcher::Substr { needle, case_sensitive } => {
                if *case_sensitive {
                    contains_text(hay, needle.as_str())
                } else {
                    let lower = lowercase(hay);
                    contains_text(lower.as_str(), needle.as_str())
                }
            },
            Matcher::Regex(p) => p.is_match(hay),
        }
    }
}

}

verus! {

/// What the search looks at: field values, field names, or both.
#[derive(Clone, Copy, Debug)]
pub struct Scope {
    pub values: bool,
    pub names: bool,
}

/// The text a scalar value is matched by: a string as is, numbers and booleans as
/// written, an ObjectId by its hex digits, a decimal by its text, a date by its RFC 3339
/// text when it has one. Documents, arrays and the other types have none.
pub open spec fn scalar_text_of(v: ValueView) -> Option<Seq<char>> {
    match v {
        ValueView::Text(s) => Some(s),
        ValueView::Int32(n) => Some(decimal_text(n as int)),
        ValueView::Int64(n) => Some(decimal_text(n as int)),
        ValueView::Double { display, .. } => Some(display),
        ValueView::Bool(b) => Some(if b { "true"@ } else { "false"@ }),
        ValueView::ObjectId(h) => Some(h),
        ValueView::Decimal { display, .. } => Some(display),
        ValueView::DateTime { rfc3339, .. } => rfc3339,
        _ => None,
    }
}

/// The boolean a text spells: `true` or `false`, and nothing else.
pub open spec fn bool_of_text(t: Seq<char>) -> Option<bool> {
    if t == "true"@ {
        Some(true)
    } else if t == "false"@ {
        Some(false)
    } else {
        None
    }
}

/// A boolean or an integer is matched by its own JSON literal: `true`, `false`, or the
/// decimal digits of the number.
pub proof fn law_scalar_text_is_the_json_literal(v: ValueView)
    requires
        v is Bool || v is Int32 || v is Int64,
    ensures
        scalar_text_of(v) == Some(json_text(v)),
{
    reveal_strlit("true");
    reveal_strlit("false");
}

/// The text a boolean is matched by reads back as the same boolean.
pub proof fn law_boolean_text_reads_back(b: bool)
    ensures
        scalar_text_of(ValueView::Bool(b)) matches Some(t) && bool_of_text(t) == Some(b),
{
    reveal_strlit("true");
    reveal_strlit("false");
    assert("true"@[0] != "false"@[0]);
}

/// The text shown for any value in a hit row: a scalar's matching text, a document or
/// array as compact relaxed extended JSON, anything else by its `Display` text.
pub open spec fn value_text_of(v: ValueView) -> Seq<char> {
    match scalar_text_of(v) {
        Some(t) => t,
        None => match v {
            ValueView::Document(_) => json_text(v),
            ValueView::Array(_) => json_text(v),
            ValueView::DateTime { display, .. } => display,
            ValueView::Other { display, .. } => display,
            _ => "null"@,
        },
    }
}

/// The text form of a scalar value, or `None` for documents, arrays and the types that
/// have no text form.
pub fn scalar_text(value: &Value) -> (r: Option<String>)
    ensures
        match r {
            Some(t) => scalar_text_of(value@) == Some(t@),
            None => scalar_text_of(value@) is None,
        },
{
    match value {
        Value::Text(s) => Some(s.clone()),
        Value::Int32(n) => Some(crate::text::decimal_string(*n as i64)),
        Value::Int64(n) => Some(crate::text::decimal_string(*n)),
        Value::Double(d) => Some(d.display.clone()),
        Value::Bool(b) => Some(if *b { "true".to_owned() } else { "false".to_owned() }),
        Value::ObjectId(h) => Some(h.clone()),
        Value::Decimal(d) => Some(d.display.clone()),
        Value::DateTime(d) => match &d.rfc3339 {
            Some(t) => Some(t.clone()),
            None => None,
        },
        _ => None,
    }
}

/// Display text for any value, used for the Value column of a name match (where the
/// matched field may itself be a document or array).
pub fn value_text(value: &Value) -> (r: String)
    ensures
        r@ == value_text_of(value@),
{
    match scalar_text(value) {
        Some(t) => t,
        None => match value {
            Value::Document(_) => to_json(value),
            Value::Array(_) => to_json(value),
            Value::DateTime(d) => d.display.clone(),
            Value::Other(o) => o.display.clone(),
            _ => "null".to_owned(),
        },
    }
}

/// The dotted path of a field `key` under `path` (the key alone at the document root).
pub open spec fn key_path(path: Seq<char>, key: Seq<char>) -> Seq<char> {
    if path.len() == 0 { key } else { path + seq!['.'] + key }
}

/// The dotted path of array element `i` under `path`.
pub open spec fn index_path(path: Seq<char>, i: int) -> Seq<char> {
    path + seq!['.'] + decimal_text(i)
}

/// One hit row: the dotted path of the matching field and its text.
pub type Row = (Seq<char>, Seq<char>);

/// The row a field contributes by its name: one when names are searched and the name
/// matches, with the field's display text.
pub open spec fn name_rows(key: Seq<char>, child: ValueView, child_path: Seq<char>, m: MatcherView, scope: Scope) -> Seq<Row> {
    if scope.names && text_matches(m, key) { seq![(child_path, value_text_of(child))] } else { seq![] }
}

/// The rows of a value at `path`, in document order: for each field of a document its
/// name row, then the rows inside its value; for each array element the rows inside it;
/// for a scalar whose text matches (when values are searched) the scalar itself.
pub open spec fn rows_of(v: ValueView, path: Seq<char>, m: MatcherView, scope: Scope) -> Seq<Row>
    decreases v,
{
    match v {
        ValueView::Document(fields) => field_parts(fields, path, m, scope).flatten(),
        ValueView::Array(items) => item_parts(items, path, m, scope).flatten(),
        _ => match scalar_text_of(v) {
            Some(t) => if scope.values && text_matches(m, t) { seq![(path, t)] } else { seq![] },
            None => seq![],
        },
    }
}

/// The rows one field contributes: its name row, then the rows inside its value.
pub open spec fn field_part(field: (Seq<char>, ValueView), path: Seq<char>, m: MatcherView, scope: Scope) -> Seq<Row>
    decreases field,
{
    name_rows(field.0, field.1, key_path(path, field.0), m, scope)
        + rows_of(field.1, key_path(path, field.0), m, scope)
}

/// The rows of the fields of a document, one group per field.
pub open spec fn field_parts(fields: Seq<(Seq<char>, ValueView)>, path: Seq<char>, m: MatcherView, scope: Scope) -> Seq<Seq<Row>>
    decreases fields,
{
    Seq::new(fields.len(), |i: int|
        if 0 <= i < fields.len() { field_part(fields[i], path, m, scope) } else { Seq::<Row>::empty() })
}

/// The rows of the elements of an array, one group per element.
pub open spec fn item_parts(items: Seq<ValueView>, path: Seq<char>, m: MatcherView, scope: Scope) -> Seq<Seq<Row>>
    decreases items,
{
    Seq::new(items.len(), |i: int|
        if 0 <= i < items.len() { rows_of(items[i], index_path(path, i), m, scope) } else { Seq::<Row>::empty() })
}

/// The rows held in a vector of (path, text) pairs.
pub open spec fn rows_view(out: Seq<(String, String)>) -> Seq<Row> {
    out.map_values(|r: (String, String)| (r.0@, r.1@))
}

/// The path of field `key` under `path`.
fn child_key_path(path: &str, key: &str) -> (r: String)
    ensures
        r@ == key_path(path@, key@),
{
    if path.is_empty() {
        key.to_owned()
    } else {
        let mut p = path.to_owned();
        push_char(&mut p, '.');
        push_str(&mut p, key);
        p
    }
}

/// The path of array element `index` under `path`.
fn child_index_path(path: &str, index: usize) -> (r: String)
    ensures
        r@ == index_path(path@, index as int),
{
    let mut p = path.to_owned();
    push_char(&mut p, '.');
    let digits = natural_string(index as u128);
    push_str(&mut p, digits.as_str());
    p
}

/// Walk the fields of a document at `path`, appending the rows of each field in order.
pub fn collect_fields(fields: &Document, path: &str, matcher: &Matcher, scope: &Scope, out: &mut Vec<(String, String)>)
    ensures
        rows_view(final(out)@) == rows_view(old(out)@)
            + field_parts(fields_view(fields@), path@, matcher@, *scope).flatten(),
    decreases fields,
{
    let ghost start = rows_view(out@);
    let ghost fv = fields_view(fields@);
    let ghost parts = Seq::new(fv.len(), |i: int|
        if 0 <= i < fv.len() { field_part(fv[i], path@, matcher@, *scope) } else { Seq::<Row>::empty() });
    proof {
        assert(parts.take(0) =~= Seq::<Seq<Row>>::empty());
        assert(rows_view(out@) =~= start + parts.take(0).flatten());
    }
    let mut i: usize = 0;
    while i < fields.len()
        invariant
            i <= fields@.len(),
            fv == fields_view(fields@),
            parts == Seq::new(fv.len(), |i: int|
                if 0 <= i < fv.len() { field_part(fv[i], path@, matcher@, *scope) } else { Seq::<Row>::empty() }),
            rows_view(out@) == start + parts.take(i as int).flatten(),
        decreases fields@.len() - i,
    {
        let ghost before = rows_view(out@);
        let key = &fields[i].0;
        let child = &fields[i].1;
        let child_path = child_key_path(path, key.as_str());
        assert(fv[i as int] == (key@, child@));
        if scope.names && matcher.matches(key.as_str()) {
            let shown = value_text(child);
            let ghost row = (child_path@, shown@);
            out.push((child_path.clone(), shown));
            assert(rows_view(out@) =~= before + seq![row]);
        }
        assert(rows_view(out@) == before + name_rows(key@, child@, child_path@, matcher@, *scope));
        assert(decreases_to!(*fields => fields@));
        assert(decreases_to!(fields@ => fields@[i as int]));
        assert(decreases_to!(fields@[i as int] => fields@[i as int].1));
        collect(child, child_path.as_str(), matcher, scope, out);
        proof {
            assert(parts[i as int] == field_part(fv[i as int], path@, matcher@, *scope));
            assert(parts.take(i as int + 1) =~= parts.take(i as int).push(parts[i as int]));
            parts.take(i as int).lemma_flatten_push(parts[i as int]);
            assert(rows_view(out@) =~= start + parts.take(i as int + 1).flatten());
        }
        i = i + 1;
    }
    proof {
        assert(parts.take(fv.len() as int) =~= parts);
        assert(field_parts(fv, path@, matcher@, *scope) =~= parts);
    }
}

/// Walk one value, appending (path, value text) for every field whose value or name
/// matches. `path` is the dotted path to `value` (empty at the document root).
pub fn collect(value: &Value, path: &str, matcher: &Matcher, scope: &Scope, out: &mut Vec<(String, String)>)
    ensures
        rows_view(final(out)@) == rows_view(old(out)@) + rows_of(value@, path@, matcher@, *scope),
    decreases value,
{
    let ghost start = rows_view(out@);
    match value {
        Value::Document(fields) => {
            proof {
                lemma_document_view(*fields);
            }
            assert(decreases_to!(*value => value->Document_0));
            collect_fields(fields, path, matcher, scope, out);
        },
        Value::Array(items) => {
            let ghost iv = value@->Array_0;
            let ghost parts = Seq::new(iv.len(), |i: int|
                if 0 <= i < iv.len() { rows_of(iv[i], index_path(path@, i), matcher@, *scope) } else { Seq::<Row>::empty() });
            proof {
                assert(iv.len() == items@.len());
                assert(parts.take(0) =~= Seq::<Seq<Row>>::empty());
                assert(rows_view(out@) =~= start + parts.take(0).flatten());
            }
            let mut i: usize = 0;
            while i < items.len()
                invariant
                    i <= items@.len(),
                    *value == Value::Array(*items),
                    iv == value@->Array_0,
                    iv.len() == items@.len(),
                    forall|k: int| 0 <= k < iv.len() ==> iv[k] == items@[k]@,
                    parts == Seq::new(iv.len(), |i: int|
                        if 0 <= i < iv.len() { rows_of(iv[i], index_path(path@, i), matcher@, *scope) } else { Seq::<Row>::empty() }),
                    rows_view(out@) == start + parts.take(i as int).flatten(),
                decreases items@.len() - i,
            {
                let child_path = child_index_path(path, i);
                assert(decreases_to!(*value => value->Array_0));
                assert(decreases_to!(*items => items@));
                assert(decreases_to!(items@ => items@[i as int]));
                collect(&items[i], child_path.as_str(), matcher, scope, out);
                proof {
                    assert(parts[i as int] == rows_of(iv[i as int], index_path(path@, i as int), matcher@, *scope));
                    assert(parts.take(i as int + 1) =~= parts.take(i as int).push(parts[i as int]));
                    parts.take(i as int).lemma_flatten_push(parts[i as int]);
                    assert(rows_view(out@) =~= start + parts.take(i as int + 1).flatten());
                }
                i = i + 1;
            }
            proof {
                assert(parts.take(iv.len() as int) =~= parts);
                assert(item_parts(iv, path@, matcher@, *scope) =~= parts);
            }
        },
        _ => {
            if scope.values {
                match scalar_text(value) {
                    Some(text) => {
                        if matcher.matches(text.as_str()) {
                            let ghost row = (path@, text@);
                            out.push((path.to_owned(), text));
                            assert(rows_view(out@) =~= start + seq![row]);
                        } else {
                            assert(rows_view(out@) =~= start + Seq::<Row>::empty());
                        }
                    },
                    None => {
                        assert(rows_view(out@) =~= start + Seq::<Row>::empty());
                    },
                }
            } else {
                assert(rows_view(out@) =~= start + Seq::<Row>::empty());
            }
        },
    }
}

}

verus! {

/// The document's `_id` as display text (an ObjectId as hex, anything else as its value
/// text), or nothing when it has none.
pub open spec fn id_text_of(fields: Seq<(Seq<char>, ValueView)>) -> Seq<char> {
    match field_value(fields, "_id"@) {
        Some(v) => value_text_of(v),
        None => seq![],
    }
}

/// The document's `_id` as display text.
pub fn id_text(doc: &Document) -> (r: String)
    ensures
        r@ == id_text_of(fields_view(doc@)),
{
    match get_field(doc, "_id") {
        Some(value) => value_text(value),
        None => String::new(),
    }
}

/// One matching field inside one document: which collection and document, the dotted
/// path to the field, and its value as text.
#[derive(Clone, Debug)]
pub struct SearchHit {
    pub database: String,
    pub collection: String,
    pub id: String,
    pub path: String,
    pub value: String,
}

/// The mathematical form of a hit.
pub struct HitView {
    pub database: Seq<char>,
    pub collection: Seq<char>,
    pub id: Seq<char>,
    pub path: Seq<char>,
    pub value: Seq<char>,
}

/// The hits held in a vector.
pub open spec fn hits_view(hits: Seq<SearchHit>) -> Seq<HitView> {
    hits.map_values(|h: SearchHit| HitView {
        database: h.database@,
        collection: h.collection@,
        id: h.id@,
        path: h.path@,
        value: h.value@,
    })
}

/// The hits a document's rows become.
pub open spec fn rows_as_hits(database: Seq<char>, collection: Seq<char>, id: Seq<char>, rows: Seq<Row>) -> Seq<HitView> {
    rows.map_values(|r: Row| HitView { database, collection, id, path: r.0, value: r.1 })
}

/// The rows of a whole document (its root path is empty).
pub open spec fn document_rows(doc: Seq<(Seq<char>, ValueView)>, m: MatcherView, scope: Scope) -> Seq<Row> {
    rows_of(ValueView::Document(doc), seq![], m, scope)
}

/// How many more hits fit under the cap.
pub open spec fn room_left(held: int, cap: int) -> int {
    if held < cap { cap - held } else { 0 }
}

/// The outcome of a search: the hits in the order found, how many documents were
/// scanned, and whether the hit cap was reached and later matches dropped.
#[derive(Debug)]
pub struct SearchResult {
    pub hits: Vec<SearchHit>,
    pub scanned: u64,
    pub truncated: bool,
}

/// A search in progress across collections: the hits so far, the documents scanned,
/// whether the cap cut it short, and the cap on the number of hits.
pub struct SearchRun {
    pub hits: Vec<SearchHit>,
    pub scanned: u64,
    pub truncated: bool,
    pub cap: usize,
}

impl SearchRun {
    /// A search that has scanned nothing yet, keeping at most `cap` hits.
    pub fn new(cap: usize) -> (r: SearchRun)
        ensures
            r.hits@.len() == 0,
            r.scanned == 0,
            !r.truncated,
            r.cap == cap,
    {
        SearchRun { hits: Vec::new(), scanned: 0, truncated: false, cap }
    }

    /// Takes one scanned document of `collection`: counts it, and adds a hit for each
    /// matching field in walk order while the cap leaves room. When a match finds the
    /// cap reached, the search is truncated and must stop (the result is `false`);
    /// otherwise it goes on (`true`).
    pub fn take_document(&mut self, database: &str, collection: &str, doc: &Document, matcher: &Matcher, scope: &Scope) -> (more: bool)
        requires
            old(self).scanned < u64::MAX,
        ensures
            final(self).scanned == old(self).scanned + 1,
            final(self).cap == old(self).cap,
            old(self).hits@.len() <= old(self).cap ==> final(self).hits@.len() <= final(self).cap,
            final(self).truncated && !old(self).truncated ==> !more && final(self).hits@.len() >= final(self).cap,
            ({
                let found = document_rows(fields_view(doc@), matcher@, *scope);
                let room = room_left(old(self).hits@.len() as int, old(self).cap as int);
                let hits = rows_as_hits(database@, collection@, id_text_of(fields_view(doc@)), found);
                if found.len() <= room {
                    &&& more
                    &&& hits_view(final(self).hits@) == hits_view(old(self).hits@) + hits
                    &&& final(self).truncated == old(self).truncated
                } else {
                    &&& !more
                    &&& hits_view(final(self).hits@) == hits_view(old(self).hits@) + hits.take(room)
                    &&& final(self).truncated
                }
            }),
    {
        self.scanned = self.scanned + 1;
        let mut found: Vec<(String, String)> = Vec::new();
        collect_fields(doc, "", matcher, scope, &mut found);
        let ghost fv = fields_view(doc@);
        let ghost rows = document_rows(fv, matcher@, *scope);
        proof {
            reveal_strlit("");
            assert(""@ =~= Seq::<char>::empty());
            assert(rows_view(Seq::<(String, String)>::empty()) =~= Seq::<Row>::empty());
            assert(rows_view(found@) =~= rows);
        }
        if found.len() == 0 {
            assert(rows_as_hits(database@, collection@, id_text_of(fv), rows) =~= Seq::<HitView>::empty());
            assert(hits_view(self.hits@) =~= hits_view(old(self).hits@) + Seq::<HitView>::empty());
            return true;
        }
        let id = id_text(doc);
        let ghost old_hits = hits_view(old(self).hits@);
        let ghost all = rows_as_hits(database@, collection@, id@, rows);
        let ghost room = room_left(old(self).hits@.len() as int, old(self).cap as int);
        let mut k: usize = 0;
        assert(all.take(0) =~= Seq::<HitView>::empty());
        assert(hits_view(self.hits@) =~= old_hits + all.take(0));
        while k < found.len()
            invariant
                k <= found@.len(),
                rows_view(found@) == rows,
                rows == document_rows(fields_view(doc@), matcher@, *scope),
                old_hits == hits_view(old(self).hits@),
                id@ == id_text_of(fields_view(doc@)),
                all == rows_as_hits(database@, collection@, id@, rows),
                self.cap == old(self).cap,
                self.scanned == old(self).scanned + 1,
                self.truncated == old(self).truncated,
                room == room_left(old(self).hits@.len() as int, old(self).cap as int),
                self.hits@.len() == old(self).hits@.len() + k,
                k <= room || room < 0,
                hits_view(self.hits@) == old_hits + all.take(k as int),
            decreases found@.len() - k,
        {
            if self.hits.len() >= self.cap {
                self.truncated = true;
                assert(k as int == room);
                assert(rows.len() == found@.len());
                return false;
            }
            let ghost before = hits_view(self.hits@);
            let hit = SearchHit {
                database: database.to_owned(),
                collection: collection.to_owned(),
                id: id.clone(),
                path: found[k].0.clone(),
                value: found[k].1.clone(),
            };
            assert(rows[k as int] == (found@[k as int].0@, found@[k as int].1@));
            self.hits.push(hit);
            assert(all.take(k as int + 1) =~= all.take(k as int).push(all[k as int]));
            assert(hits_view(self.hits@) =~= before.push(all[k as int]));
            k = k + 1;
        }
        assert(all.take(rows.len() as int) =~= all);
        true
    }

    /// The outcome: the hits, the document count and whether the cap cut it short.
    pub fn finish(self) -> (r: SearchResult)
        ensures
            r.hits@ == self.hits@,
            r.scanned == self.scanned,
            r.truncated == self.truncated,
    {
        SearchResult { hits: self.hits, scanned: self.scanned, truncated: self.truncated }
    }
}

}

verus! {

/// Documents scanned per collection when no positive limit is given.
pub const DEFAULT_SCAN: i64 = 1000;
/// The most documents scanned per collection.
pub const MAX_SCAN: i64 = 5000;
/// Hits kept when no positive cap is given.
pub const DEFAULT_MAX_HITS: usize = 200;
/// The most hits kept.
pub const MAX_HITS: usize = 1000;

/// The matcher a search uses, from the request's term and options.
pub open spec fn matcher_for(term: Seq<char>, match_case: Option<bool>, regex: Option<bool>) -> Option<MatcherView> {
    let t = trimmed(term);
    let case_sensitive = match_case == Some(true);
    if t.len() == 0 {
        None
    } else if regex == Some(true) {
        Some(MatcherView::Regex(PatternView { source: t, case_insensitive: !case_sensitive }))
    } else {
        Some(MatcherView::Substr {
            needle: if case_sensitive { t } else { lowercase_of(t) },
            case_sensitive,
        })
    }
}

/// The matcher for a search request: none when the trimmed term is empty (the search
/// finds nothing), a compiled pattern when `regex` is set (case-insensitive unless
/// `match_case`), else a substring test whose needle is lower-cased unless `match_case`.
/// A pattern that does not compile is a validation error naming the regex crate's message.
pub fn search_matcher(term: &str, match_case: Option<bool>, regex: Option<bool>) -> (r: Result<Option<Matcher>, AppError>)
    ensures
        ({
            let t = trimmed(term@);
            let case_sensitive = match_case == Some(true);
            match r {
                Ok(None) => t.len() == 0,
                Ok(Some(m)) => t.len() > 0 && matcher_for(term@, match_case, regex) == Some(m@)
                    && (regex == Some(true) ==> regex_build_error(t, !case_sensitive) is None),
                Err(e) => t.len() > 0 && regex == Some(true)
                    && regex_build_error(t, !case_sensitive) is Some
                    && e == AppError::Validation(e->Validation_0)
                    && e->Validation_0@ == "Invalid regular expression: "@ + regex_build_error(t, !case_sensitive)->Some_0,
            }
        }),
{
    let cs = trim_chars(term);
    if cs.len() == 0 {
        return Ok(None);
    }
    let trimmed_term = string_of(cs.as_slice());
    let case_sensitive = match match_case {
        Some(b) => b,
        None => false,
    };
    let use_regex = match regex {
        Some(b) => b,
        None => false,
    };
    if use_regex {
        match Pattern::new(trimmed_term.as_str(), !case_sensitive) {
            Ok(p) => Ok(Some(Matcher::Regex(p))),
            Err(e) => {
                let mut msg = "Invalid regular expression: ".to_owned();
                push_str(&mut msg, e.as_str());
                Err(AppError::Validation(msg))
            },
        }
    } else {
        let needle = if case_sensitive { trimmed_term } else { lowercase(trimmed_term.as_str()) };
        Ok(Some(Matcher::Substr { needle, case_sensitive }))
    }
}

/// The scope a request names: `"value"` for values only, `"name"` for names only,
/// anything else (or nothing) for both.
pub open spec fn scope_for(scope: Option<Seq<char>>) -> Scope {
    match scope {
        Some(s) => if s == "value"@ {
            Scope { values: true, names: false }
        } else if s == "name"@ {
            Scope { values: false, names: true }
        } else {
            Scope { values: true, names: true }
        },
        None => Scope { values: true, names: true },
    }
}

/// What a search request asks to look at.
pub fn search_scope(scope: Option<&str>) -> (r: Scope)
    ensures
        r == scope_for(match scope { Some(s) => Some(s@), None => None }),
{
    match scope {
        Some(s) => if crate::text::str_eq(s, "value") {
            Scope { values: true, names: false }
        } else if crate::text::str_eq(s, "name") {
            Scope { values: false, names: true }
        } else {
            Scope { values: true, names: true }
        },
        None => Scope { values: true, names: true },
    }
}

/// Documents to scan per collection: a positive request capped at `MAX_SCAN`, else
/// `DEFAULT_SCAN`.
pub fn scan_limit(requested: Option<i64>) -> (r: i64)
    ensures
        r == match requested {
            Some(v) => if v > 0 { if v < MAX_SCAN { v } else { MAX_SCAN } } else { DEFAULT_SCAN },
            None => DEFAULT_SCAN,
        },
{
    match requested {
        Some(v) => if v > 0 { if v < MAX_SCAN { v } else { MAX_SCAN } } else { DEFAULT_SCAN },
        None => DEFAULT_SCAN,
    }
}

/// Hits to keep in all: a positive request capped at `MAX_HITS`, else `DEFAULT_MAX_HITS`.
pub fn hit_limit(requested: Option<i64>) -> (r: usize)
    ensures
        r == match requested {
            Some(v) => if v > 0 { if v < MAX_HITS { v as int } else { MAX_HITS as int } } else { DEFAULT_MAX_HITS as int },
            None => DEFAULT_MAX_HITS as int,
        },
{
    match requested {
        Some(v) => if v > 0 {
            if v < 1000 { v as usize } else { MAX_HITS }
        } else {
            DEFAULT_MAX_HITS
        },
        None => DEFAULT_MAX_HITS,
    }
}

/// The one collection a request restricts the search to: the named collection when its
/// name is not blank; `None` means every collection of the database.
pub fn single_collection(collection: Option<String>) -> (r: Option<String>)
    ensures
        match collection {
            Some(name) => if trimmed(name@).len() > 0 { r == Some(name) } else { r is None },
            None => r is None,
        },
{
    match collection {
        Some(name) => {
            let t = trim_chars(name.as_str());
            if t.len() > 0 { Some(name) } else { None }
        },
        None => None,
    }
}

}
