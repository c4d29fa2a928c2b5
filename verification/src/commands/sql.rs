//! Translating a simple SQL SELECT into the pieces of a MongoDB find query: a
//! single-table SELECT with WHERE / ORDER BY / LIMIT / OFFSET. Aggregates, GROUP BY,
//! HAVING, DISTINCT and JOINs are rejected with a clear message.

use vstd::prelude::*;
use crate::text::{chars_of, push_char, push_str, alphabetic, numeric, is_alphabetic, is_alphanumeric, views, join_with, join_strings};
use crate::numbers::{word_ci, parse_i64, i64_parse};
use crate::commands::sql_json::{J, JView, j_views, member_views, lemma_arr_view, lemma_obj_view, pretty};
use crate::commands::sql_model::{SqlLiteral, SqlBinOp, SqlExprKind, SqlExpr, SqlSelectItem, SqlRelation, SqlTable, SqlOrderExpr, SqlOrderBy, SqlLimit, SqlSelect, SqlBody, SqlQuery, SqlStatement};

verus! {

/// A regular-expression metacharacter that LIKE patterns escape.
pub open spec fn regex_meta(c: char) -> bool {
    c == '.' || c == '*' || c == '+' || c == '?' || c == '(' || c == ')' || c == '['
        || c == ']' || c == '{' || c == '}' || c == '^' || c == '$' || c == '|' || c == '\\'
}

/// One LIKE pattern character as regex text: `%` is `.*`, `_` is `.`, a metacharacter
/// is escaped, anything else stands for itself.
pub open spec fn like_char(c: char) -> Seq<char> {
    if c == '%' {
        seq!['.', '*']
    } else if c == '_' {
        seq!['.']
    } else if regex_meta(c) {
        seq!['\\', c]
    } else {
        seq![c]
    }
}

/// The regex text of a LIKE pattern's characters.
pub open spec fn like_body(p: Seq<char>) -> Seq<char>
    decreases p.len(),
{
    if p.len() == 0 {
        seq![]
    } else {
        like_body(p.drop_last()) + like_char(p.last())
    }
}

/// A LIKE pattern as an anchored regex.
pub open spec fn like_regex(p: Seq<char>) -> Seq<char> {
    seq!['^'] + like_body(p) + seq!['$']
}

/// SQL LIKE → anchored regex, escaping regex metacharacters and mapping % → .* and
/// _ → .
pub fn like_to_regex(pattern: &str) -> (r: String)
    ensures
        r@ == like_regex(pattern@),
{
    let cs = chars_of(pattern);
    let mut out = String::new();
    push_char(&mut out, '^');
    let mut i: usize = 0;
    while i < cs.len()
        invariant
            i <= cs@.len(),
            cs@ == pattern@,
            out@ == seq!['^'] + like_body(cs@.take(i as int)),
        decreases cs@.len() - i,
    {
        let c = cs[i];
        let ghost before = out@;
        if c == '%' {
            push_char(&mut out, '.');
            push_char(&mut out, '*');
        } else if c == '_' {
            push_char(&mut out, '.');
        } else if c == '.' || c == '*' || c == '+' || c == '?' || c == '(' || c == ')' || c == '['
            || c == ']' || c == '{' || c == '}' || c == '^' || c == '$' || c == '|' || c == '\\' {
            push_char(&mut out, '\\');
            push_char(&mut out, c);
        } else {
            push_char(&mut out, c);
        }
        assert(out@ =~= before + like_char(c));
        assert(cs@.take(i as int + 1).drop_last() =~= cs@.take(i as int));
        i = i + 1;
    }
    assert(cs@.take(cs@.len() as int) =~= cs@);
    push_char(&mut out, '$');
    out
}

/// A character that continues a word: alphanumeric or `_`.
pub open spec fn word_char(c: char) -> bool {
    alphabetic(c) || numeric(c) || c == '_'
}

/// Where the run of word characters starting at `i` ends.
pub open spec fn word_end(s: Seq<char>, i: int) -> int
    decreases s.len() - i,
{
    if 0 <= i < s.len() && word_char(s[i]) { word_end(s, i + 1) } else { i }
}

/// A run of word characters ends at or after where it starts, and within the text.
pub proof fn lemma_word_end(s: Seq<char>, i: int)
    requires
        0 <= i <= s.len(),
    ensures
        i <= word_end(s, i) <= s.len(),
        forall|k: int| i <= k < word_end(s, i) ==> word_char(#[trigger] s[k]),
        word_end(s, i) == s.len() || !word_char(s[word_end(s, i)]),
    decreases s.len() - i,
{
    if i < s.len() && word_char(s[i]) {
        lemma_word_end(s, i + 1);
    }
}

/// The text from position `i` with each whole word `SKIP` (in any case) outside string
/// literals replaced by `OFFSET`; `quote` is the quote of the literal being read, if
/// any.
pub open spec fn skip_rewritten(s: Seq<char>, i: int, quote: Option<char>) -> Seq<char>
    decreases s.len() - i,
{
    if i < 0 || i >= s.len() {
        seq![]
    } else {
        let c = s[i];
        match quote {
            Some(q) => seq![c] + skip_rewritten(s, i + 1, if c == q { None } else { quote }),
            None => if c == '\'' || c == '"' {
                seq![c] + skip_rewritten(s, i + 1, Some(c))
            } else if alphabetic(c) || c == '_' {
                let j = word_end(s, i + 1);
                proof {
                    lemma_word_end(s, i + 1);
                }
                let w = s.subrange(i, j);
                (if word_ci(w, "skip"@, "SKIP"@) { "OFFSET"@ } else { w }) + skip_rewritten(s, j, None)
            } else {
                seq![c] + skip_rewritten(s, i + 1, None)
            },
        }
    }
}

/// Whether the text from position `i` holds no whole word `SKIP` (in any case) outside
/// string literals, reading it as `skip_rewritten` does.
pub open spec fn skip_free(s: Seq<char>, i: int, quote: Option<char>) -> bool
    decreases s.len() - i,
{
    if i < 0 || i >= s.len() {
        true
    } else {
        let c = s[i];
        match quote {
            Some(q) => skip_free(s, i + 1, if c == q { None } else { quote }),
            None => if c == '\'' || c == '"' {
                skip_free(s, i + 1, Some(c))
            } else if alphabetic(c) || c == '_' {
                let j = word_end(s, i + 1);
                proof {
                    lemma_word_end(s, i + 1);
                }
                !word_ci(s.subrange(i, j), "skip"@, "SKIP"@) && skip_free(s, j, None)
            } else {
                skip_free(s, i + 1, None)
            },
        }
    }
}

proof fn lemma_skip_free_unchanged(s: Seq<char>, i: int, quote: Option<char>)
    requires
        0 <= i <= s.len(),
        skip_free(s, i, quote),
    ensures
        skip_rewritten(s, i, quote) == s.subrange(i, s.len() as int),
    decreases s.len() - i,
{
    if i < s.len() {
        let c = s[i];
        match quote {
            Some(q) => {
                lemma_skip_free_unchanged(s, i + 1, if c == q { None } else { quote });
                assert(seq![c] + s.subrange(i + 1, s.len() as int) =~= s.subrange(i, s.len() as int));
            },
            None => if c == '\'' || c == '"' {
                lemma_skip_free_unchanged(s, i + 1, Some(c));
                assert(seq![c] + s.subrange(i + 1, s.len() as int) =~= s.subrange(i, s.len() as int));
            } else if alphabetic(c) || c == '_' {
                let j = word_end(s, i + 1);
                lemma_word_end(s, i + 1);
                lemma_skip_free_unchanged(s, j, None);
                assert(s.subrange(i, j) + s.subrange(j, s.len() as int) =~= s.subrange(i, s.len() as int));
            } else {
                lemma_skip_free_unchanged(s, i + 1, None);
                assert(seq![c] + s.subrange(i + 1, s.len() as int) =~= s.subrange(i, s.len() as int));
            },
        }
    } else {
        assert(s.subrange(i, s.len() as int) =~= Seq::<char>::empty());
    }
}

/// SQL text with no whole word `SKIP` outside its string literals passes through the
/// `SKIP` rewrite unchanged: text, quotes and literals are copied as they are.
pub proof fn law_skip_free_text_is_unchanged(s: Seq<char>)
    requires
        skip_free(s, 0, None),
    ensures
        skip_rewritten(s, 0, None) == s,
{
    lemma_skip_free_unchanged(s, 0, None);
    assert(s.subrange(0, s.len() as int) =~= s);
}

/// A run of word characters reads the same after a prefix.
proof fn lemma_word_end_shift(p: Seq<char>, x: Seq<char>, k: int)
    requires
        0 <= k <= x.len(),
    ensures
        word_end(p + x, p.len() + k) == p.len() + word_end(x, k),
    decreases x.len() - k,
{
    if k < x.len() {
        assert((p + x)[p.len() + k] == x[k]);
        if word_char(x[k]) {
            lemma_word_end_shift(p, x, k + 1);
        }
    }
}

/// Reading for `SKIP` words after a prefix reads the rest as it stands.
proof fn lemma_skip_free_shift(p: Seq<char>, x: Seq<char>, k: int, quote: Option<char>)
    requires
        0 <= k <= x.len(),
    ensures
        skip_free(p + x, p.len() + k, quote) == skip_free(x, k, quote),
    decreases x.len() - k,
{
    let y = p + x;
    let n = p.len();
    if k < x.len() {
        let c = x[k];
        assert(y[n + k] == c);
        match quote {
            Some(q) => {
                lemma_skip_free_shift(p, x, k + 1, if c == q { None } else { quote });
            },
            None => if c == '\'' || c == '"' {
                lemma_skip_free_shift(p, x, k + 1, Some(c));
            } else if alphabetic(c) || c == '_' {
                let j = word_end(x, k + 1);
                lemma_word_end(x, k + 1);
                lemma_word_end_shift(p, x, k + 1);
                assert(y.subrange(n + k, n + j) =~= x.subrange(k, j));
                lemma_skip_free_shift(p, x, j, None);
            } else {
                lemma_skip_free_shift(p, x, k + 1, None);
            },
        }
    }
}

/// A run of word characters ends at the first character that is not one.
proof fn lemma_word_end_at(x: Seq<char>, a: int, b: int)
    requires
        0 <= a <= b <= x.len(),
        forall|m: int| a <= m < b ==> word_char(#[trigger] x[m]),
        b == x.len() || !word_char(x[b]),
    ensures
        word_end(x, a) == b,
    decreases b - a,
{
    if a < b {
        lemma_word_end_at(x, a + 1, b);
    }
}

/// A run of word characters stops at or before a character that is not one.
proof fn lemma_word_end_before(x: Seq<char>, a: int, b: int)
    requires
        0 <= a <= b < x.len(),
        !word_char(x[b]),
    ensures
        word_end(x, a) <= b,
    decreases b - a,
{
    if a < b && word_char(x[a]) {
        lemma_word_end_before(x, a + 1, b);
    }
}

/// Whether a rewritten text's next character cannot continue a word: it is at the end
/// or is not a word character.
pub open spec fn ends_word(t: Seq<char>) -> bool {
    t.len() == 0 || !word_char(t[0])
}

/// The rewrite starts with the character it starts on when that is not a word character.
proof fn lemma_rewritten_starts(s: Seq<char>, j: int)
    requires
        0 <= j <= s.len(),
        j == s.len() || !word_char(s[j]),
    ensures
        ends_word(skip_rewritten(s, j, None)),
{
    if j < s.len() {
        let c = s[j];
        if c == '\'' || c == '"' {
            assert(skip_rewritten(s, j, None)[0] == c);
        } else {
            assert(!(alphabetic(c) || c == '_'));
            assert(skip_rewritten(s, j, None)[0] == c);
        }
    }
}

/// Whatever words `OFFSET` is read as, none of them is `SKIP`.
proof fn lemma_offset_free(t: Seq<char>, k: int)
    requires
        0 <= k <= 6,
        ends_word(t),
        skip_free(t, 0, None),
    ensures
        skip_free("OFFSET"@ + t, k, None),
    decreases 6 - k,
{
    reveal_strlit("OFFSET");
    let y = "OFFSET"@ + t;
    let o = "OFFSET"@;
    assert(o.len() == 6);
    if k == 6 {
        lemma_skip_free_shift(o, t, 0, None);
    } else {
        let c = y[k];
        assert(c == o[k]);
        assert(c == 'O' || c == 'F' || c == 'S' || c == 'E' || c == 'T');
        if alphabetic(c) || c == '_' {
            let j = word_end(y, k + 1);
            lemma_word_end(y, k + 1);
            if t.len() > 0 {
                assert(y[6] == t[0]);
                lemma_word_end_before(y, k + 1, 6);
            } else {
                assert(y.len() == 6);
            }
            assert(j <= 6);
            let w = y.subrange(k, j);
            if w.len() == 4 {
                assert(w[0] == c);
                assert(k <= 2);
                assert(c == 'O' || c == 'F');
            }
            assert(!word_ci(w, "skip"@, "SKIP"@)) by {
                reveal_strlit("skip");
                reveal_strlit("SKIP");
                if w.len() == 4 {
                    assert(!(w[0] == "skip"@[0] || w[0] == "SKIP"@[0]));
                }
            }
            lemma_offset_free(t, j);
        } else {
            lemma_offset_free(t, k + 1);
        }
    }
}

/// The rewrite from position `i` holds no `SKIP` word, read from its start with the
/// same quote.
proof fn lemma_rewritten_skip_free(s: Seq<char>, i: int, quote: Option<char>)
    requires
        0 <= i <= s.len(),
    ensures
        skip_free(skip_rewritten(s, i, quote), 0, quote),
    decreases s.len() - i,
{
    if i < s.len() {
        let c = s[i];
        let out = skip_rewritten(s, i, quote);
        match quote {
            Some(q) => {
                let q2 = if c == q { None } else { quote };
                lemma_rewritten_skip_free(s, i + 1, q2);
                lemma_skip_free_shift(seq![c], skip_rewritten(s, i + 1, q2), 0, q2);
                assert(out == seq![c] + skip_rewritten(s, i + 1, q2));
                assert(out[0] == c);
            },
            None => if c == '\'' || c == '"' {
                lemma_rewritten_skip_free(s, i + 1, Some(c));
                lemma_skip_free_shift(seq![c], skip_rewritten(s, i + 1, Some(c)), 0, Some(c));
                assert(out == seq![c] + skip_rewritten(s, i + 1, Some(c)));
                assert(out[0] == c);
            } else if alphabetic(c) || c == '_' {
                let j = word_end(s, i + 1);
                lemma_word_end(s, i + 1);
                let w = s.subrange(i, j);
                let rest = skip_rewritten(s, j, None);
                lemma_rewritten_skip_free(s, j, None);
                lemma_rewritten_starts(s, j);
                if word_ci(w, "skip"@, "SKIP"@) {
                    assert(out == "OFFSET"@ + rest);
                    lemma_offset_free(rest, 0);
                } else {
                    assert(out == w + rest);
                    assert(out[0] == c);
                    assert forall|m: int| 1 <= m < w.len() implies word_char(#[trigger] out[m]) by {
                        assert(out[m] == s[i + m]);
                    }
                    if rest.len() > 0 {
                        assert(out[w.len() as int] == rest[0]);
                    }
                    lemma_word_end_at(out, 1, w.len() as int);
                    assert(out.subrange(0, w.len() as int) =~= w);
                    lemma_skip_free_shift(w, rest, 0, None);
                }
            } else {
                lemma_rewritten_skip_free(s, i + 1, None);
                lemma_skip_free_shift(seq![c], skip_rewritten(s, i + 1, None), 0, None);
                assert(out == seq![c] + skip_rewritten(s, i + 1, None));
                assert(out[0] == c);
            },
        }
    }
}

/// Rewriting `SKIP` is idempotent: a second pass over rewritten text changes nothing.
pub proof fn law_skip_rewrite_is_idempotent(s: Seq<char>)
    ensures
        skip_rewritten(skip_rewritten(s, 0, None), 0, None) == skip_rewritten(s, 0, None),
{
    lemma_rewritten_skip_free(s, 0, None);
    law_skip_free_text_is_unchanged(skip_rewritten(s, 0, None));
}

/// `SKIP <n>` is a non-standard alias accepted for `OFFSET <n>`: rewrite the bare
/// keyword to OFFSET before parsing. Only whole-word, case-insensitive matches outside
/// string literals are touched.
pub fn normalize_skip(sql: &str) -> (r: String)
    ensures
        r@ == skip_rewritten(sql@, 0, None),
{
    let chars = chars_of(sql);
    let ghost s = chars@;
    let mut out = String::new();
    let mut i: usize = 0;
    let mut in_str: Option<char> = None;
    while i < chars.len()
        invariant
            s == chars@,
            s == sql@,
            i <= s.len(),
            skip_rewritten(s, 0, None) == out@ + skip_rewritten(s, i as int, in_str),
        decreases s.len() - i,
    {
        let c = chars[i];
        let ghost before = out@;
        match in_str {
            Some(quote) => {
                push_char(&mut out, c);
                if c == quote {
                    in_str = None;
                }
                i = i + 1;
                assert(out@ + skip_rewritten(s, i as int, in_str) =~= before + skip_rewritten(s, i - 1, Some(quote)));
            },
            None => {
                if c == '\'' || c == '"' {
                    in_str = Some(c);
                    push_char(&mut out, c);
                    i = i + 1;
                    assert(out@ + skip_rewritten(s, i as int, in_str) =~= before + skip_rewritten(s, i - 1, None));
                } else if is_alphabetic(c) || c == '_' {
                    let start = i;
                    proof {
                        lemma_word_end(s, start + 1);
                    }
                    i = i + 1;
                    while i < chars.len() && (is_alphanumeric(chars[i]) || chars[i] == '_')
                        invariant
                            s == chars@,
                            start < i <= s.len(),
                            word_end(s, i as int) == word_end(s, start + 1),
                        decreases s.len() - i,
                    {
                        i = i + 1;
                    }
                    assert(i as int == word_end(s, start + 1));
                    let mut word = String::new();
                    let mut k = start;
                    while k < i
                        invariant
                            s == chars@,
                            start <= k <= i <= s.len(),
                            word@ == s.subrange(start as int, k as int),
                        decreases i - k,
                    {
                        push_char(&mut word, chars[k]);
                        assert(word@ =~= s.subrange(start as int, k + 1));
                        k = k + 1;
                    }
                    let w = chars_of(word.as_str());
                    let is_skip = w.len() == 4
                        && (w[0] == 's' || w[0] == 'S') && (w[1] == 'k' || w[1] == 'K')
                        && (w[2] == 'i' || w[2] == 'I') && (w[3] == 'p' || w[3] == 'P');
                    proof {
                        reveal_strlit("skip");
                        reveal_strlit("SKIP");
                        assert(is_skip == word_ci(word@, "skip"@, "SKIP"@));
                    }
                    if is_skip {
                        push_str(&mut out, "OFFSET");
                    } else {
                        push_str(&mut out, word.as_str());
                    }
                    assert(out@ + skip_rewritten(s, i as int, None) =~= before + skip_rewritten(s, start as int, None));
                } else {
                    push_char(&mut out, c);
                    i = i + 1;
                    assert(out@ + skip_rewritten(s, i as int, None) =~= before + skip_rewritten(s, i - 1, None));
                }
            },
        }
    }
    assert(out@ + Seq::<char>::empty() =~= out@);
    out
}

/// A field-level condition.
pub enum Cond {
    Eq(J),
    Ne(J),
    Lt(J),
    Lte(J),
    Gt(J),
    Gte(J),
    In(Vec<J>),
    Nin(Vec<J>),
    Regex(String),
    NotRegex(String),
    Between(J, J),
    IsNull,
    IsNotNull,
}

/// A boolean tree over field conditions.
pub enum Filter {
    And(Vec<Filter>),
    Or(Vec<Filter>),
    Leaf(String, Cond),
}

/// The mathematical form of a condition.
pub enum CondView {
    Eq(JView),
    Ne(JView),
    Lt(JView),
    Lte(JView),
    Gt(JView),
    Gte(JView),
    In(Seq<JView>),
    Nin(Seq<JView>),
    Regex(Seq<char>),
    NotRegex(Seq<char>),
    Between(JView, JView),
    IsNull,
    IsNotNull,
}

/// The mathematical form of a filter tree.
pub enum FilterView {
    And(Seq<FilterView>),
    Or(Seq<FilterView>),
    Leaf(Seq<char>, CondView),
}

/// The view of a condition.
pub open spec fn cond_view(c: Cond) -> CondView {
    match c {
        Cond::Eq(v) => CondView::Eq(v@),
        Cond::Ne(v) => CondView::Ne(v@),
        Cond::Lt(v) => CondView::Lt(v@),
        Cond::Lte(v) => CondView::Lte(v@),
        Cond::Gt(v) => CondView::Gt(v@),
        Cond::Gte(v) => CondView::Gte(v@),
        Cond::In(vs) => CondView::In(j_views(vs@)),
        Cond::Nin(vs) => CondView::Nin(j_views(vs@)),
        Cond::Regex(p) => CondView::Regex(p@),
        Cond::NotRegex(p) => CondView::NotRegex(p@),
        Cond::Between(a, b) => CondView::Between(a@, b@),
        Cond::IsNull => CondView::IsNull,
        Cond::IsNotNull => CondView::IsNotNull,
    }
}

/// The view of a filter tree.
pub open spec fn filter_view(f: Filter) -> FilterView
    decreases f,
{
    match f {
        Filter::And(parts) => FilterView::And(Seq::new(parts@.len(), |i: int|
            if 0 <= i < parts@.len() { filter_view(parts@[i]) } else { FilterView::And(seq![]) })),
        Filter::Or(parts) => FilterView::Or(Seq::new(parts@.len(), |i: int|
            if 0 <= i < parts@.len() { filter_view(parts@[i]) } else { FilterView::And(seq![]) })),
        Filter::Leaf(field, c) => FilterView::Leaf(field@, cond_view(c)),
    }
}

/// The views of a list of filters.
pub open spec fn filter_views(parts: Seq<Filter>) -> Seq<FilterView> {
    parts.map_values(|f: Filter| filter_view(f))
}

/// A one-member object.
pub open spec fn obj1(key: Seq<char>, value: JView) -> JView {
    JView::Obj(seq![(key, value)])
}

/// A condition as the MQL value stored under its field.
pub open spec fn cond_json(c: CondView) -> JView {
    match c {
        CondView::Eq(v) => v,
        CondView::Ne(v) => obj1("$ne"@, v),
        CondView::Lt(v) => obj1("$lt"@, v),
        CondView::Lte(v) => obj1("$lte"@, v),
        CondView::Gt(v) => obj1("$gt"@, v),
        CondView::Gte(v) => obj1("$gte"@, v),
        CondView::In(vs) => obj1("$in"@, JView::Arr(vs)),
        CondView::Nin(vs) => obj1("$nin"@, JView::Arr(vs)),
        CondView::Regex(p) => obj1("$regex"@, JView::Str(p)),
        CondView::NotRegex(p) => obj1("$not"@, obj1("$regex"@, JView::Str(p))),
        CondView::Between(a, b) => JView::Obj(seq![("$gte"@, a), ("$lte"@, b)]),
        CondView::IsNull => JView::Null,
        CondView::IsNotNull => obj1("$ne"@, JView::Null),
    }
}

/// Every part is a one-member object and no key repeats, so an AND can be flattened
/// into one filter object instead of an `$and` array.
pub open spec fn mergeable(parts: Seq<JView>) -> bool {
    &&& forall|i: int| 0 <= i < parts.len() ==> (#[trigger] parts[i] is Obj) && parts[i]->Obj_0.len() == 1
    &&& forall|i: int, j: int| 0 <= i < j < parts.len() ==> (#[trigger] parts[i])->Obj_0[0].0 != (#[trigger] parts[j])->Obj_0[0].0
}

/// The members of one-member objects, in order.
pub open spec fn merged_members(parts: Seq<JView>) -> Seq<(Seq<char>, JView)> {
    parts.map_values(|p: JView| p->Obj_0[0])
}

/// A filter tree as an MQL filter document: a leaf is `{field: condition}`, an OR is
/// `{"$or": [...]}`, and an AND is one merged object when its parts allow, else
/// `{"$and": [...]}`.
pub open spec fn filter_json(f: FilterView) -> JView
    decreases f,
{
    match f {
        FilterView::Leaf(field, c) => obj1(field, cond_json(c)),
        FilterView::Or(parts) => obj1("$or"@, JView::Arr(filters_json(parts))),
        FilterView::And(parts) => {
            let js = filters_json(parts);
            if mergeable(js) { JView::Obj(merged_members(js)) } else { obj1("$and"@, JView::Arr(js)) }
        },
    }
}

/// The MQL documents of a list of filters.
pub open spec fn filters_json(parts: Seq<FilterView>) -> Seq<JView>
    decreases parts,
{
    Seq::new(parts.len(), |i: int| if 0 <= i < parts.len() { filter_json(parts[i]) } else { JView::Null })
}

/// A one-member object.
fn make_obj1(key: &str, value: J) -> (r: J)
    ensures
        r@ == obj1(key@, value@),
{
    let ghost kv = (key@, value@);
    let entries: Vec<(String, J)> = vec![(key.to_owned(), value)];
    proof {
        lemma_obj_view(entries);
        assert(member_views(entries@) =~= seq![kv]);
    }
    J::Obj(entries)
}

/// The MQL value of a condition.
pub fn cond_to_j(cond: Cond) -> (r: J)
    ensures
        r@ == cond_json(cond_view(cond)),
{
    match cond {
        Cond::Eq(value) => value,
        Cond::Ne(value) => make_obj1("$ne", value),
        Cond::Lt(value) => make_obj1("$lt", value),
        Cond::Lte(value) => make_obj1("$lte", value),
        Cond::Gt(value) => make_obj1("$gt", value),
        Cond::Gte(value) => make_obj1("$gte", value),
        Cond::In(values) => {
            proof { lemma_arr_view(values); }
            make_obj1("$in", J::Arr(values))
        },
        Cond::Nin(values) => {
            proof { lemma_arr_view(values); }
            make_obj1("$nin", J::Arr(values))
        },
        Cond::Regex(pattern) => make_obj1("$regex", J::Str(pattern)),
        Cond::NotRegex(pattern) => {
            let inner = make_obj1("$regex", J::Str(pattern));
            make_obj1("$not", inner)
        },
        Cond::Between(low, high) => {
            let ghost a = ("$gte"@, low@);
            let ghost b = ("$lte"@, high@);
            let entries: Vec<(String, J)> = vec![("$gte".to_owned(), low), ("$lte".to_owned(), high)];
            proof {
                lemma_obj_view(entries);
                assert(member_views(entries@) =~= seq![a, b]);
            }
            J::Obj(entries)
        },
        Cond::IsNull => J::Null,
        Cond::IsNotNull => make_obj1("$ne", J::Null),
    }
}

/// True when every part is a single-key object and all keys are distinct.
pub fn can_merge(parts: &Vec<J>) -> (r: bool)
    ensures
        r == mergeable(j_views(parts@)),
{
    let ghost js = j_views(parts@);
    let mut keys: Vec<String> = Vec::new();
    let mut i: usize = 0;
    while i < parts.len()
        invariant
            i <= parts@.len(),
            js == j_views(parts@),
            keys@.len() == i,
            forall|k: int| 0 <= k < i ==> (#[trigger] js[k] is Obj) && js[k]->Obj_0.len() == 1 && js[k]->Obj_0[0].0 == keys@[k]@,
            forall|a: int, b: int| 0 <= a < b < i ==> (#[trigger] js[a])->Obj_0[0].0 != (#[trigger] js[b])->Obj_0[0].0,
        decreases parts@.len() - i,
    {
        match &parts[i] {
            J::Obj(entries) => {
                proof {
                    lemma_obj_view(*entries);
                }
                if entries.len() != 1 {
                    assert(!mergeable(js)) by {
                        assert(js[i as int]->Obj_0.len() != 1);
                    }
                    return false;
                }
                let key = &entries[0].0;
                if crate::text::contains_string(keys.as_slice(), key) {
                    assert(!mergeable(js)) by {
                        let k = choose|k: int| 0 <= k < keys@.len() && crate::text::views(keys@)[k] == key@;
                        assert(js[k]->Obj_0[0].0 == js[i as int]->Obj_0[0].0);
                    }
                    return false;
                }
                assert forall|a: int| 0 <= a < i implies js[a]->Obj_0[0].0 != key@ by {
                    assert(crate::text::views(keys@)[a] == keys@[a]@);
                }
                keys.push(key.clone());
                assert(js[i as int]->Obj_0[0].0 == key@);
            },
            _ => {
                assert(!(js[i as int] is Obj));
                return false;
            },
        }
        i = i + 1;
    }
    true
}

/// The view of an AND or OR node is the node of its children's views.
proof fn lemma_branch_view(children: Vec<Filter>)
    ensures
        filter_view(Filter::And(children)) == FilterView::And(filter_views(children@)),
        filter_view(Filter::Or(children)) == FilterView::Or(filter_views(children@)),
{
    assert(filter_view(Filter::And(children))->And_0 =~= filter_views(children@));
    assert(filter_view(Filter::Or(children))->Or_0 =~= filter_views(children@));
}

/// The MQL filter document of a filter tree.
pub fn expr_to_j(expr: Filter) -> (r: J)
    ensures
        r@ == filter_json(filter_view(expr)),
    decreases expr,
{
    let ghost e = expr;
    match expr {
        Filter::Leaf(field, cond) => {
            let value = cond_to_j(cond);
            make_obj1(field.as_str(), value)
        },
        Filter::Or(children) => {
            proof { lemma_branch_view(children); }
            let parts = children_to_j(children, Ghost(e));
            proof { lemma_arr_view(parts); }
            make_obj1("$or", J::Arr(parts))
        },
        Filter::And(children) => {
            proof { lemma_branch_view(children); }
            let parts = children_to_j(children, Ghost(e));
            let ghost js = j_views(parts@);
            if can_merge(&parts) {
                let merged = merge_members(parts);
                proof { lemma_obj_view(merged); }
                J::Obj(merged)
            } else {
                proof { lemma_arr_view(parts); }
                make_obj1("$and", J::Arr(parts))
            }
        },
    }
}

/// The MQL filter documents of the children of `parent`, in order.
fn children_to_j(children: Vec<Filter>, parent: Ghost<Filter>) -> (r: Vec<J>)
    requires
        parent@ == Filter::And(children) || parent@ == Filter::Or(children),
    ensures
        j_views(r@) == filters_json(filter_views(children@)),
    decreases parent@, 0nat,
{
    let ghost whole = children@;
    let ghost fs = filter_views(whole);
    let mut out: Vec<J> = Vec::new();
    let mut rest = children;
    assert(whole.skip(0) =~= whole);
    while rest.len() > 0
        invariant
            parent@ == Filter::And(children) || parent@ == Filter::Or(children),
            whole == children@,
            fs == filter_views(whole),
            rest@ == whole.skip(out@.len() as int),
            out@.len() <= whole.len(),
            j_views(out@) == filters_json(fs).take(out@.len() as int),
        decreases rest@.len(),
    {
        let ghost k = out@.len() as int;
        let ghost old_rest = rest@;
        let child = rest.remove(0);
        assert(child == whole[k]);
        assert(rest@ =~= whole.skip(k + 1));
        proof {
            if parent@ is And {
                assert(decreases_to!(parent@ => parent@->And_0));
            } else {
                assert(decreases_to!(parent@ => parent@->Or_0));
            }
        }
        assert(decreases_to!(children => children@));
        assert(decreases_to!(children@ => children@[k]));
        let j = expr_to_j(child);
        let ghost before = j_views(out@);
        out.push(j);
        assert(j_views(out@) =~= before.push(j@));
        assert(fs[k] == filter_view(whole[k]));
        assert(filters_json(fs).take(k + 1) =~= filters_json(fs).take(k).push(filter_json(fs[k])));
    }
    assert(filters_json(fs).take(whole.len() as int) =~= filters_json(fs));
    out
}

/// The single members of mergeable one-member objects, in order.
fn merge_members(parts: Vec<J>) -> (r: Vec<(String, J)>)
    requires
        mergeable(j_views(parts@)),
    ensures
        member_views(r@) == merged_members(j_views(parts@)),
{
    let ghost js = j_views(parts@);
    let mut merged: Vec<(String, J)> = Vec::new();
    let mut rest = parts;
    assert(js.skip(0) =~= js);
    while rest.len() > 0
        invariant
            js == j_views(parts@),
            mergeable(js),
            j_views(rest@) == js.skip(merged@.len() as int),
            merged@.len() <= js.len(),
            member_views(merged@) == merged_members(js).take(merged@.len() as int),
        decreases rest@.len(),
    {
        let ghost k = merged@.len() as int;
        let ghost old_rest = rest@;
        assert(old_rest.len() > 0);
        assert(j_views(old_rest).len() == old_rest.len());
        assert(k < js.len());
        assert(js.skip(k)[0] == old_rest[0]@);
        let part = rest.remove(0);
        assert(part == old_rest[0]);
        assert(js.skip(k)[0] == js[k]);
        assert(rest@ =~= old_rest.subrange(1, old_rest.len() as int));
        assert(j_views(rest@) =~= j_views(old_rest).subrange(1, old_rest.len() as int));
        assert(j_views(rest@) =~= js.skip(k + 1));
        assert(js[k] == part@);
        match part {
            J::Obj(mut entries) => {
                proof { lemma_obj_view(entries); }
                assert(entries@.len() == 1);
                let entry = entries.remove(0);
                let ghost before = member_views(merged@);
                merged.push(entry);
                assert(member_views(merged@) =~= before.push((entry.0@, entry.1@)));
                assert(merged_members(js).take(k + 1) =~= merged_members(js).take(k).push(js[k]->Obj_0[0]));
            },
            _ => {
                assert(false);
            },
        }
    }
    assert(merged_members(js).take(js.len() as int) =~= merged_members(js));
    merged
}

/// A field reference: a bare column, or a dotted path joined with `.`.
pub open spec fn field_name(e: SqlExpr) -> Result<Seq<char>, Seq<char>> {
    match e.kind {
        SqlExprKind::Identifier(v) => Ok(v@),
        SqlExprKind::Compound(parts) => Ok(join_with(views(parts@), "."@)),
        _ => Err("Expected a field name, found `"@ + e.text@ + "`"@),
    }
}

/// `a`, `b` and `c` run together.
pub open spec fn cat3(a: Seq<char>, b: Seq<char>, c: Seq<char>) -> Seq<char> {
    a + b + c
}

/// A field reference: a bare column or a dotted path (address.city).
fn ident_field(expr: &SqlExpr) -> (r: Result<String, String>)
    ensures
        match (r, field_name(*expr)) {
            (Ok(f), Ok(g)) => f@ == g,
            (Err(m), Err(n)) => m@ == n,
            _ => false,
        },
{
    match &expr.kind {
        SqlExprKind::Identifier(ident) => Ok(ident.clone()),
        SqlExprKind::Compound(parts) => Ok(join_strings(parts.as_slice(), ".")),
        _ => {
            let mut message = "Expected a field name, found `".to_owned();
            push_str(&mut message, expr.text.as_str());
            push_str(&mut message, "`");
            Err(message)
        },
    }
}

/// A literal as a JSON value: an integer (text without a decimal point) that fits 64
/// bits, a double (text with a decimal point) by its JSON text, a string, a boolean or
/// null.
pub open spec fn literal_json(l: SqlLiteral) -> Result<JView, Seq<char>> {
    match l {
        SqlLiteral::Number { text, float_json } => if text@.contains('.') {
            match float_json {
                Some(t) => Ok(JView::Float(t@)),
                None => Err("Invalid number: "@ + text@),
            }
        } else {
            match i64_parse(text@) {
                Some(n) => Ok(JView::Int(n)),
                None => Err("Invalid number: "@ + text@),
            }
        },
        SqlLiteral::Str(s) => Ok(JView::Str(s@)),
        SqlLiteral::Bool(b) => Ok(JView::Bool(b)),
        SqlLiteral::Null => Ok(JView::Null),
        SqlLiteral::Other(d) => Err("Unsupported value: "@ + d@),
    }
}

/// The JSON text of the negation of a double given by its JSON text (`null`, for a
/// double that is not finite, stays `null`).
pub open spec fn negated_float(t: Seq<char>) -> Seq<char> {
    if t == "null"@ {
        t
    } else if t.len() > 0 && t[0] == '-' {
        t.drop_first()
    } else {
        seq!['-'] + t
    }
}

/// The negation of a 64-bit integer, wrapping at the minimum.
pub open spec fn negated_int(n: i64) -> i64 {
    if n == i64::MIN { n } else { (-n) as i64 }
}

/// An expression as a JSON value: a literal, or a signed number.
pub open spec fn expr_json(e: SqlExpr) -> Result<JView, Seq<char>>
    decreases e,
{
    match e.kind {
        SqlExprKind::Literal(l) => literal_json(l),
        SqlExprKind::Minus(x) => match expr_json(*x) {
            Ok(JView::Int(n)) => Ok(JView::Int(negated_int(n))),
            Ok(JView::Float(t)) => Ok(JView::Float(negated_float(t))),
            Ok(_) => Err("Cannot negate a non-numeric value"@),
            Err(m) => Err(m),
        },
        SqlExprKind::Plus(x) => expr_json(*x),
        _ => Err("Expected a value, found `"@ + e.text@ + "`"@),
    }
}

/// Whether a text holds a decimal point.
fn has_point(text: &str) -> (r: bool)
    ensures
        r == text@.contains('.'),
{
    let cs = chars_of(text);
    let mut i: usize = 0;
    while i < cs.len()
        invariant
            i <= cs@.len(),
            cs@ == text@,
            forall|k: int| 0 <= k < i ==> cs@[k] != '.',
        decreases cs@.len() - i,
    {
        if cs[i] == '.' {
            return true;
        }
        i = i + 1;
    }
    false
}

fn value_from_value(value: &SqlLiteral) -> (r: Result<J, String>)
    ensures
        match (r, literal_json(*value)) {
            (Ok(j), Ok(v)) => j@ == v,
            (Err(m), Err(n)) => m@ == n,
            _ => false,
        },
{
    match value {
        SqlLiteral::Number { text, float_json } => {
            if has_point(text.as_str()) {
                match float_json {
                    Some(json) => Ok(J::Float(json.clone())),
                    None => {
                        let mut message = "Invalid number: ".to_owned();
                        push_str(&mut message, text.as_str());
                        Err(message)
                    },
                }
            } else {
                match parse_i64(text.as_str()) {
                    Some(n) => Ok(J::Int(n)),
                    None => {
                        let mut message = "Invalid number: ".to_owned();
                        push_str(&mut message, text.as_str());
                        Err(message)
                    },
                }
            }
        },
        SqlLiteral::Str(s) => Ok(J::Str(s.clone())),
        SqlLiteral::Bool(b) => Ok(J::Bool(*b)),
        SqlLiteral::Null => Ok(J::Null),
        SqlLiteral::Other(d) => {
            let mut message = "Unsupported value: ".to_owned();
            push_str(&mut message, d.as_str());
            Err(message)
        },
    }
}

/// The JSON text of the negation of a double given by its JSON text.
fn negate_float_text(t: &String) -> (r: String)
    ensures
        r@ == negated_float(t@),
{
    if crate::text::str_eq(t.as_str(), "null") {
        return t.clone();
    }
    let cs = chars_of(t.as_str());
    if cs.len() > 0 && cs[0] == '-' {
        let mut out = String::new();
        let mut i: usize = 1;
        while i < cs.len()
            invariant
                1 <= i <= cs@.len(),
                cs@ == t@,
                out@ == cs@.subrange(1, i as int),
            decreases cs@.len() - i,
        {
            push_char(&mut out, cs[i]);
            assert(out@ =~= cs@.subrange(1, i as int + 1));
            i = i + 1;
        }
        assert(cs@.subrange(1, cs@.len() as int) =~= cs@.drop_first());
        out
    } else {
        let mut out = String::new();
        push_char(&mut out, '-');
        push_str(&mut out, t.as_str());
        out
    }
}

fn value_from_expr(expr: &SqlExpr) -> (r: Result<J, String>)
    ensures
        match (r, expr_json(*expr)) {
            (Ok(j), Ok(v)) => j@ == v,
            (Err(m), Err(n)) => m@ == n,
            _ => false,
        },
    decreases expr,
{
    match &expr.kind {
        SqlExprKind::Literal(value) => value_from_value(value),
        SqlExprKind::Minus(inner) => match value_from_expr(inner) {
            Ok(J::Int(n)) => Ok(J::Int(if n == i64::MIN { n } else { -n })),
            Ok(J::Float(t)) => Ok(J::Float(negate_float_text(&t))),
            Ok(_) => Err("Cannot negate a non-numeric value".to_owned()),
            Err(e) => Err(e),
        },
        SqlExprKind::Plus(inner) => value_from_expr(inner),
        _ => {
            let mut message = "Expected a value, found `".to_owned();
            push_str(&mut message, expr.text.as_str());
            push_str(&mut message, "`");
            Err(message)
        },
    }
}

/// A LIKE pattern: a string value.
pub open spec fn pattern_text(e: SqlExpr) -> Result<Seq<char>, Seq<char>> {
    match expr_json(e) {
        Ok(JView::Str(s)) => Ok(s),
        Ok(_) => Err("Expected a pattern string"@),
        Err(m) => Err(m),
    }
}

fn string_literal(expr: &SqlExpr) -> (r: Result<String, String>)
    ensures
        match (r, pattern_text(*expr)) {
            (Ok(s), Ok(t)) => s@ == t,
            (Err(m), Err(n)) => m@ == n,
            _ => false,
        },
{
    match value_from_expr(expr) {
        Ok(J::Str(text)) => Ok(text),
        Ok(_) => Err("Expected a pattern string".to_owned()),
        Err(e) => Err(e),
    }
}

/// The values of a list of expressions, or the first error among them.
pub open spec fn list_json(items: Seq<SqlExpr>) -> Result<Seq<JView>, Seq<char>>
    decreases items.len(),
{
    if items.len() == 0 {
        Ok(seq![])
    } else {
        match list_json(items.drop_last()) {
            Err(m) => Err(m),
            Ok(vs) => match expr_json(items.last()) {
                Ok(v) => Ok(vs.push(v)),
                Err(m) => Err(m),
            },
        }
    }
}

/// The SQL text of an operator the translation names in an error.
pub open spec fn op_text(op: SqlBinOp) -> Seq<char> {
    match op {
        SqlBinOp::And => "AND"@,
        SqlBinOp::Or => "OR"@,
        SqlBinOp::Eq => "="@,
        SqlBinOp::NotEq => "<>"@,
        SqlBinOp::Lt => "<"@,
        SqlBinOp::LtEq => "<="@,
        SqlBinOp::Gt => ">"@,
        SqlBinOp::GtEq => ">="@,
        SqlBinOp::Other(d) => d@,
    }
}

/// A single (non-boolean) comparison as a field condition.
pub open spec fn leaf_filter(e: SqlExpr) -> Result<FilterView, Seq<char>>
    decreases e,
{
    match e.kind {
        SqlExprKind::Nested(inner) => leaf_filter(*inner),
        SqlExprKind::IsNull(inner) => match field_name(*inner) {
            Ok(f) => Ok(FilterView::Leaf(f, CondView::IsNull)),
            Err(m) => Err(m),
        },
        SqlExprKind::IsNotNull(inner) => match field_name(*inner) {
            Ok(f) => Ok(FilterView::Leaf(f, CondView::IsNotNull)),
            Err(m) => Err(m),
        },
        SqlExprKind::Like { negated, any, expr, pattern } => if any {
            Err("LIKE ANY is not supported"@)
        } else {
            match field_name(*expr) {
                Err(m) => Err(m),
                Ok(f) => match pattern_text(*pattern) {
                    Err(m) => Err(m),
                    Ok(p) => Ok(FilterView::Leaf(f,
                        if negated { CondView::NotRegex(like_regex(p)) } else { CondView::Regex(like_regex(p)) })),
                },
            }
        },
        SqlExprKind::InList { expr, list, negated } => match field_name(*expr) {
            Err(m) => Err(m),
            Ok(f) => if list@.len() == 0 {
                Err("IN list cannot be empty"@)
            } else {
                match list_json(list@) {
                    Err(m) => Err(m),
                    Ok(vs) => Ok(FilterView::Leaf(f, if negated { CondView::Nin(vs) } else { CondView::In(vs) })),
                }
            },
        },
        SqlExprKind::Between { expr, negated, low, high } => if negated {
            Err("NOT BETWEEN is not supported yet"@)
        } else {
            match field_name(*expr) {
                Err(m) => Err(m),
                Ok(f) => match expr_json(*low) {
                    Err(m) => Err(m),
                    Ok(a) => match expr_json(*high) {
                        Err(m) => Err(m),
                        Ok(b) => Ok(FilterView::Leaf(f, CondView::Between(a, b))),
                    },
                },
            }
        },
        SqlExprKind::Binary { left, op, right } => match field_name(*left) {
            Err(m) => Err(m),
            Ok(f) => match expr_json(*right) {
                Err(m) => Err(m),
                Ok(v) => match op {
                    SqlBinOp::Eq => Ok(FilterView::Leaf(f, CondView::Eq(v))),
                    SqlBinOp::NotEq => Ok(FilterView::Leaf(f, CondView::Ne(v))),
                    SqlBinOp::Lt => Ok(FilterView::Leaf(f, CondView::Lt(v))),
                    SqlBinOp::LtEq => Ok(FilterView::Leaf(f, CondView::Lte(v))),
                    SqlBinOp::Gt => Ok(FilterView::Leaf(f, CondView::Gt(v))),
                    SqlBinOp::GtEq => Ok(FilterView::Leaf(f, CondView::Gte(v))),
                    _ => Err("Unsupported operator `"@ + op_text(op) + "`"@),
                },
            },
        },
        _ => Err("Unsupported condition: `"@ + e.text@ + "`"@),
    }
}

/// The message naming an unsupported piece of SQL: `prefix`, then the text in backticks.
fn quoted_message(prefix: &str, text: &str) -> (r: String)
    ensures
        r@ == prefix@ + text@ + "`"@,
{
    let mut message = prefix.to_owned();
    push_str(&mut message, text);
    push_str(&mut message, "`");
    message
}

/// Lower a single (non-boolean) comparison node into a field + condition.
fn convert_leaf(expr: &SqlExpr) -> (r: Result<Filter, String>)
    ensures
        match (r, leaf_filter(*expr)) {
            (Ok(f), Ok(g)) => filter_view(f) == g,
            (Err(m), Err(n)) => m@ == n,
            _ => false,
        },
    decreases expr,
{
    match &expr.kind {
        SqlExprKind::Nested(inner) => convert_leaf(inner),
        SqlExprKind::IsNull(inner) => match ident_field(inner) {
            Ok(field) => Ok(Filter::Leaf(field, Cond::IsNull)),
            Err(e) => Err(e),
        },
        SqlExprKind::IsNotNull(inner) => match ident_field(inner) {
            Ok(field) => Ok(Filter::Leaf(field, Cond::IsNotNull)),
            Err(e) => Err(e),
        },
        SqlExprKind::Like { negated, any, expr: field_expr, pattern } => {
            if *any {
                return Err("LIKE ANY is not supported".to_owned());
            }
            let field = match ident_field(field_expr) {
                Ok(val) => val,
                Err(e) => return Err(e),
            };
            let text = match string_literal(pattern) {
                Ok(val) => val,
                Err(e) => return Err(e),
            };
            let regex = like_to_regex(text.as_str());
            let cond = if *negated { Cond::NotRegex(regex) } else { Cond::Regex(regex) };
            Ok(Filter::Leaf(field, cond))
        },
        SqlExprKind::InList { expr: field_expr, list, negated } => {
            let field = match ident_field(field_expr) {
                Ok(val) => val,
                Err(e) => return Err(e),
            };
            if list.len() == 0 {
                return Err("IN list cannot be empty".to_owned());
            }
            let mut values: Vec<J> = Vec::new();
            let mut i: usize = 0;
            assert(list@.take(0) =~= Seq::<SqlExpr>::empty());
            assert(j_views(values@) =~= Seq::<JView>::empty());
            let ghost whole = leaf_filter(*expr);
            assert(whole == match list_json(list@) {
                Err(m) => Err(m),
                Ok(vs) => Ok(FilterView::Leaf(field@, if *negated { CondView::Nin(vs) } else { CondView::In(vs) })),
            });
            while i < list.len()
                invariant
                    i <= list@.len(),
                    whole == leaf_filter(*expr),
                    whole == match list_json(list@) {
                        Err(m) => Err(m),
                        Ok(vs) => Ok(FilterView::Leaf(field@, if *negated { CondView::Nin(vs) } else { CondView::In(vs) })),
                    },
                    list_json(list@.take(i as int)) == Ok::<Seq<JView>, Seq<char>>(j_views(values@)),
                decreases list@.len() - i,
            {
                assert(list@.take(i as int + 1).drop_last() =~= list@.take(i as int));
                match value_from_expr(&list[i]) {
                    Ok(val) => {
                        let ghost before = j_views(values@);
                        values.push(val);
                        assert(j_views(values@) =~= before.push(val@));
                    },
                    Err(e) => {
                        proof {
                            lemma_list_json_error(list@, i as int);
                        }
                        return Err(e);
                    },
                }
                i = i + 1;
            }
            assert(list@.take(list@.len() as int) =~= list@);
            let ghost vs = j_views(values@);
            let cond = if *negated { Cond::Nin(values) } else { Cond::In(values) };
            Ok(Filter::Leaf(field, cond))
        },
        SqlExprKind::Between { expr: field_expr, negated, low, high } => {
            if *negated {
                return Err("NOT BETWEEN is not supported yet".to_owned());
            }
            let field = match ident_field(field_expr) {
                Ok(val) => val,
                Err(e) => return Err(e),
            };
            let low = match value_from_expr(low) {
                Ok(val) => val,
                Err(e) => return Err(e),
            };
            let high = match value_from_expr(high) {
                Ok(val) => val,
                Err(e) => return Err(e),
            };
            Ok(Filter::Leaf(field, Cond::Between(low, high)))
        },
        SqlExprKind::Binary { left, op, right } => {
            let field = match ident_field(left) {
                Ok(val) => val,
                Err(e) => return Err(e),
            };
            let value = match value_from_expr(right) {
                Ok(val) => val,
                Err(e) => return Err(e),
            };
            let cond = match op {
                SqlBinOp::Eq => Cond::Eq(value),
                SqlBinOp::NotEq => Cond::Ne(value),
                SqlBinOp::Lt => Cond::Lt(value),
                SqlBinOp::LtEq => Cond::Lte(value),
                SqlBinOp::Gt => Cond::Gt(value),
                SqlBinOp::GtEq => Cond::Gte(value),
                SqlBinOp::And => return Err(quoted_message("Unsupported operator `", "AND")),
                SqlBinOp::Or => return Err(quoted_message("Unsupported operator `", "OR")),
                SqlBinOp::Other(text) => return Err(quoted_message("Unsupported operator `", text.as_str())),
            };
            Ok(Filter::Leaf(field, cond))
        },
        _ => Err(quoted_message("Unsupported condition: `", expr.text.as_str())),
    }
}

/// When the values of a prefix of a list are known and the next one fails, the list
/// fails with that error.
proof fn lemma_list_json_error(items: Seq<SqlExpr>, i: int)
    requires
        0 <= i < items.len(),
        list_json(items.take(i)) is Ok,
        expr_json(items[i]) is Err,
    ensures
        list_json(items) == Err::<Seq<JView>, Seq<char>>(expr_json(items[i])->Err_0),
    decreases items.len() - i,
{
    let m = expr_json(items[i])->Err_0;
    assert(items.take(i + 1).drop_last() =~= items.take(i));
    assert(list_json(items.take(i + 1)) == Err::<Seq<JView>, Seq<char>>(m));
    lemma_list_json_stays_failed(items, i + 1);
}

/// Once a prefix of a list fails, the whole list fails with the same error.
proof fn lemma_list_json_stays_failed(items: Seq<SqlExpr>, k: int)
    requires
        0 <= k <= items.len(),
        list_json(items.take(k)) is Err,
    ensures
        list_json(items) == list_json(items.take(k)),
    decreases items.len() - k,
{
    if k == items.len() {
        assert(items.take(k) =~= items);
    } else {
        assert(items.take(k + 1).drop_last() =~= items.take(k));
        lemma_list_json_stays_failed(items, k + 1);
    }
}

/// Whether `op` is the boolean connective being flattened (AND when `and`, else OR).
pub open spec fn is_connective(op: SqlBinOp, and: bool) -> bool {
    if and { op is And } else { op is Or }
}

/// A WHERE expression as a filter tree: parentheses are transparent, a chain of ANDs
/// (or ORs) becomes one AND (OR) node over its operands, anything else is a leaf.
pub open spec fn where_filter(e: SqlExpr) -> Result<FilterView, Seq<char>>
    decreases e, 0nat,
{
    match e.kind {
        SqlExprKind::Nested(inner) => where_filter(*inner),
        SqlExprKind::Binary { left, op, right } => if op is And || op is Or {
            let and = op is And;
            match operands(*left, and) {
                Err(m) => Err(m),
                Ok(a) => match operands(*right, and) {
                    Err(m) => Err(m),
                    Ok(b) => Ok(if and { FilterView::And(a + b) } else { FilterView::Or(a + b) }),
                },
            }
        } else {
            leaf_filter(e)
        },
        _ => leaf_filter(e),
    }
}

/// The operands of a left-associative chain of one connective, each converted;
/// parentheses end a chain.
pub open spec fn operands(e: SqlExpr, and: bool) -> Result<Seq<FilterView>, Seq<char>>
    decreases e, 1nat,
{
    match e.kind {
        SqlExprKind::Binary { left, op, right } => if is_connective(op, and) {
            match operands(*left, and) {
                Err(m) => Err(m),
                Ok(a) => match operands(*right, and) {
                    Err(m) => Err(m),
                    Ok(b) => Ok(a + b),
                },
            }
        } else {
            match where_filter(e) {
                Ok(f) => Ok(seq![f]),
                Err(m) => Err(m),
            }
        },
        _ => match where_filter(e) {
            Ok(f) => Ok(seq![f]),
            Err(m) => Err(m),
        },
    }
}

/// Collect the operands of a left-associative chain of the same boolean operator into
/// one flat list (so `a AND b AND c` merges rather than nesting). Parentheses are a
/// boundary: they recurse through `convert_where` instead.
fn flatten_bool(expr: &SqlExpr, and: bool, out: &mut Vec<Filter>) -> (r: Result<(), String>)
    ensures
        match operands(*expr, and) {
            Ok(fs) => r is Ok && filter_views(final(out)@) == filter_views(old(out)@) + fs,
            Err(m) => r matches Err(e) && e@ == m,
        },
    decreases expr, 1nat,
{
    let ghost start = filter_views(out@);
    match &expr.kind {
        SqlExprKind::Binary { left, op, right } => {
            let same = match op {
                SqlBinOp::And => and,
                SqlBinOp::Or => !and,
                _ => false,
            };
            if same {
                match flatten_bool(left, and, out) {
                    Ok(()) => {},
                    Err(e) => return Err(e),
                }
                let ghost middle = filter_views(out@);
                let res = flatten_bool(right, and, out);
                proof {
                    if res is Ok {
                        let a = operands(**left, and)->Ok_0;
                        let b = operands(**right, and)->Ok_0;
                        assert(filter_views(out@) =~= start + (a + b));
                    }
                }
                return res;
            }
        },
        _ => {},
    }
    match convert_where(expr) {
        Ok(val) => {
            let ghost f = filter_view(val);
            out.push(val);
            assert(filter_views(out@) =~= start + seq![f]);
            Ok(())
        },
        Err(e) => Err(e),
    }
}

/// A WHERE expression as a filter tree.
fn convert_where(expr: &SqlExpr) -> (r: Result<Filter, String>)
    ensures
        match (r, where_filter(*expr)) {
            (Ok(f), Ok(g)) => filter_view(f) == g,
            (Err(m), Err(n)) => m@ == n,
            _ => false,
        },
    decreases expr, 0nat,
{
    match &expr.kind {
        SqlExprKind::Nested(inner) => convert_where(inner),
        SqlExprKind::Binary { left, op, right } => {
            let and = match op {
                SqlBinOp::And => true,
                SqlBinOp::Or => false,
                _ => {
                    return convert_leaf(expr);
                },
            };
            let mut parts: Vec<Filter> = Vec::new();
            assert(filter_views(parts@) =~= Seq::<FilterView>::empty());
            match flatten_bool(left, and, &mut parts) {
                Ok(()) => {},
                Err(e) => return Err(e),
            }
            match flatten_bool(right, and, &mut parts) {
                Ok(()) => {},
                Err(e) => return Err(e),
            }
            proof {
                lemma_branch_view(parts);
                let a = operands(**left, and)->Ok_0;
                let b = operands(**right, and)->Ok_0;
                assert(filter_views(parts@) =~= a + b);
            }
            if and { Ok(Filter::And(parts)) } else { Ok(Filter::Or(parts)) }
        },
        _ => convert_leaf(expr),
    }
}

/// The pieces of a MongoDB find query: the collection, the filter, projection and
/// sort documents as pretty-printed JSON, and the limit and skip.
#[derive(Debug)]
pub struct MqlQuery {
    pub collection: String,
    pub filter: String,
    pub projection: String,
    pub sort: String,
    pub limit: Option<i64>,
    pub skip: Option<i64>,
}

/// The mathematical form of a translated query.
pub struct MqlView {
    pub collection: Seq<char>,
    pub filter: Seq<char>,
    pub projection: Seq<char>,
    pub sort: Seq<char>,
    pub limit: Option<i64>,
    pub skip: Option<i64>,
}

/// The view of a translated query.
pub open spec fn mql_view(q: MqlQuery) -> MqlView {
    MqlView {
        collection: q.collection@,
        filter: q.filter@,
        projection: q.projection@,
        sort: q.sort@,
        limit: q.limit,
        skip: q.skip,
    }
}

/// A projected field: a bare column or dotted path; functions and other expressions
/// are refused.
pub open spec fn projected_field(e: SqlExpr) -> Result<Seq<char>, Seq<char>> {
    match e.kind {
        SqlExprKind::Identifier(v) => Ok(v@),
        SqlExprKind::Compound(parts) => Ok(join_with(views(parts@), "."@)),
        SqlExprKind::Function => Err("Aggregate/function projection is not supported yet — only plain column selection"@),
        _ => Err("Only plain column names are supported in SELECT, found `"@ + e.text@ + "`"@),
    }
}

/// Reading a SELECT list from the front: the projected fields so far, a `*` (all
/// fields), or the first error.
pub enum ProjectionScan {
    Fields(Seq<(Seq<char>, JView)>),
    Star,
    Fail(Seq<char>),
}

/// Reading the SELECT list from the front.
pub open spec fn scan_projection(items: Seq<SqlSelectItem>) -> ProjectionScan
    decreases items.len(),
{
    if items.len() == 0 {
        ProjectionScan::Fields(seq![])
    } else {
        match items[0] {
            SqlSelectItem::Wildcard => ProjectionScan::Star,
            SqlSelectItem::Unnamed(e) | SqlSelectItem::Aliased(e) => match projected_field(e) {
                Err(m) => ProjectionScan::Fail(m),
                Ok(f) => match scan_projection(items.drop_first()) {
                    ProjectionScan::Fields(fs) => ProjectionScan::Fields(seq![(f, JView::Int(1))] + fs),
                    other => other,
                },
            },
            SqlSelectItem::Other(d) => ProjectionScan::Fail("Unsupported SELECT item: `"@ + d@ + "`"@),
        }
    }
}

/// The projection document's members: each selected field with 1 (an alias is
/// ignored); a `*` anywhere (before an error) selects all fields, an empty projection.
pub open spec fn projection_members(items: Seq<SqlSelectItem>) -> Result<Seq<(Seq<char>, JView)>, Seq<char>> {
    match scan_projection(items) {
        ProjectionScan::Fields(fs) => Ok(fs),
        ProjectionScan::Star => Ok(seq![]),
        ProjectionScan::Fail(m) => Err(m),
    }
}

fn projection_field(expr: &SqlExpr) -> (r: Result<String, String>)
    ensures
        match (r, projected_field(*expr)) {
            (Ok(f), Ok(g)) => f@ == g,
            (Err(m), Err(n)) => m@ == n,
            _ => false,
        },
{
    match &expr.kind {
        SqlExprKind::Identifier(ident) => Ok(ident.clone()),
        SqlExprKind::Compound(parts) => Ok(join_strings(parts.as_slice(), ".")),
        SqlExprKind::Function => Err(
            "Aggregate/function projection is not supported yet — only plain column selection".to_owned(),
        ),
        _ => Err(quoted_message("Only plain column names are supported in SELECT, found `", expr.text.as_str())),
    }
}

fn convert_projection(items: &Vec<SqlSelectItem>) -> (r: Result<Vec<(String, J)>, String>)
    ensures
        match (r, projection_members(items@)) {
            (Ok(v), Ok(w)) => member_views(v@) == w,
            (Err(m), Err(n)) => m@ == n,
            _ => false,
        },
{
    let mut out: Vec<(String, J)> = Vec::new();
    let mut i: usize = 0;
    assert(items@.skip(0) =~= items@);
    assert(member_views(out@) =~= Seq::<(Seq<char>, JView)>::empty());
    while i < items.len()
        invariant
            i <= items@.len(),
            scan_projection(items@) == match scan_projection(items@.skip(i as int)) {
                ProjectionScan::Fields(fs) => ProjectionScan::Fields(member_views(out@) + fs),
                other => other,
            },
        decreases items@.len() - i,
    {
        let ghost rest = items@.skip(i as int);
        assert(rest[0] == items@[i as int]);
        assert(rest.drop_first() =~= items@.skip(i as int + 1));
        match &items[i] {
            SqlSelectItem::Wildcard => {
                return Ok(Vec::new());
            },
            SqlSelectItem::Unnamed(expr) | SqlSelectItem::Aliased(expr) => {
                let field = match projection_field(expr) {
                    Ok(val) => val,
                    Err(e) => return Err(e),
                };
                let ghost before = member_views(out@);
                let ghost entry = (field@, JView::Int(1));
                out.push((field, J::Int(1)));
                assert(member_views(out@) =~= before.push(entry));
                assert forall|fs: Seq<(Seq<char>, JView)>| before + (seq![entry] + fs) == member_views(out@) + fs by {
                    assert(before + (seq![entry] + fs) =~= member_views(out@) + fs);
                }
            },
            SqlSelectItem::Other(text) => {
                return Err(quoted_message("Unsupported SELECT item: `", text.as_str()));
            },
        }
        i = i + 1;
    }
    assert(items@.skip(items@.len() as int) =~= Seq::<SqlSelectItem>::empty());
    assert(member_views(out@) + Seq::<(Seq<char>, JView)>::empty() =~= member_views(out@));
    Ok(out)
}

/// The collection a FROM clause names: exactly one plain table, without joins, alias
/// or arguments; its name's parts joined with `.`.
pub open spec fn from_collection(from: Seq<SqlTable>) -> Result<Seq<char>, Seq<char>> {
    if from.len() != 1 {
        Err("Expected exactly one table in FROM"@)
    } else if from[0].has_joins {
        Err("JOINs are not supported yet"@)
    } else {
        match from[0].relation {
            SqlRelation::Table { name, has_alias, has_args } => if has_alias {
                Err("Table aliases are not supported"@)
            } else if has_args {
                Err("Table-valued functions are not supported"@)
            } else {
                Ok(join_with(views(name@), "."@))
            },
            SqlRelation::Other => Err("Unsupported table expression in FROM"@),
        }
    }
}

fn convert_from(from: &Vec<SqlTable>) -> (r: Result<String, String>)
    ensures
        match (r, from_collection(from@)) {
            (Ok(s), Ok(t)) => s@ == t,
            (Err(m), Err(n)) => m@ == n,
            _ => false,
        },
{
    if from.len() != 1 {
        return Err("Expected exactly one table in FROM".to_owned());
    }
    let table = &from[0];
    if table.has_joins {
        return Err("JOINs are not supported yet".to_owned());
    }
    match &table.relation {
        SqlRelation::Table { name, has_alias, has_args } => {
            if *has_alias {
                return Err("Table aliases are not supported".to_owned());
            }
            if *has_args {
                return Err("Table-valued functions are not supported".to_owned());
            }
            Ok(join_strings(name.as_slice(), "."))
        },
        SqlRelation::Other => Err("Unsupported table expression in FROM".to_owned()),
    }
}

/// The sort members of ORDER BY expressions: each field with -1 for DESC, else 1.
pub open spec fn order_members(list: Seq<SqlOrderExpr>) -> Result<Seq<(Seq<char>, JView)>, Seq<char>>
    decreases list.len(),
{
    if list.len() == 0 {
        Ok(seq![])
    } else {
        match order_members(list.drop_last()) {
            Err(m) => Err(m),
            Ok(fs) => match field_name(list.last().expr) {
                Err(m) => Err(m),
                Ok(f) => Ok(fs.push((f, JView::Int(if list.last().asc == Some(false) { -1i64 } else { 1i64 })))),
            },
        }
    }
}

/// The sort document's members of an ORDER BY clause (none without one).
pub open spec fn sort_members(order_by: Option<SqlOrderBy>) -> Result<Seq<(Seq<char>, JView)>, Seq<char>> {
    match order_by {
        None => Ok(seq![]),
        Some(SqlOrderBy::Expressions(list)) => order_members(list@),
        Some(SqlOrderBy::All) => Err("ORDER BY ALL is not supported"@),
    }
}

/// Once a prefix of the ORDER BY list fails, the whole list fails the same way.
proof fn lemma_order_stays_failed(list: Seq<SqlOrderExpr>, k: int)
    requires
        0 <= k <= list.len(),
        order_members(list.take(k)) is Err,
    ensures
        order_members(list) == order_members(list.take(k)),
    decreases list.len() - k,
{
    if k == list.len() {
        assert(list.take(k) =~= list);
    } else {
        assert(list.take(k + 1).drop_last() =~= list.take(k));
        lemma_order_stays_failed(list, k + 1);
    }
}

fn convert_order_by(order_by: &Option<SqlOrderBy>) -> (r: Result<Vec<(String, J)>, String>)
    ensures
        match (r, sort_members(*order_by)) {
            (Ok(v), Ok(w)) => member_views(v@) == w,
            (Err(m), Err(n)) => m@ == n,
            _ => false,
        },
{
    let mut out: Vec<(String, J)> = Vec::new();
    let ghost whole = sort_members(*order_by);
    let ob = match order_by {
        Some(val) => val,
        None => {
            assert(member_views(out@) =~= Seq::<(Seq<char>, JView)>::empty());
            return Ok(out);
        },
    };
    match ob {
        SqlOrderBy::Expressions(exprs) => {
            let mut i: usize = 0;
            assert(exprs@.take(0) =~= Seq::<SqlOrderExpr>::empty());
            assert(member_views(out@) =~= Seq::<(Seq<char>, JView)>::empty());
            assert(whole == order_members(exprs@));
            while i < exprs.len()
                invariant
                    i <= exprs@.len(),
                    whole == order_members(exprs@),
                    whole == sort_members(*order_by),
                    order_members(exprs@.take(i as int)) == Ok::<Seq<(Seq<char>, JView)>, Seq<char>>(member_views(out@)),
                decreases exprs@.len() - i,
            {
                assert(exprs@.take(i as int + 1).drop_last() =~= exprs@.take(i as int));
                assert(exprs@.take(i as int + 1).last() == exprs@[i as int]);
                let field = match ident_field(&exprs[i].expr) {
                    Ok(val) => val,
                    Err(e) => {
                        proof {
                            lemma_order_stays_failed(exprs@, i as int + 1);
                        }
                        return Err(e);
                    },
                };
                let dir: i64 = match exprs[i].asc {
                    Some(false) => -1,
                    _ => 1,
                };
                let ghost before = member_views(out@);
                let ghost entry = (field@, JView::Int(dir));
                out.push((field, J::Int(dir)));
                assert(member_views(out@) =~= before.push(entry));
                i = i + 1;
            }
            assert(exprs@.take(exprs@.len() as int) =~= exprs@);
            Ok(out)
        },
        SqlOrderBy::All => Err("ORDER BY ALL is not supported".to_owned()),
    }
}

/// An integer value.
pub open spec fn int_value(e: SqlExpr) -> Result<i64, Seq<char>> {
    match expr_json(e) {
        Ok(JView::Int(n)) => Ok(n),
        Ok(_) => Err("Expected an integer"@),
        Err(m) => Err(m),
    }
}

fn expect_int(expr: &SqlExpr) -> (r: Result<i64, String>)
    ensures
        match (r, int_value(*expr)) {
            (Ok(n), Ok(k)) => n == k,
            (Err(m), Err(e)) => m@ == e,
            _ => false,
        },
{
    match value_from_expr(expr) {
        Ok(J::Int(num)) => Ok(num),
        Ok(_) => Err("Expected an integer".to_owned()),
        Err(e) => Err(e),
    }
}

/// The limit and skip of a LIMIT clause.
pub open spec fn limit_skip(limit: Option<SqlLimit>) -> Result<(Option<i64>, Option<i64>), Seq<char>> {
    match limit {
        None => Ok((None, None)),
        Some(SqlLimit::LimitOffset { limit, offset, has_limit_by }) => if has_limit_by {
            Err("LIMIT BY is not supported"@)
        } else {
            let l = match limit { Some(e) => match int_value(e) { Ok(n) => Ok(Some(n)), Err(m) => Err(m) }, None => Ok(None) };
            match l {
                Err(m) => Err(m),
                Ok(lv) => match offset {
                    Some(e) => match int_value(e) { Ok(n) => Ok((lv, Some(n))), Err(m) => Err(m) },
                    None => Ok((lv, None)),
                },
            }
        },
        Some(SqlLimit::OffsetCommaLimit) => Err("`LIMIT offset, count` syntax is not supported"@),
    }
}

fn convert_limit(limit_clause: &Option<SqlLimit>) -> (r: Result<(Option<i64>, Option<i64>), String>)
    ensures
        match (r, limit_skip(*limit_clause)) {
            (Ok(a), Ok(b)) => a == b,
            (Err(m), Err(n)) => m@ == n,
            _ => false,
        },
{
    match limit_clause {
        None => Ok((None, None)),
        Some(SqlLimit::LimitOffset { limit, offset, has_limit_by }) => {
            if *has_limit_by {
                return Err("LIMIT BY is not supported".to_owned());
            }
            let limit_val = match limit {
                Some(expr) => match expect_int(expr) {
                    Ok(val) => Some(val),
                    Err(e) => return Err(e),
                },
                None => None,
            };
            let skip_val = match offset {
                Some(expr) => match expect_int(expr) {
                    Ok(val) => Some(val),
                    Err(e) => return Err(e),
                },
                None => None,
            };
            Ok((limit_val, skip_val))
        },
        Some(SqlLimit::OffsetCommaLimit) => Err("`LIMIT offset, count` syntax is not supported".to_owned()),
    }
}

/// The find query that a parsed SQL text translates to, or the message saying why it
/// does not: exactly one statement, a plain SELECT with a non-empty SELECT list and no
/// DISTINCT, HAVING or GROUP BY; then the projection, the collection, the filter, the
/// sort and the limit/skip, each as above, the first error winning in that order.
pub open spec fn translation(parsed: Result<Seq<SqlStatement>, Seq<char>>) -> Result<MqlView, Seq<char>> {
    match parsed {
        Err(e) => Err(e),
        Ok(statements) => if statements.len() != 1 {
            Err("Expected a single SELECT statement"@)
        } else {
            match statements[0] {
                SqlStatement::Other => Err("Only SELECT queries are supported"@),
                SqlStatement::Query(q) => match q.body {
                    SqlBody::Other => Err("Only simple SELECT queries are supported"@),
                    SqlBody::Select(s) => select_translation(s, q.order_by, q.limit),
                },
            }
        },
    }
}

/// The find query of a plain SELECT with its ORDER BY and LIMIT clauses.
pub open spec fn select_translation(s: SqlSelect, order_by: Option<SqlOrderBy>, limit: Option<SqlLimit>) -> Result<MqlView, Seq<char>> {
    if s.projection@.len() == 0 {
        Err("Query must start with SELECT"@)
    } else if s.distinct {
        Err("DISTINCT is not supported yet"@)
    } else if s.having {
        Err("HAVING is not supported yet"@)
    } else if s.grouped {
        Err("GROUP BY is not supported yet"@)
    } else {
        match projection_members(s.projection@) {
            Err(m) => Err(m),
            Ok(proj) => match from_collection(s.from@) {
                Err(m) => Err(m),
                Ok(coll) => {
                    let filter = match s.selection {
                        Some(e) => match where_filter(e) { Ok(f) => Ok(filter_json(f)), Err(m) => Err(m) },
                        None => Ok(JView::Obj(seq![])),
                    };
                    match filter {
                        Err(m) => Err(m),
                        Ok(fj) => match sort_members(order_by) {
                            Err(m) => Err(m),
                            Ok(sort) => match limit_skip(limit) {
                                Err(m) => Err(m),
                                Ok((l, k)) => Ok(MqlView {
                                    collection: coll,
                                    filter: pretty(fj, seq![]),
                                    projection: pretty(JView::Obj(proj), seq![]),
                                    sort: pretty(JView::Obj(sort), seq![]),
                                    limit: l,
                                    skip: k,
                                }),
                            },
                        },
                    }
                },
            },
        }
    }
}

/// The statements of a parse, or the parser's message.
pub open spec fn parsed_view(parsed: Result<Vec<SqlStatement>, String>) -> Result<Seq<SqlStatement>, Seq<char>> {
    match parsed {
        Ok(v) => Ok(v@),
        Err(e) => Err(e@),
    }
}

/// Translate a parsed SQL SELECT into the pieces of an equivalent MongoDB find query.
pub fn translate_statements(parsed: Result<Vec<SqlStatement>, String>) -> (r: Result<MqlQuery, String>)
    ensures
        match (r, translation(parsed_view(parsed))) {
            (Ok(q), Ok(v)) => mql_view(q) == v,
            (Err(m), Err(n)) => m@ == n,
            _ => false,
        },
{
    let ghost pv = parsed_view(parsed);
    let statements = match parsed {
        Ok(val) => val,
        Err(e) => return Err(e),
    };
    if statements.len() != 1 {
        return Err("Expected a single SELECT statement".to_owned());
    }
    let statement = &statements[0];
    let query = match statement {
        SqlStatement::Query(query) => query,
        SqlStatement::Other => return Err("Only SELECT queries are supported".to_owned()),
    };
    let select = match &query.body {
        SqlBody::Select(select) => select,
        SqlBody::Other => return Err("Only simple SELECT queries are supported".to_owned()),
    };
    if select.projection.len() == 0 {
        return Err("Query must start with SELECT".to_owned());
    }
    if select.distinct {
        return Err("DISTINCT is not supported yet".to_owned());
    }
    if select.having {
        return Err("HAVING is not supported yet".to_owned());
    }
    if select.grouped {
        return Err("GROUP BY is not supported yet".to_owned());
    }
    let projection = match convert_projection(&select.projection) {
        Ok(val) => val,
        Err(e) => return Err(e),
    };
    let collection = match convert_from(&select.from) {
        Ok(val) => val,
        Err(e) => return Err(e),
    };
    let filter = match &select.selection {
        Some(expr) => match convert_where(expr) {
            Ok(val) => expr_to_j(val),
            Err(e) => return Err(e),
        },
        None => {
            let empty: Vec<(String, J)> = Vec::new();
            proof {
                lemma_obj_view(empty);
                assert(member_views(empty@) =~= Seq::<(Seq<char>, JView)>::empty());
            }
            J::Obj(empty)
        },
    };
    let sort = match convert_order_by(&query.order_by) {
        Ok(val) => val,
        Err(e) => return Err(e),
    };
    let (limit, skip) = match convert_limit(&query.limit) {
        Ok(val) => val,
        Err(e) => return Err(e),
    };
    proof {
        lemma_obj_view(projection);
        lemma_obj_view(sort);
    }
    let projection_j = J::Obj(projection);
    let sort_j = J::Obj(sort);
    proof {
        reveal_strlit("");
    }
    let q = MqlQuery {
        collection: collection,
        filter: filter.to_pretty(""),
        projection: projection_j.to_pretty(""),
        sort: sort_j.to_pretty(""),
        limit: limit,
        skip: skip,
    };
    Ok(q)
}

/// The MQL comparison operator that stands for an SQL comparison operator.
pub open spec fn mql_operator(op: SqlBinOp) -> Option<Seq<char>> {
    match op {
        SqlBinOp::NotEq => Some("$ne"@),
        SqlBinOp::Lt => Some("$lt"@),
        SqlBinOp::LtEq => Some("$lte"@),
        SqlBinOp::Gt => Some("$gt"@),
        SqlBinOp::GtEq => Some("$gte"@),
        _ => None,
    }
}

/// Whether `op` compares two values (`=`, `<>`, `<`, `<=`, `>`, `>=`).
pub open spec fn is_comparison(op: SqlBinOp) -> bool {
    op is Eq || op is NotEq || op is Lt || op is LtEq || op is Gt || op is GtEq
}

/// Whether `x op v` holds in SQL, for integers.
pub open spec fn sql_compare_holds(op: SqlBinOp, x: int, v: int) -> bool {
    match op {
        SqlBinOp::Eq => x == v,
        SqlBinOp::NotEq => x != v,
        SqlBinOp::Lt => x < v,
        SqlBinOp::LtEq => x <= v,
        SqlBinOp::Gt => x > v,
        SqlBinOp::GtEq => x >= v,
        _ => false,
    }
}

/// Whether an integer field value `x` is selected by an MQL field condition that is an
/// integer (equality) or a one-operator object `{"$ne" | "$lt" | "$lte" | "$gt" | "$gte": n}`,
/// as MongoDB evaluates those operators.
pub open spec fn mql_selects_int(cond: JView, x: int) -> bool {
    match cond {
        JView::Int(v) => x == v,
        JView::Obj(m) => m.len() == 1 && (m[0].1 matches JView::Int(v) && {
            let k = m[0].0;
            ||| k == "$ne"@ && x != v
            ||| k == "$lt"@ && x < v
            ||| k == "$lte"@ && x <= v
            ||| k == "$gt"@ && x > v
            ||| k == "$gte"@ && x >= v
        }),
        _ => false,
    }
}

/// A WHERE clause `field op value` with a comparison operator becomes the filter
/// `{field: value}` for `=` and `{field: {"$op": value}}` otherwise, where `$op` is the
/// MQL operator of the same meaning: `<>` is `$ne`, `<` is `$lt`, `<=` is `$lte`, `>` is
/// `$gt` and `>=` is `$gte`.
pub proof fn law_comparisons_become_operator_filters(left: SqlExpr, op: SqlBinOp, right: SqlExpr, text: String)
    requires
        field_name(left) is Ok,
        expr_json(right) is Ok,
        is_comparison(op),
    ensures
        ({
            let e = SqlExpr { kind: SqlExprKind::Binary { left: Box::new(left), op: op, right: Box::new(right) }, text: text };
            let f = field_name(left)->Ok_0;
            let v = expr_json(right)->Ok_0;
            &&& where_filter(e) is Ok
            &&& op is Eq ==> filter_json(where_filter(e)->Ok_0) == JView::Obj(seq![(f, v)])
            &&& !(op is Eq) ==> filter_json(where_filter(e)->Ok_0)
                == JView::Obj(seq![(f, JView::Obj(seq![(mql_operator(op)->Some_0, v)]))])
        }),
{
}

/// For an integer literal, the filter of a WHERE clause `field op n` selects exactly
/// the integer field values `x` for which `x op n` holds in SQL: in particular `<=` and
/// `>=` select `x == n`, `<` and `>` do not.
pub proof fn law_comparison_filter_selects_as_sql(left: SqlExpr, op: SqlBinOp, right: SqlExpr, text: String, n: i64)
    requires
        field_name(left) is Ok,
        expr_json(right) == Ok::<JView, Seq<char>>(JView::Int(n)),
        is_comparison(op),
    ensures
        ({
            let e = SqlExpr { kind: SqlExprKind::Binary { left: Box::new(left), op: op, right: Box::new(right) }, text: text };
            &&& where_filter(e) is Ok
            &&& filter_json(where_filter(e)->Ok_0) matches JView::Obj(m)
            &&& m.len() == 1
            &&& m[0].0 == field_name(left)->Ok_0
            &&& forall|x: int| #[trigger] mql_selects_int(m[0].1, x) <==> sql_compare_holds(op, x, n as int)
        }),
{
    reveal_strlit("$ne");
    reveal_strlit("$lt");
    reveal_strlit("$lte");
    reveal_strlit("$gt");
    reveal_strlit("$gte");
    law_comparisons_become_operator_filters(left, op, right, text);
    let e = SqlExpr { kind: SqlExprKind::Binary { left: Box::new(left), op: op, right: Box::new(right) }, text: text };
    let c = match filter_json(where_filter(e)->Ok_0) {
        JView::Obj(m) => m[0].1,
        _ => JView::Null,
    };
    lemma_operator_names_distinct();
    assert forall|x: int| #[trigger] mql_selects_int(c, x) <==> sql_compare_holds(op, x, n as int) by {
        if !(op is Eq) {
            let k = mql_operator(op)->Some_0;
            assert(c == JView::Obj(seq![(k, JView::Int(n))]));
            assert(c->Obj_0[0] == (k, JView::Int(n)));
        }
    }
}

/// The five MQL comparison operator names differ from one another.
proof fn lemma_operator_names_distinct()
    ensures
        "$ne"@ != "$lt"@, "$ne"@ != "$lte"@, "$ne"@ != "$gt"@, "$ne"@ != "$gte"@,
        "$lt"@ != "$lte"@, "$lt"@ != "$gt"@, "$lt"@ != "$gte"@,
        "$lte"@ != "$gt"@, "$lte"@ != "$gte"@, "$gt"@ != "$gte"@,
{
    reveal_strlit("$ne");
    reveal_strlit("$lt");
    reveal_strlit("$lte");
    reveal_strlit("$gt");
    reveal_strlit("$gte");
    assert("$ne"@[1] != "$lt"@[1]);
    assert("$ne"@[1] != "$gt"@[1]);
    assert("$lt"@[1] != "$gt"@[1]);
    assert("$lte"@[1] != "$gte"@[1]);
    assert("$ne"@.len() != "$lte"@.len());
    assert("$ne"@.len() != "$gte"@.len());
    assert("$lt"@.len() != "$lte"@.len());
    assert("$lt"@.len() != "$gte"@.len());
    assert("$gt"@.len() != "$lte"@.len());
    assert("$gt"@.len() != "$gte"@.len());
}

}
