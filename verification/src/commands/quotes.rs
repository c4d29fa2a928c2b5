//! Straightening typographic quotes in query text typed or pasted with "smart quotes".

use vstd::prelude::*;
use crate::text::{chars_of, push_char};

verus! {

/// A curly double quote becomes `"`, a curly single quote becomes `'`, and every other
/// character stays.
pub open spec fn straight_quote(c: char) -> char {
    if c == '\u{201C}' || c == '\u{201D}' {
        '"'
    } else if c == '\u{2018}' || c == '\u{2019}' {
        '\''
    } else {
        c
    }
}

/// The text with every curly quote straightened.
pub open spec fn straightened(s: Seq<char>) -> Seq<char> {
    s.map_values(|c: char| straight_quote(c))
}

/// Operating systems may substitute curly quotes for `"` and `'` at the text-input
/// layer; normalizing here lets a query typed (or pasted from a rich-text source) with
/// curly quotes still parse.
pub fn normalize_smart_quotes(value: &str) -> (r: String)
    ensures
        r@ == straightened(value@),
{
    let cs = chars_of(value);
    let mut out = String::new();
    let mut i: usize = 0;
    while i < cs.len()
        invariant
            i <= cs@.len(),
            cs@ == value@,
            out@ == straightened(cs@.take(i as int)),
        decreases cs@.len() - i,
    {
        let c = cs[i];
        let d = if c == '\u{201C}' || c == '\u{201D}' {
            '"'
        } else if c == '\u{2018}' || c == '\u{2019}' {
            '\''
        } else {
            c
        };
        push_char(&mut out, d);
        assert(straightened(cs@.take(i as int + 1)) =~= straightened(cs@.take(i as int)).push(d));
        i = i + 1;
    }
    assert(cs@.take(cs@.len() as int) =~= cs@);
    out
}

/// Straightening keeps the length, changes only curly quotes, and leaves no curly
/// quote behind.
pub proof fn law_straightening_changes_only_curly_quotes(s: Seq<char>)
    ensures
        straightened(s).len() == s.len(),
        forall|i: int| 0 <= i < s.len() && s[i] != '\u{201C}' && s[i] != '\u{201D}'
            && s[i] != '\u{2018}' && s[i] != '\u{2019}' ==> #[trigger] straightened(s)[i] == s[i],
        forall|i: int| 0 <= i < s.len() ==> {
            let c = #[trigger] straightened(s)[i];
            c != '\u{201C}' && c != '\u{201D}' && c != '\u{2018}' && c != '\u{2019}'
        },
        straightened(straightened(s)) == straightened(s),
{
    assert(straightened(straightened(s)) =~= straightened(s));
}

}
