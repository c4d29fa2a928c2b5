//! Number literals as std's parsers accept them: integers with an optional sign,
//! and the decimal / exponent / infinity / NaN forms of floating-point text.

use vstd::prelude::*;

verus! {

/// An ASCII decimal digit.
pub open spec fn is_digit(c: char) -> bool {
    '0' <= c && c <= '9'
}

/// One or more ASCII decimal digits.
pub open spec fn all_digits(d: Seq<char>) -> bool {
    d.len() > 0 && forall|i: int| 0 <= i < d.len() ==> is_digit(#[trigger] d[i])
}

/// The value of a run of decimal digits, most significant first.
pub open spec fn digits_value(d: Seq<char>) -> nat
    decreases d.len(),
{
    if d.len() == 0 {
        0
    } else {
        digits_value(d.drop_last()) * 10 + ((d.last() as int) - ('0' as int)) as nat
    }
}

/// The integer that `s` spells: an optional `+` or `-`, then one or more ASCII digits
/// and nothing else (no spaces).
pub open spec fn integer_literal(s: Seq<char>) -> Option<int> {
    if s.len() > 0 && (s[0] == '+' || s[0] == '-') {
        if all_digits(s.drop_first()) {
            Some(if s[0] == '-' { -digits_value(s.drop_first()) } else { digits_value(s.drop_first()) as int })
        } else {
            None
        }
    } else if all_digits(s) {
        Some(digits_value(s) as int)
    } else {
        None
    }
}

/// What std's `i64` parsing gives for `s`: the literal's value when it fits.
pub open spec fn i64_parse(s: Seq<char>) -> Option<i64> {
    match integer_literal(s) {
        Some(n) => if i64::MIN <= n <= i64::MAX { Some(n as i64) } else { None },
        None => None,
    }
}

/// A longer run of digits is worth at least as much as its beginning.
proof fn lemma_digits_grow(d: Seq<char>, k: int)
    requires
        0 <= k <= d.len(),
        forall|i: int| 0 <= i < d.len() ==> is_digit(#[trigger] d[i]),
    ensures
        digits_value(d) >= digits_value(d.take(k)),
    decreases d.len() - k,
{
    if k < d.len() {
        lemma_digits_grow(d, k + 1);
        let t = d.take(k + 1);
        assert(t.drop_last() =~= d.take(k));
        assert(t.last() == d[k]);
        assert(is_digit(d[k]));
    } else {
        assert(d.take(k) =~= d);
    }
}

/// Parses a signed 64-bit integer as std's `str::parse::<i64>` does: an optional sign
/// followed by digits only, with the value in range; anything else (empty text,
/// spaces, other characters, overflow) is no number.
pub fn parse_i64(s: &str) -> (r: Option<i64>)
    ensures
        r == i64_parse(s@),
{
    let cs = crate::text::chars_of(s);
    let n = cs.len();
    if n == 0 {
        return None;
    }
    let negative = cs[0] == '-';
    let start: usize = if cs[0] == '+' || cs[0] == '-' { 1 } else { 0 };
    let ghost d = cs@.skip(start as int);
    if start == n {
        assert(d.len() == 0);
        return None;
    }
    let limit: u64 = if negative { 9223372036854775808u64 } else { 9223372036854775807u64 };
    let mut acc: u64 = 0;
    let mut i: usize = start;
    while i < n
        invariant
            start <= i <= n,
            n == cs@.len(),
            cs@ == s@,
            d == cs@.skip(start as int),
            acc <= limit,
            limit <= 9223372036854775808u64,
            start <= 1,
            n > 0,
            (start == 1) == (cs@[0] == '+' || cs@[0] == '-'),
            negative == (cs@[0] == '-'),
            limit == (if negative { 9223372036854775808u64 } else { 9223372036854775807u64 }),
            forall|k: int| 0 <= k < i - start ==> is_digit(#[trigger] d[k]),
            acc as nat == digits_value(d.take(i - start)),
        decreases n - i,
    {
        let c = cs[i];
        assert(d[i - start] == c);
        if !('0' <= c && c <= '9') {
            assert(!is_digit(d[i - start]));
            assert(!all_digits(d));
            if start == 0 {
                assert(d =~= cs@);
            } else {
                assert(d =~= cs@.drop_first());
            }
            return None;
        }
        let digit = (c as u32 - '0' as u32) as u64;
        assert(digit <= 9);
        assert(d.take(i - start + 1).drop_last() =~= d.take(i - start));
        assert(d.take(i - start + 1).last() == c);
        if acc > (limit - digit) / 10 {
            proof {
                assert(acc * 10 + digit > limit) by (nonlinear_arith)
                    requires acc > (limit - digit) / 10, digit <= 9, digit <= limit;
            }
            let mut j: usize = i + 1;
            let mut all = true;
            while j < n
                invariant
                    start <= i < j <= n,
                    n == cs@.len(),
                    d == cs@.skip(start as int),
                    all ==> forall|k: int| 0 <= k < j - start ==> is_digit(#[trigger] d[k]),
                    forall|k: int| 0 <= k < i - start + 1 ==> is_digit(#[trigger] d[k]),
                    !all ==> !all_digits(d),
                decreases n - j,
            {
                if !('0' <= cs[j] && cs[j] <= '9') {
                    assert(d[j - start] == cs@[j as int]);
                    assert(!is_digit(d[j - start]));
                    all = false;
                }
                j = j + 1;
            }
            proof {
                if start == 0 {
                    assert(d =~= cs@);
                } else {
                    assert(d =~= cs@.drop_first());
                }
                if all {
                    lemma_digits_grow(d, i - start + 1);
                    assert(digits_value(d.take(i - start + 1)) == acc * 10 + digit);
                }
            }
            return None;
        }
        assert(acc * 10 + digit <= limit) by (nonlinear_arith)
            requires acc <= (limit - digit) / 10, digit <= 9, digit <= limit;
        acc = acc * 10 + digit;
        i = i + 1;
    }
    assert(d.take(n - start) =~= d);
    assert(all_digits(d));
    proof {
        if start == 0 {
            assert(d =~= cs@);
        } else {
            assert(d =~= cs@.drop_first());
        }
    }
    if negative {
        if acc == 9223372036854775808u64 {
            Some(-9223372036854775807i64 - 1)
        } else {
            Some(-(acc as i64))
        }
    } else {
        Some(acc as i64)
    }
}

/// Digits with at most one decimal point and at least one digit: `1`, `1.`, `.5`, `1.5`.
pub open spec fn mantissa(m: Seq<char>) -> bool {
    &&& exists|i: int| 0 <= i < m.len() && is_digit(#[trigger] m[i])
    &&& forall|i: int| 0 <= i < m.len() ==> is_digit(#[trigger] m[i]) || m[i] == '.'
    &&& forall|i: int, j: int| 0 <= i < j < m.len() && m[i] == '.' ==> m[j] != '.'
}

/// An exponent: `e` or `E`, an optional sign, then one or more digits.
pub open spec fn exponent(x: Seq<char>) -> bool {
    &&& x.len() > 0
    &&& (x[0] == 'e' || x[0] == 'E')
    &&& (all_digits(x.drop_first())
        || (x.len() > 1 && (x[1] == '+' || x[1] == '-') && all_digits(x.skip(2))))
}

/// `u` spells a word whose lower-case form is `lower` and upper-case form is `upper`,
/// each letter in either case.
pub open spec fn word_ci(u: Seq<char>, lower: Seq<char>, upper: Seq<char>) -> bool {
    u.len() == lower.len() && u.len() == upper.len()
        && forall|i: int| 0 <= i < u.len() ==> (#[trigger] u[i] == lower[i] || u[i] == upper[i])
}

/// The text after an optional leading sign.
pub open spec fn unsigned_part(s: Seq<char>) -> Seq<char> {
    if s.len() > 0 && (s[0] == '+' || s[0] == '-') { s.drop_first() } else { s }
}

/// Whether std's floating-point parsing accepts `s`: an optional sign, then `inf`,
/// `infinity` or `nan` in any case, or a mantissa with an optional exponent.
pub open spec fn float_literal(s: Seq<char>) -> bool {
    let u = unsigned_part(s);
    ||| word_ci(u, seq!['i', 'n', 'f'], seq!['I', 'N', 'F'])
    ||| word_ci(u, seq!['i', 'n', 'f', 'i', 'n', 'i', 't', 'y'], seq!['I', 'N', 'F', 'I', 'N', 'I', 'T', 'Y'])
    ||| word_ci(u, seq!['n', 'a', 'n'], seq!['N', 'A', 'N'])
    ||| exists|k: int| 0 <= k <= u.len() && #[trigger] mantissa(u.take(k)) && (k == u.len() || exponent(u.skip(k)))
}

/// Whether `s[from..]` is one or more ASCII digits.
fn digits_from(s: &[char], from: usize) -> (r: bool)
    requires
        from <= s@.len(),
    ensures
        r == all_digits(s@.skip(from as int)),
{
    if from >= s.len() {
        return false;
    }
    let mut i = from;
    while i < s.len()
        invariant
            from <= i <= s@.len(),
            forall|j: int| from <= j < i ==> is_digit(s@[j]),
        decreases s@.len() - i,
    {
        if !('0' <= s[i] && s[i] <= '9') {
            assert(s@.skip(from as int)[i - from] == s@[i as int]);
            return false;
        }
        i = i + 1;
    }
    assert forall|j: int| 0 <= j < s@.skip(from as int).len() implies is_digit(#[trigger] s@.skip(from as int)[j]) by {
        assert(s@.skip(from as int)[j] == s@[from + j]);
    }
    true
}

/// Whether `s[from..]` spells the word given in lower and upper case.
fn word_from(s: &[char], from: usize, lower: &[char], upper: &[char]) -> (r: bool)
    requires
        from <= s@.len(),
    ensures
        r == word_ci(s@.skip(from as int), lower@, upper@),
{
    let u = Ghost(s@.skip(from as int));
    let n = s.len();
    if n - from != lower.len() || lower.len() != upper.len() {
        return false;
    }
    let mut i: usize = 0;
    while i < lower.len()
        invariant
            n == s@.len(),
            u@ == s@.skip(from as int),
            u@.len() == lower@.len() == upper@.len(),
            from + lower@.len() == s@.len(),
            i <= lower@.len(),
            forall|j: int| 0 <= j < i ==> (u@[j] == lower@[j] || u@[j] == upper@[j]),
        decreases lower@.len() - i,
    {
        assert(u@[i as int] == s@[from + i]);
        assert(from + i < s@.len());
        if s[from + i] != lower[i] && s[from + i] != upper[i] {
            return false;
        }
        i = i + 1;
    }
    true
}

/// A digit or a decimal point.
pub open spec fn mantissa_char(c: char) -> bool {
    is_digit(c) || c == '.'
}

/// Where the mantissa starting at `start` ends (the first character that is neither a
/// digit nor a point), and whether the text before it is a mantissa.
fn mantissa_end(s: &[char], start: usize) -> (r: (usize, bool))
    requires
        start <= s@.len(),
    ensures
        start <= r.0 <= s@.len(),
        forall|j: int| start <= j < r.0 ==> mantissa_char(s@[j]),
        r.0 == s@.len() || !mantissa_char(s@[r.0 as int]),
        r.1 == mantissa(s@.subrange(start as int, r.0 as int)),
{
    let n = s.len();
    let mut p = start;
    let mut digit_seen = false;
    let mut dot_at: Option<usize> = None;
    let mut two_dots = false;
    while p < n && (('0' <= s[p] && s[p] <= '9') || s[p] == '.')
        invariant
            start <= p <= n,
            n == s@.len(),
            forall|j: int| start <= j < p ==> mantissa_char(s@[j]),
            digit_seen == exists|j: int| start <= j < p && is_digit(s@[j]),
            !two_dots ==> match dot_at {
                Some(d) => start <= d < p && s@[d as int] == '.'
                    && forall|j: int| start <= j < p && j != d ==> s@[j] != '.',
                None => forall|j: int| start <= j < p ==> s@[j] != '.',
            },
            two_dots ==> exists|a: int, b: int| start <= a < b < p && s@[a] == '.' && s@[b] == '.',
        decreases n - p,
    {
        if s[p] == '.' {
            match dot_at {
                Some(d) => {
                    if !two_dots {
                        assert(start <= d < p && s@[d as int] == '.' && s@[p as int] == '.');
                    }
                    two_dots = true;
                },
                None => {
                    dot_at = Some(p);
                },
            }
        } else {
            digit_seen = true;
        }
        p = p + 1;
    }
    proof {
        let m = s@.subrange(start as int, p as int);
        assert(forall|j: int| 0 <= j < m.len() ==> m[j] == s@[start + j]);
        if digit_seen {
            let j = choose|j: int| start <= j < p && is_digit(s@[j]);
            assert(is_digit(m[j - start]));
        }
        if mantissa(m) {
            let j = choose|j: int| 0 <= j < m.len() && is_digit(#[trigger] m[j]);
            assert(is_digit(s@[start + j]));
        }
        if two_dots {
            let (a, b) = choose|a: int, b: int| start <= a < b < p && s@[a] == '.' && s@[b] == '.';
            assert(m[a - start] == '.' && m[b - start] == '.');
        } else if digit_seen {
            assert forall|i: int, j: int| 0 <= i < j < m.len() && m[i] == '.' implies m[j] != '.' by {
                assert(m[i] == s@[start + i] && m[j] == s@[start + j]);
            }
            assert forall|i: int| 0 <= i < m.len() implies is_digit(#[trigger] m[i]) || m[i] == '.' by {
                assert(m[i] == s@[start + i]);
            }
        }
    }
    (p, digit_seen && !two_dots)
}

/// Whether `s[p..]` is an exponent.
fn exponent_at(s: &[char], p: usize) -> (r: bool)
    requires
        p < s@.len(),
    ensures
        r == exponent(s@.skip(p as int)),
{
    let n = s.len();
    let ghost x = s@.skip(p as int);
    assert(x[0] == s@[p as int]);
    assert(x.drop_first() =~= s@.skip(p + 1));
    if p + 1 < n {
        assert(x[1] == s@[p + 1]);
        assert(x.skip(2) =~= s@.skip(p + 2));
    }
    if s[p] == 'e' || s[p] == 'E' {
        let plain = digits_from(s, p + 1);
        let signed = p + 1 < n && (s[p + 1] == '+' || s[p + 1] == '-') && digits_from(s, p + 2);
        plain || signed
    } else {
        false
    }
}

/// A mantissa-with-exponent text can only split where its run of digits and points ends.
proof fn lemma_number_split(u: Seq<char>, k: int)
    requires
        0 <= k <= u.len(),
        forall|j: int| 0 <= j < k ==> mantissa_char(u[j]),
        k == u.len() || !mantissa_char(u[k]),
    ensures
        (exists|k2: int| 0 <= k2 <= u.len() && #[trigger] mantissa(u.take(k2)) && (k2 == u.len() || exponent(u.skip(k2))))
            == (mantissa(u.take(k)) && (k == u.len() || exponent(u.skip(k)))),
{
    assert forall|k2: int| 0 <= k2 <= u.len() && k2 != k implies
        !(#[trigger] mantissa(u.take(k2)) && (k2 == u.len() || exponent(u.skip(k2)))) by {
        if k2 < k {
            assert(u.skip(k2)[0] == u[k2]);
        } else {
            assert(u.take(k2)[k] == u[k]);
        }
    }
    if mantissa(u.take(k)) && (k == u.len() || exponent(u.skip(k))) {
        assert(exists|k2: int| 0 <= k2 <= u.len() && #[trigger] mantissa(u.take(k2)) && (k2 == u.len() || exponent(u.skip(k2))));
    }
}

/// Whether std's floating-point parsing accepts the text `s`.
pub fn is_float_literal(s: &[char]) -> (r: bool)
    ensures
        r == float_literal(s@),
{
    let n = s.len();
    let start: usize = if n > 0 && (s[0] == '+' || s[0] == '-') { 1 } else { 0 };
    let ghost u = unsigned_part(s@);
    assert(u =~= s@.skip(start as int));
    if word_from(s, start, &['i', 'n', 'f'], &['I', 'N', 'F']) {
        return true;
    }
    if word_from(s, start, &['i', 'n', 'f', 'i', 'n', 'i', 't', 'y'], &['I', 'N', 'F', 'I', 'N', 'I', 'T', 'Y']) {
        return true;
    }
    if word_from(s, start, &['n', 'a', 'n'], &['N', 'A', 'N']) {
        return true;
    }
    let (p, mant) = mantissa_end(s, start);
    let tail_ok = if p == n { true } else { exponent_at(s, p) };
    proof {
        let k = p - start;
        assert(u.take(k) =~= s@.subrange(start as int, p as int));
        assert(u.skip(k) =~= s@.skip(p as int));
        assert forall|j: int| 0 <= j < k implies mantissa_char(u[j]) by {
            assert(u[j] == s@[start + j]);
        }
        if k < u.len() {
            assert(u[k] == s@[p as int]);
        }
        lemma_number_split(u, k);
    }
    mant && tail_ok
}

}
