//! Field masking for exports: per-field rules that redact, hash, partially mask,
//! null out or remove values, addressed by dotted paths into sub-documents.

use vstd::prelude::*;
use vstd::utf8::encode_utf8;
use crate::text::{chars_of, string_of, push_char, push_str, views, str_eq};
use crate::value::{Value, ValueView, Document, fields_view, value_text, to_plain_text, hex_digit, lemma_document_view};

verus! {

/// A per-field masking instruction. `field` is a dotted path (e.g. "contact.email").
pub struct MaskRule {
    pub field: String,
    /// "redact" | "hash" | "partial" | "nullify" | "remove"
    pub strategy: String,
    pub keep_start: Option<usize>,
    pub keep_end: Option<usize>,
    pub mask_char: Option<String>,
    pub replacement: Option<String>,
}

/// The FNV-1a offset basis.
pub const FNV_OFFSET: u64 = 0xcbf2_9ce4_8422_2325;

/// The FNV-1a prime.
pub const FNV_PRIME: u64 = 0x0000_0100_0000_01b3;

/// FNV-1a over `bytes`: start from the offset basis, and for each byte xor it in and
/// multiply by the prime modulo 2^64.
pub open spec fn fnv1a(bytes: Seq<u8>) -> u64
    decreases bytes.len(),
{
    if bytes.len() == 0 {
        FNV_OFFSET
    } else {
        (fnv1a(bytes.drop_last()) ^ (bytes.last() as u64)).wrapping_mul(FNV_PRIME)
    }
}

/// FNV-1a 64-bit: a tiny, deterministic hash. Not cryptographic, but for masking it
/// only needs to hide the original value while keeping equal inputs equal (so
/// relationships in the masked copy still line up).
pub fn fnv1a64(bytes: &[u8]) -> (r: u64)
    ensures
        r == fnv1a(bytes@),
{
    let mut hash: u64 = FNV_OFFSET;
    let mut i: usize = 0;
    while i < bytes.len()
        invariant
            i <= bytes@.len(),
            hash == fnv1a(bytes@.take(i as int)),
        decreases bytes@.len() - i,
    {
        assert(bytes@.take(i as int + 1).drop_last() =~= bytes@.take(i as int));
        hash = hash ^ (bytes[i] as u64);
        hash = hash.wrapping_mul(FNV_PRIME);
        i = i + 1;
    }
    assert(bytes@.take(bytes@.len() as int) =~= bytes@);
    hash
}

/// The last `width` hexadecimal digits of `n`, zero-padded, most significant first.
pub open spec fn hex_fixed(n: nat, width: nat) -> Seq<char>
    decreases width,
{
    if width == 0 {
        seq![]
    } else {
        hex_fixed(n / 16, (width - 1) as nat).push(hex_digit((n % 16) as int))
    }
}

/// `n` as exactly 16 lower-case hexadecimal digits (`{:016x}`).
pub fn hex16(n: u64) -> (r: String)
    ensures
        r@ == hex_fixed(n as nat, 16),
{
    let digits: [char; 16] = ['0', '1', '2', '3', '4', '5', '6', '7', '8', '9', 'a', 'b', 'c', 'd', 'e', 'f'];
    let mut buf: Vec<char> = Vec::new();
    let mut q: u64 = n;
    let mut k: usize = 0;
    while k < 16
        invariant
            k <= 16,
            digits@ == seq!['0', '1', '2', '3', '4', '5', '6', '7', '8', '9', 'a', 'b', 'c', 'd', 'e', 'f'],
            hex_fixed(n as nat, 16) == hex_fixed(q as nat, (16 - k) as nat) + buf@,
        decreases 16 - k,
    {
        let d = q % 16;
        let c = digits[d as usize];
        assert(c == hex_digit(d as int)) by {
            assert(digits@[d as int] == c);
        }
        let ghost prev = buf@;
        buf.insert(0, c);
        assert(hex_fixed(q as nat, (16 - k) as nat) == hex_fixed((q / 16) as nat, (16 - k - 1) as nat).push(c));
        assert(hex_fixed((q / 16) as nat, (16 - k - 1) as nat).push(c) + prev
            =~= hex_fixed((q / 16) as nat, (16 - k - 1) as nat) + buf@);
        q = q / 16;
        k = k + 1;
    }
    assert(hex_fixed(q as nat, 0) + buf@ =~= buf@);
    string_of(buf.as_slice())
}

/// `n` copies of `c`.
pub open spec fn repeat_char(c: char, n: nat) -> Seq<char> {
    Seq::new(n, |i: int| c)
}

/// The text with its first `start` and last `end` characters kept and the rest replaced
/// by `mask`; a text too short to show any window is masked entirely (same length).
pub open spec fn partial_masked(s: Seq<char>, start: nat, end: nat, mask: char) -> Seq<char> {
    if s.len() <= start + end {
        repeat_char(mask, s.len())
    } else {
        s.take(start as int) + repeat_char(mask, (s.len() - start - end) as nat) + s.skip(s.len() - end)
    }
}

/// Keep the first `start` and last `end` characters, replacing the middle with the
/// mask character. Strings too short to show any window are fully masked (length
/// preserved), so nothing leaks.
pub fn partial_mask(text: &str, start: usize, end: usize, mask_char: char) -> (r: String)
    ensures
        r@ == partial_masked(text@, start as nat, end as nat, mask_char),
{
    let chars = chars_of(text);
    let n = chars.len();
    let mut out = String::new();
    if start as u128 + end as u128 >= n as u128 {
        let mut i: usize = 0;
        while i < n
            invariant
                i <= n,
                out@ == repeat_char(mask_char, i as nat),
            decreases n - i,
        {
            push_char(&mut out, mask_char);
            assert(out@ =~= repeat_char(mask_char, i as nat + 1));
            i = i + 1;
        }
        return out;
    }
    let mut i: usize = 0;
    while i < start
        invariant
            i <= start,
            start + end < n,
            n == chars@.len(),
            out@ == chars@.take(i as int),
        decreases start - i,
    {
        push_char(&mut out, chars[i]);
        assert(out@ =~= chars@.take(i as int + 1));
        i = i + 1;
    }
    let middle = n - start - end;
    let mut j: usize = 0;
    while j < middle
        invariant
            j <= middle,
            out@ == chars@.take(start as int) + repeat_char(mask_char, j as nat),
        decreases middle - j,
    {
        push_char(&mut out, mask_char);
        assert(out@ =~= chars@.take(start as int) + repeat_char(mask_char, j as nat + 1));
        j = j + 1;
    }
    let mut k: usize = n - end;
    while k < n
        invariant
            n - end <= k <= n,
            start + end < n,
            middle == n - start - end,
            n == chars@.len(),
            out@ == chars@.take(start as int) + repeat_char(mask_char, middle as nat) + chars@.subrange(n - end, k as int),
        decreases n - k,
    {
        push_char(&mut out, chars[k]);
        assert(out@ =~= chars@.take(start as int) + repeat_char(mask_char, middle as nat) + chars@.subrange(n - end, k as int + 1));
        k = k + 1;
    }
    assert(chars@.subrange(n - end, n as int) =~= chars@.skip(n - end));
    out
}

/// The bytes of a string's UTF-8 encoding (std `str::as_bytes`, copied into a `Vec`).
#[verifier::external_body]
fn utf8_bytes(s: &str) -> (r: Vec<u8>)
    ensures
        r@ == encode_utf8(s@),
{
    s.as_bytes().to_vec()
}

/// The text "***", the default redaction token.
pub open spec fn default_token() -> Seq<char> {
    "***"@
}

/// The mask character a rule asks for: the first character of `mask_char`, or `*`.
pub open spec fn rule_mask_char(rule: MaskRule) -> char {
    match rule.mask_char {
        Some(s) => if s@.len() > 0 { s@[0] } else { '*' },
        None => '*',
    }
}

/// The prefix of the error for a strategy nobody knows.
pub open spec fn unknown_strategy_prefix() -> Seq<char> {
    "Unknown masking strategy: "@
}

/// What a rule does to one value: `Ok(None)` removes the field, `Ok(Some(v))` puts
/// `v` in its place, and an unknown strategy is an error naming it.
pub open spec fn masked_value(v: ValueView, rule: MaskRule) -> Result<Option<ValueView>, Seq<char>> {
    let s = rule.strategy@;
    if s == "remove"@ {
        Ok(None)
    } else if s == "nullify"@ {
        Ok(Some(ValueView::Null))
    } else if s == "redact"@ {
        Ok(Some(ValueView::Text(match rule.replacement { Some(t) => t@, None => default_token() })))
    } else if s == "hash"@ {
        Ok(Some(ValueView::Text(hex_fixed(fnv1a(encode_utf8(value_text(v))) as nat, 16))))
    } else if s == "partial"@ {
        Ok(Some(ValueView::Text(partial_masked(
            value_text(v),
            match rule.keep_start { Some(n) => n as nat, None => 0 },
            match rule.keep_end { Some(n) => n as nat, None => 0 },
            rule_mask_char(rule),
        ))))
    } else {
        Err(unknown_strategy_prefix() + s)
    }
}

/// Compute the replacement for one value. `Ok(None)` means "remove the field".
pub fn strategy_result(value: &Value, rule: &MaskRule) -> (r: Result<Option<Value>, String>)
    ensures
        match (r, masked_value(value@, *rule)) {
            (Ok(Some(v)), Ok(Some(w))) => v@ == w,
            (Ok(None), Ok(None)) => true,
            (Err(e), Err(m)) => e@ == m,
            _ => false,
        },
{
    let s = rule.strategy.as_str();
    if str_eq(s, "remove") {
        assert(masked_value(value@, *rule) == Ok::<Option<ValueView>, Seq<char>>(None));
        Ok(None)
    } else if str_eq(s, "nullify") {
        Ok(Some(Value::Null))
    } else if str_eq(s, "redact") {
        let token = match &rule.replacement {
            Some(text) => text.clone(),
            None => "***".to_owned(),
        };
        assert(masked_value(value@, *rule) == Ok::<Option<ValueView>, Seq<char>>(Some(ValueView::Text(token@))));
        Ok(Some(Value::Text(token)))
    } else if str_eq(s, "hash") {
        let text = to_plain_text(value);
        let digest = fnv1a64(utf8_bytes(text.as_str()).as_slice());
        let h = hex16(digest);
        assert(masked_value(value@, *rule) == Ok::<Option<ValueView>, Seq<char>>(Some(ValueView::Text(h@))));
        Ok(Some(Value::Text(h)))
    } else if str_eq(s, "partial") {
        let text = to_plain_text(value);
        let mask_char = match &rule.mask_char {
            Some(m) => {
                let cs = chars_of(m.as_str());
                if cs.len() > 0 { cs[0] } else { '*' }
            },
            None => '*',
        };
        let start = match rule.keep_start { Some(n) => n, None => 0 };
        let end = match rule.keep_end { Some(n) => n, None => 0 };
        let masked = partial_mask(text.as_str(), start, end, mask_char);
        assert(masked_value(value@, *rule) == Ok::<Option<ValueView>, Seq<char>>(Some(ValueView::Text(masked@))));
        Ok(Some(Value::Text(masked)))
    } else {
        let mut message = "Unknown masking strategy: ".to_owned();
        push_str(&mut message, s);
        Err(message)
    }
}

/// The position of the first field named `key`, if any.
pub open spec fn first_index(fields: Seq<(Seq<char>, ValueView)>, key: Seq<char>) -> Option<int>
    decreases fields.len(),
{
    if fields.len() == 0 {
        None
    } else if fields[0].0 == key {
        Some(0)
    } else {
        match first_index(fields.drop_first(), key) {
            Some(i) => Some(i + 1),
            None => None,
        }
    }
}

/// A document after one rule at the path `segs`: the last segment names the field the
/// rule acts on; earlier segments descend into sub-documents. A path that does not
/// resolve (a missing field, or an intermediate that is not a document) changes
/// nothing.
pub open spec fn masked_at(
    fields: Seq<(Seq<char>, ValueView)>,
    segs: Seq<Seq<char>>,
    rule: MaskRule,
) -> Result<Seq<(Seq<char>, ValueView)>, Seq<char>>
    decreases segs.len(),
{
    if segs.len() == 0 {
        Ok(fields)
    } else {
        match first_index(fields, segs[0]) {
            None => Ok(fields),
            Some(i) => if segs.len() == 1 {
                match masked_value(fields[i].1, rule) {
                    Ok(Some(v)) => Ok(fields.update(i, (fields[i].0, v))),
                    Ok(None) => Ok(fields.remove(i)),
                    Err(e) => Err(e),
                }
            } else {
                match fields[i].1 {
                    ValueView::Document(sub) => match masked_at(sub, segs.drop_first(), rule) {
                        Ok(new_sub) => Ok(fields.update(i, (fields[i].0, ValueView::Document(new_sub)))),
                        Err(e) => Err(e),
                    },
                    _ => Ok(fields),
                }
            },
        }
    }
}

/// A document after the rules in turn, and the error of the first rule that failed
/// (the document then stays as the rules before it left it).
pub open spec fn masked_by(
    fields: Seq<(Seq<char>, ValueView)>,
    rules: Seq<MaskRule>,
) -> (Seq<(Seq<char>, ValueView)>, Option<Seq<char>>)
    decreases rules.len(),
{
    if rules.len() == 0 {
        (fields, None)
    } else {
        match masked_at(fields, crate::text::split_on(rules[0].field@, '.'), rules[0]) {
            Ok(next) => masked_by(next, rules.drop_first()),
            Err(e) => (fields, Some(e)),
        }
    }
}

/// The position of the first field named `key`.
pub(crate) fn find_field(doc: &Document, key: &str) -> (r: Option<usize>)
    ensures
        match r {
            Some(i) => first_index(fields_view(doc@), key@) == Some(i as int) && i < doc@.len(),
            None => first_index(fields_view(doc@), key@) is None,
        },
{
    let ghost fv = fields_view(doc@);
    let mut i: usize = 0;
    assert(fv.skip(0) =~= fv);
    while i < doc.len()
        invariant
            i <= doc@.len(),
            fv == fields_view(doc@),
            first_index(fv, key@) == match first_index(fv.skip(i as int), key@) {
                Some(j) => Some(j + i),
                None => None::<int>,
            },
        decreases doc@.len() - i,
    {
        assert(fv.skip(i as int)[0] == fv[i as int]);
        assert(fv.skip(i as int).drop_first() =~= fv.skip(i as int + 1));
        if str_eq(doc[i].0.as_str(), key) {
            return Some(i);
        }
        i = i + 1;
    }
    None
}

/// Apply one rule at the path `segments[from..]`, descending into sub-documents.
fn apply_at(doc: &mut Document, segments: &Vec<String>, from: usize, rule: &MaskRule) -> (r: Result<(), String>)
    requires
        from < segments@.len(),
    ensures
        match masked_at(fields_view(old(doc)@), views(segments@).skip(from as int), *rule) {
            Ok(f) => r is Ok && fields_view(final(doc)@) == f,
            Err(m) => (r matches Err(e) && e@ == m) && fields_view(final(doc)@) == fields_view(old(doc)@),
        },
    decreases segments@.len() - from,
{
    let ghost segs = views(segments@).skip(from as int);
    let ghost fv = fields_view(doc@);
    assert(segs[0] == segments@[from as int]@);
    let i = match find_field(doc, segments[from].as_str()) {
        Some(i) => i,
        None => {
            return Ok(());
        },
    };
    let n = segments.len();
    if from + 1 == n {
        let result = strategy_result(&doc[i].1, rule);
        match result {
            Ok(Some(new_value)) => {
                let key = doc[i].0.clone();
                doc.set(i, (key, new_value));
                assert(fields_view(doc@) =~= fv.update(i as int, (fv[i as int].0, new_value@)));
                Ok(())
            },
            Ok(None) => {
                doc.remove(i);
                assert(fields_view(doc@) =~= fv.remove(i as int));
                Ok(())
            },
            Err(e) => Err(e),
        }
    } else {
        assert(segs.drop_first() =~= views(segments@).skip(from as int + 1));
        let (key, value) = doc.remove(i);
        match value {
            Value::Document(mut sub) => {
                proof {
                    lemma_document_view(sub);
                }
                let ghost old_sub = sub;
                let res = apply_at(&mut sub, segments, from + 1, rule);
                proof {
                    lemma_document_view(sub);
                }
                doc.insert(i, (key, Value::Document(sub)));
                assert(fields_view(doc@) =~= fv.update(i as int, (fv[i as int].0, ValueView::Document(fields_view(sub@)))));
                assert(fv[i as int].1 == ValueView::Document(fields_view(old_sub@)));
                if res.is_err() {
                    assert(fields_view(doc@) =~= fv);
                }
                res
            },
            other => {
                doc.insert(i, (key, other));
                assert(fields_view(doc@) =~= fv);
                Ok(())
            },
        }
    }
}

/// Apply the rules in turn to a document; the first rule that fails stops with its
/// error, leaving the changes of the rules before it.
pub fn apply_rules(doc: &mut Document, rules: &[MaskRule]) -> (r: Result<(), String>)
    ensures
        fields_view(final(doc)@) == masked_by(fields_view(old(doc)@), rules@).0,
        match masked_by(fields_view(old(doc)@), rules@).1 {
            Some(m) => r matches Err(e) && e@ == m,
            None => r is Ok,
        },
{
    let ghost start = fields_view(doc@);
    let mut i: usize = 0;
    assert(rules@.skip(0) =~= rules@);
    while i < rules.len()
        invariant
            i <= rules@.len(),
            start == fields_view(old(doc)@),
            masked_by(start, rules@) == masked_by(fields_view(doc@), rules@.skip(i as int)),
        decreases rules@.len() - i,
    {
        let segments = crate::text::split_string(rules[i].field.as_str(), '.');
        assert(views(segments@).skip(0) =~= views(segments@));
        assert(rules@.skip(i as int)[0] == rules@[i as int]);
        assert(rules@.skip(i as int).drop_first() =~= rules@.skip(i as int + 1));
        match apply_at(doc, &segments, 0, &rules[i]) {
            Ok(()) => {},
            Err(e) => {
                return Err(e);
            },
        }
        i = i + 1;
    }
    Ok(())
}

/// Partial masking keeps the text's length (in characters), keeps its first `start` and
/// last `end` characters when the text is longer than both together, and otherwise hides
/// every character.
pub proof fn law_partial_mask_keeps_length_and_window(s: Seq<char>, start: nat, end: nat, mask: char)
    ensures
        partial_masked(s, start, end, mask).len() == s.len(),
        s.len() > start + end ==> {
            &&& partial_masked(s, start, end, mask).take(start as int) == s.take(start as int)
            &&& partial_masked(s, start, end, mask).skip(s.len() - end) == s.skip(s.len() - end)
            &&& forall|i: int| start <= i < s.len() - end ==> #[trigger] partial_masked(s, start, end, mask)[i] == mask
        },
        s.len() <= start + end ==> forall|i: int| 0 <= i < s.len() ==> #[trigger] partial_masked(s, start, end, mask)[i] == mask,
{
    let r = partial_masked(s, start, end, mask);
    if s.len() > start + end {
        let mid = repeat_char(mask, (s.len() - start - end) as nat);
        assert(r == s.take(start as int) + mid + s.skip(s.len() - end));
        assert(r.take(start as int) =~= s.take(start as int));
        assert(r.skip(s.len() - end) =~= s.skip(s.len() - end));
        assert forall|i: int| start <= i < s.len() - end implies #[trigger] r[i] == mask by {
            assert(r[i] == mid[i - start]);
        }
    }
}

/// A rule whose path does not name a field of the document (or whose intermediate
/// segment is not a sub-document) leaves the document unchanged and does not fail.
pub proof fn law_unresolved_path_is_noop(fields: Seq<(Seq<char>, ValueView)>, segs: Seq<Seq<char>>, rule: MaskRule)
    requires
        segs.len() >= 1,
        first_index(fields, segs[0]) is None
            || (segs.len() > 1 && !(fields[first_index(fields, segs[0])->Some_0].1 is Document)),
    ensures
        masked_at(fields, segs, rule) == Ok::<Seq<(Seq<char>, ValueView)>, Seq<char>>(fields),
{
}

/// Masking by hash depends only on the value's plain text: two values with the same
/// text get the same 16-hex-digit token.
pub proof fn law_hash_depends_only_on_text(v: ValueView, w: ValueView, rule: MaskRule)
    requires
        rule.strategy@ == "hash"@,
        value_text(v) == value_text(w),
    ensures
        masked_value(v, rule) == masked_value(w, rule),
        masked_value(v, rule) matches Ok(Some(ValueView::Text(t))) && t.len() == 16,
{
    lemma_hex_fixed_len(fnv1a(encode_utf8(value_text(v))) as nat, 16);
    reveal_strlit("hash");
    reveal_strlit("remove");
    reveal_strlit("nullify");
    reveal_strlit("redact");
    assert("hash"@.len() == 4);
    assert("remove"@.len() == 6);
    assert("nullify"@.len() == 7);
    assert("redact"@.len() == 6);
    assert(masked_value(v, rule) == Ok::<Option<ValueView>, Seq<char>>(Some(ValueView::Text(
        hex_fixed(fnv1a(encode_utf8(value_text(v))) as nat, 16)))));
}

/// `hex_fixed` has exactly the asked number of digits.
proof fn lemma_hex_fixed_len(n: nat, width: nat)
    ensures
        hex_fixed(n, width).len() == width,
    decreases width,
{
    if width > 0 {
        lemma_hex_fixed_len(n / 16, (width - 1) as nat);
    }
}

}

