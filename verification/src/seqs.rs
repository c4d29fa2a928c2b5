//! Order-preserving selections over sequences.

use vstd::prelude::*;

verus! {

/// The elements of `s` that satisfy `p`, in order.
pub open spec fn keep_where<T>(s: Seq<T>, p: spec_fn(T) -> bool) -> Seq<T>
    decreases s.len(),
{
    if s.len() == 0 {
        s
    } else if p(s[0]) {
        seq![s[0]] + keep_where(s.drop_first(), p)
    } else {
        keep_where(s.drop_first(), p)
    }
}

/// The first element of `s` that satisfies `p`, if any.
pub open spec fn first_where<T>(s: Seq<T>, p: spec_fn(T) -> bool) -> Option<T>
    decreases s.len(),
{
    if s.len() == 0 {
        None
    } else if p(s[0]) {
        Some(s[0])
    } else {
        first_where(s.drop_first(), p)
    }
}

/// One step of a left-to-right selection loop: selecting from the suffix at `i`
/// either takes `s[i]` or skips it, and continues at `i + 1`.
pub proof fn lemma_keep_step<T>(s: Seq<T>, p: spec_fn(T) -> bool, i: int)
    requires
        0 <= i < s.len(),
    ensures
        keep_where(s.skip(i), p) == if p(s[i]) {
            seq![s[i]] + keep_where(s.skip(i + 1), p)
        } else {
            keep_where(s.skip(i + 1), p)
        },
        first_where(s.skip(i), p) == if p(s[i]) { Some(s[i]) } else { first_where(s.skip(i + 1), p) },
{
    assert(s.skip(i)[0] == s[i]);
    assert(s.skip(i).drop_first() =~= s.skip(i + 1));
}

/// Every selected element satisfies the predicate, and selection never grows a sequence.
pub proof fn lemma_keep_all_satisfy<T>(s: Seq<T>, p: spec_fn(T) -> bool)
    ensures
        forall|j: int| 0 <= j < keep_where(s, p).len() ==> p(#[trigger] keep_where(s, p)[j]),
        keep_where(s, p).len() <= s.len(),
    decreases s.len(),
{
    if s.len() > 0 {
        lemma_keep_all_satisfy(s.drop_first(), p);
        let rest = keep_where(s.drop_first(), p);
        if p(s[0]) {
            assert forall|j: int| 0 <= j < (seq![s[0]] + rest).len() implies p(#[trigger] (seq![s[0]] + rest)[j]) by {
                if j > 0 {
                    assert((seq![s[0]] + rest)[j] == rest[j - 1]);
                }
            }
        }
    }
}

/// Selecting with `q` after selecting with `p` keeps nothing when no element
/// satisfies both.
pub proof fn lemma_keep_disjoint<T>(s: Seq<T>, p: spec_fn(T) -> bool, q: spec_fn(T) -> bool)
    requires
        forall|x: T| #[trigger] p(x) ==> !q(x),
    ensures
        keep_where(keep_where(s, p), q) == Seq::<T>::empty(),
    decreases s.len(),
{
    if s.len() > 0 {
        lemma_keep_disjoint(s.drop_first(), p, q);
        let rest = keep_where(s.drop_first(), p);
        if p(s[0]) {
            let whole = seq![s[0]] + rest;
            assert(whole[0] == s[0]);
            assert(whole.drop_first() =~= rest);
        }
    } else {
        assert(keep_where(s, p) =~= Seq::<T>::empty());
    }
}

/// The first element satisfying `p` is, when there is one, an element of `s` that
/// satisfies `p`.
pub proof fn lemma_first_satisfies<T>(s: Seq<T>, p: spec_fn(T) -> bool)
    ensures
        first_where(s, p) matches Some(x) ==> p(x) && s.contains(x),
    decreases s.len(),
{
    if s.len() > 0 && !p(s[0]) {
        lemma_first_satisfies(s.drop_first(), p);
        if let Some(x) = first_where(s.drop_first(), p) {
            let j = choose|j: int| 0 <= j < s.drop_first().len() && s.drop_first()[j] == x;
            assert(s[j + 1] == x);
        }
    } else if s.len() > 0 {
        assert(s[0] == s[0]);
    }
}

}

verus! {

/// Selecting from a sequence with one more element at the end selects that element
/// after the rest when it satisfies the predicate.
pub proof fn lemma_keep_push<T>(s: Seq<T>, p: spec_fn(T) -> bool, x: T)
    ensures
        keep_where(s.push(x), p) == keep_where(s, p) + if p(x) { seq![x] } else { Seq::<T>::empty() },
    decreases s.len(),
{
    if s.len() == 0 {
        assert(s.push(x).drop_first() =~= s);
        assert(keep_where(s, p) =~= Seq::<T>::empty());
        assert(keep_where(s.push(x).drop_first(), p) =~= Seq::<T>::empty());
        assert(seq![x] + Seq::<T>::empty() =~= seq![x]);
        assert(Seq::<T>::empty() + Seq::<T>::empty() =~= Seq::<T>::empty());
        assert(Seq::<T>::empty() + seq![x] =~= seq![x]);
    } else {
        assert(s.push(x).drop_first() =~= s.drop_first().push(x));
        assert(s.push(x)[0] == s[0]);
        lemma_keep_push(s.drop_first(), p, x);
        if p(s[0]) {
            assert(seq![s[0]] + (keep_where(s.drop_first(), p) + if p(x) { seq![x] } else { Seq::<T>::empty() })
                =~= (seq![s[0]] + keep_where(s.drop_first(), p)) + if p(x) { seq![x] } else { Seq::<T>::empty() });
        }
    }
}

}
