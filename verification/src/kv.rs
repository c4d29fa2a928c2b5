//! A string-keyed map kept as a list of distinct keys with their values.

use vstd::prelude::*;
use crate::text::{str_eq, starts_with};

verus! {

/// The keys of a pair list are pairwise distinct.
pub open spec fn keys_unique<V>(s: Seq<(Seq<char>, V)>) -> bool {
    forall|i: int, j: int| 0 <= i < s.len() && 0 <= j < s.len() && i != j ==> s[i].0 != s[j].0
}

/// Whether some pair of the list has key `k`.
pub open spec fn has_key<V>(s: Seq<(Seq<char>, V)>, k: Seq<char>) -> bool {
    exists|i: int| 0 <= i < s.len() && s[i].0 == k
}

/// The map that a list of distinct keys with their values stands for.
pub open spec fn pairs_map<V>(s: Seq<(Seq<char>, V)>) -> Map<Seq<char>, V> {
    Map::new(
        |k: Seq<char>| has_key(s, k),
        |k: Seq<char>| s[choose|i: int| 0 <= i < s.len() && s[i].0 == k].1,
    )
}

/// The position of key `k` in a list that has it.
pub open spec fn key_index<V>(s: Seq<(Seq<char>, V)>, k: Seq<char>) -> int {
    choose|i: int| 0 <= i < s.len() && s[i].0 == k
}

/// The list after storing `v` under `k`: an existing key keeps its place and takes the
/// new value; a new key goes last.
pub open spec fn pairs_insert<V>(s: Seq<(Seq<char>, V)>, k: Seq<char>, v: V) -> Seq<(Seq<char>, V)> {
    if has_key(s, k) {
        s.update(key_index(s, k), (k, v))
    } else {
        s.push((k, v))
    }
}

/// The pairs as values.
pub open spec fn pairs_view<V>(s: Seq<(String, V)>) -> Seq<(Seq<char>, V)> {
    s.map_values(|e: (String, V)| (e.0@, e.1))
}

/// The value stored under each key of a list with distinct keys.
pub proof fn lemma_pairs_map_at<V>(s: Seq<(Seq<char>, V)>, i: int)
    requires
        keys_unique(s),
        0 <= i < s.len(),
    ensures
        pairs_map(s).contains_key(s[i].0),
        pairs_map(s)[s[i].0] == s[i].1,
{
    assert(has_key(s, s[i].0));
    let j = choose|j: int| 0 <= j < s.len() && s[j].0 == s[i].0;
    assert(j == i);
}

/// A list of distinct keys stands for `m` when it has exactly `m`'s keys, each with
/// `m`'s value.
pub proof fn lemma_pairs_map_is<V>(s: Seq<(Seq<char>, V)>, m: Map<Seq<char>, V>)
    requires
        keys_unique(s),
        forall|k: Seq<char>| #[trigger] has_key(s, k) == m.contains_key(k),
        forall|j: int| 0 <= j < s.len() ==> m[#[trigger] s[j].0] == s[j].1,
    ensures
        pairs_map(s) == m,
{
    assert forall|k: Seq<char>| #[trigger] pairs_map(s).contains_key(k) implies pairs_map(s)[k] == m[k] by {
        let j = choose|j: int| 0 <= j < s.len() && s[j].0 == k;
        lemma_pairs_map_at(s, j);
    }
    assert(pairs_map(s) =~= m);
}

/// A string-keyed map with distinct keys, kept in insertion order.
pub struct StrMap<V> {
    entries: Vec<(String, V)>,
}

impl<V> StrMap<V> {
    #[verifier::type_invariant]
    closed spec fn distinct_keys(&self) -> bool {
        keys_unique(pairs_view(self.entries@))
    }

    /// The pairs, in insertion order.
    pub closed spec fn pairs(&self) -> Seq<(Seq<char>, V)> {
        pairs_view(self.entries@)
    }

    /// The map this value stands for.
    pub open spec fn map(&self) -> Map<Seq<char>, V> {
        pairs_map(self.pairs())
    }

    /// An empty map.
    pub fn new() -> (r: StrMap<V>)
        ensures
            r.pairs() == Seq::<(Seq<char>, V)>::empty(),
            r.map() == Map::<Seq<char>, V>::empty(),
    {
        let r = StrMap { entries: Vec::new() };
        assert(pairs_view(r.entries@) =~= Seq::<(Seq<char>, V)>::empty());
        assert(keys_unique(r.pairs()));
        assert(r.map() =~= Map::<Seq<char>, V>::empty());
        r
    }

    /// The stored pairs, in insertion order.
    pub fn entries(&self) -> (r: &Vec<(String, V)>)
        ensures
            pairs_view(r@) == self.pairs(),
            keys_unique(pairs_view(r@)),
    {
        proof { use_type_invariant(self); }
        &self.entries
    }

    /// Position of `key`, if present.
    fn find(&self, key: &str) -> (r: Option<usize>)
        ensures
            match r {
                Some(i) => i < self.pairs().len() && self.pairs()[i as int].0 == key@,
                None => !has_key(self.pairs(), key@),
            },
    {
        let mut i: usize = 0;
        while i < self.entries.len()
            invariant
                i <= self.entries@.len(),
                forall|j: int| 0 <= j < i ==> self.pairs()[j].0 != key@,
            decreases self.entries@.len() - i,
        {
            if str_eq(self.entries[i].0.as_str(), key) {
                return Some(i);
            }
            i = i + 1;
        }
        None
    }

    /// The value stored under `key`, if any.
    pub fn get(&self, key: &str) -> (r: Option<&V>)
        ensures
            match r {
                Some(v) => self.map().contains_key(key@) && self.map()[key@] == *v,
                None => !self.map().contains_key(key@),
            },
    {
        proof { use_type_invariant(self); }
        match self.find(key) {
            Some(i) => {
                proof { lemma_pairs_map_at(self.pairs(), i as int); }
                Some(&self.entries[i].1)
            },
            None => None,
        }
    }

    /// Stores `value` under `key`, replacing any previous value in its place.
    pub fn insert(&mut self, key: String, value: V)
        ensures
            final(self).map() == old(self).map().insert(key@, value),
            final(self).pairs() == pairs_insert(old(self).pairs(), key@, value),
            keys_unique(final(self).pairs()),
    {
        proof { use_type_invariant(&*self); }
        let ghost old_pairs = self.pairs();
        let ghost k = key@;
        match self.find(key.as_str()) {
            Some(i) => {
                let mut entries: Vec<(String, V)> = Vec::new();
                std::mem::swap(&mut entries, &mut self.entries);
                entries.set(i, (key, value));
                let ghost new_pairs = pairs_view(entries@);
                assert(has_key(old_pairs, k) && key_index(old_pairs, k) == i as int) by {
                    assert(old_pairs[i as int].0 == k);
                };
                assert(new_pairs =~= old_pairs.update(i as int, (k, value)));
                assert(keys_unique(new_pairs));
                self.entries = entries;
                assert forall|key2: Seq<char>| #[trigger] has_key(new_pairs, key2) == (key2 == k || has_key(old_pairs, key2)) by {
                    if has_key(old_pairs, key2) {
                        let j = choose|j: int| 0 <= j < old_pairs.len() && old_pairs[j].0 == key2;
                        assert(new_pairs[j].0 == key2);
                    }
                    if key2 == k {
                        assert(new_pairs[i as int].0 == key2);
                    }
                    if has_key(new_pairs, key2) {
                        let j = choose|j: int| 0 <= j < new_pairs.len() && new_pairs[j].0 == key2;
                        assert(j == i || old_pairs[j].0 == key2);
                    }
                }
                assert forall|key2: Seq<char>| #[trigger] pairs_map(new_pairs).contains_key(key2) implies
                    pairs_map(new_pairs)[key2] == pairs_map(old_pairs).insert(k, value)[key2] by {
                    let j = choose|j: int| 0 <= j < new_pairs.len() && new_pairs[j].0 == key2;
                    lemma_pairs_map_at(new_pairs, j);
                    if j != i {
                        lemma_pairs_map_at(old_pairs, j);
                    }
                }
                assert(pairs_map(new_pairs) =~= pairs_map(old_pairs).insert(k, value));
            },
            None => {
                let mut entries: Vec<(String, V)> = Vec::new();
                std::mem::swap(&mut entries, &mut self.entries);
                entries.push((key, value));
                let ghost new_pairs = pairs_view(entries@);
                assert(new_pairs =~= old_pairs.push((k, value)));
                assert(keys_unique(new_pairs)) by {
                    assert forall|a: int, b: int| 0 <= a < new_pairs.len() && 0 <= b < new_pairs.len() && a != b
                        implies new_pairs[a].0 != new_pairs[b].0 by {
                        if a == old_pairs.len() {
                            assert(old_pairs[b].0 != k);
                        } else if b == old_pairs.len() {
                            assert(old_pairs[a].0 != k);
                        }
                    }
                }
                self.entries = entries;
                assert forall|key2: Seq<char>| #[trigger] has_key(new_pairs, key2) == (key2 == k || has_key(old_pairs, key2)) by {
                    if has_key(old_pairs, key2) {
                        let j = choose|j: int| 0 <= j < old_pairs.len() && old_pairs[j].0 == key2;
                        assert(new_pairs[j].0 == key2);
                    }
                    if key2 == k {
                        assert(new_pairs[old_pairs.len() as int].0 == key2);
                    }
                    if has_key(new_pairs, key2) {
                        let j = choose|j: int| 0 <= j < new_pairs.len() && new_pairs[j].0 == key2;
                        assert(j == old_pairs.len() || old_pairs[j].0 == key2);
                    }
                }
                assert forall|key2: Seq<char>| #[trigger] pairs_map(new_pairs).contains_key(key2) implies
                    pairs_map(new_pairs)[key2] == pairs_map(old_pairs).insert(k, value)[key2] by {
                    let j = choose|j: int| 0 <= j < new_pairs.len() && new_pairs[j].0 == key2;
                    lemma_pairs_map_at(new_pairs, j);
                    if j != old_pairs.len() {
                        lemma_pairs_map_at(old_pairs, j);
                    }
                }
                assert(pairs_map(new_pairs) =~= pairs_map(old_pairs).insert(k, value));
            },
        }
    }

    /// Drops the value stored under `key`, if any.
    pub fn remove(&mut self, key: &str)
        ensures
            final(self).map() == old(self).map().remove(key@),
    {
        proof { use_type_invariant(&*self); }
        let ghost old_pairs = self.pairs();
        let ghost k = key@;
        match self.find(key) {
            Some(i) => {
                let mut entries: Vec<(String, V)> = Vec::new();
                std::mem::swap(&mut entries, &mut self.entries);
                entries.remove(i);
                let ghost new_pairs = pairs_view(entries@);
                assert(new_pairs =~= old_pairs.remove(i as int));
                assert(keys_unique(new_pairs));
                self.entries = entries;
                let ghost m = pairs_map(old_pairs).remove(k);
                assert forall|key2: Seq<char>| #[trigger] has_key(new_pairs, key2) == m.contains_key(key2) by {
                    if has_key(old_pairs, key2) && key2 != k {
                        let j = choose|j: int| 0 <= j < old_pairs.len() && old_pairs[j].0 == key2;
                        assert(j != i);
                        if j < i {
                            assert(new_pairs[j].0 == key2);
                        } else {
                            assert(new_pairs[j - 1].0 == key2);
                        }
                    }
                    if has_key(new_pairs, key2) {
                        let j = choose|j: int| 0 <= j < new_pairs.len() && new_pairs[j].0 == key2;
                        if j < i {
                            assert(old_pairs[j].0 == key2);
                        } else {
                            assert(old_pairs[j + 1].0 == key2);
                        }
                    }
                }
                assert forall|j: int| 0 <= j < new_pairs.len() implies m[#[trigger] new_pairs[j].0] == new_pairs[j].1 by {
                    if j < i {
                        lemma_pairs_map_at(old_pairs, j);
                    } else {
                        lemma_pairs_map_at(old_pairs, j + 1);
                    }
                }
                proof { lemma_pairs_map_is(new_pairs, m); }
            },
            None => {
                assert(pairs_map(old_pairs) =~= pairs_map(old_pairs).remove(k));
            },
        }
    }

    /// Drops every pair whose key starts with `prefix`.
    pub fn remove_prefixed(&mut self, prefix: &str)
        ensures
            final(self).map() == old(self).map().restrict(
                Set::new(|k: Seq<char>| !prefix@.is_prefix_of(k)),
            ),
    {
        proof { use_type_invariant(&*self); }
        let ghost old_pairs = self.pairs();
        let ghost keep = Set::new(|k: Seq<char>| !prefix@.is_prefix_of(k));
        let mut entries: Vec<(String, V)> = Vec::new();
        std::mem::swap(&mut entries, &mut self.entries);
        assert(pairs_view(entries@) == old_pairs);
        let mut kept: Vec<(String, V)> = Vec::new();
        let ghost mut i: int = 0;
        while entries.len() > 0
            invariant
                0 <= i <= old_pairs.len(),
                pairs_view(entries@) == old_pairs.skip(i),
                keys_unique(old_pairs),
                keys_unique(pairs_view(kept@)),
                forall|a: int| 0 <= a < kept@.len() ==> exists|j: int| 0 <= j < i
                    && #[trigger] pairs_view(kept@)[a] == old_pairs[j] && !prefix@.is_prefix_of(old_pairs[j].0),
                forall|j: int| 0 <= j < i && !prefix@.is_prefix_of(old_pairs[j].0) ==> exists|a: int|
                    0 <= a < kept@.len() && #[trigger] pairs_view(kept@)[a] == #[trigger] old_pairs[j],
            decreases entries@.len(),
        {
            assert(pairs_view(entries@).len() == entries@.len());
            assert(i < old_pairs.len());
            let ghost item = old_pairs[i];
            assert(pairs_view(entries@)[0] == old_pairs.skip(i)[0]);
            assert(pairs_view(entries@)[0] == item);
            let (key, value) = entries.remove(0);
            assert(pairs_view(entries@) =~= old_pairs.skip(i).drop_first());
            assert(old_pairs.skip(i).drop_first() =~= old_pairs.skip(i + 1));
            if !starts_with(key.as_str(), prefix) {
                let ghost before = pairs_view(kept@);
                kept.push((key, value));
                let ghost after = pairs_view(kept@);
                assert(after =~= before.push(item));
                assert forall|a: int, b: int| 0 <= a < after.len() && 0 <= b < after.len() && a != b
                    implies after[a].0 != after[b].0 by {
                    if a == before.len() {
                        let j = choose|j: int| 0 <= j < i && #[trigger] before[b] == old_pairs[j] && !prefix@.is_prefix_of(old_pairs[j].0);
                        assert(old_pairs[j].0 != old_pairs[i].0);
                    } else if b == before.len() {
                        let j = choose|j: int| 0 <= j < i && #[trigger] before[a] == old_pairs[j] && !prefix@.is_prefix_of(old_pairs[j].0);
                        assert(old_pairs[j].0 != old_pairs[i].0);
                    }
                }
                assert forall|a: int| 0 <= a < after.len() implies exists|j: int| 0 <= j < i + 1
                    && #[trigger] after[a] == old_pairs[j] && !prefix@.is_prefix_of(old_pairs[j].0) by {
                    if a == before.len() {
                        assert(after[a] == old_pairs[i]);
                    } else {
                        assert(after[a] == before[a]);
                    }
                }
                assert forall|j: int| 0 <= j < i + 1 && !prefix@.is_prefix_of(old_pairs[j].0) implies exists|a: int|
                    0 <= a < after.len() && #[trigger] after[a] == #[trigger] old_pairs[j] by {
                    if j == i {
                        assert(after[before.len() as int] == old_pairs[j]);
                    } else {
                        let a = choose|a: int| 0 <= a < before.len() && #[trigger] before[a] == #[trigger] old_pairs[j];
                        assert(after[a] == old_pairs[j]);
                    }
                }
            }
            proof { i = i + 1; }
        }
        let ghost new_pairs = pairs_view(kept@);
        let ghost m = pairs_map(old_pairs).restrict(keep);
        assert(pairs_view(entries@).len() == entries@.len());
        assert(i == old_pairs.len());
        assert forall|key2: Seq<char>| #[trigger] has_key(new_pairs, key2) == m.contains_key(key2) by {
            if has_key(new_pairs, key2) {
                let a = choose|a: int| 0 <= a < new_pairs.len() && new_pairs[a].0 == key2;
                let j = choose|j: int| 0 <= j < i && #[trigger] new_pairs[a] == old_pairs[j] && !prefix@.is_prefix_of(old_pairs[j].0);
                assert(has_key(old_pairs, key2));
                assert(keep.contains(key2));
            }
            if m.contains_key(key2) {
                let j = choose|j: int| 0 <= j < old_pairs.len() && old_pairs[j].0 == key2;
                assert(!prefix@.is_prefix_of(old_pairs[j].0));
                let a = choose|a: int| 0 <= a < new_pairs.len() && #[trigger] new_pairs[a] == #[trigger] old_pairs[j];
                assert(new_pairs[a].0 == key2);
            }
        }
        assert forall|a: int| 0 <= a < new_pairs.len() implies m[#[trigger] new_pairs[a].0] == new_pairs[a].1 by {
            let j = choose|j: int| 0 <= j < i && #[trigger] new_pairs[a] == old_pairs[j] && !prefix@.is_prefix_of(old_pairs[j].0);
            lemma_pairs_map_at(old_pairs, j);
        }
        proof { lemma_pairs_map_is(new_pairs, m); }
        self.entries = kept;
    }
}


/// The text map a string-valued pair list stands for.
pub open spec fn text_map(m: Map<Seq<char>, String>) -> Map<Seq<char>, Seq<char>> {
    m.map_values(|v: String| v@)
}

/// The map built by storing each pair in turn, a later pair replacing an earlier one
/// with the same key.
pub open spec fn stored_in_turn(s: Seq<(Seq<char>, Seq<char>)>) -> Map<Seq<char>, Seq<char>>
    decreases s.len(),
{
    if s.len() == 0 {
        Map::empty()
    } else {
        stored_in_turn(s.drop_last()).insert(s.last().0, s.last().1)
    }
}

/// The text pairs as values.
pub open spec fn text_pairs(s: Seq<(String, String)>) -> Seq<(Seq<char>, Seq<char>)> {
    s.map_values(|e: (String, String)| (e.0@, e.1@))
}

impl StrMap<String> {
    /// A copy of the stored pairs, in insertion order.
    pub fn text_entries(&self) -> (r: Vec<(String, String)>)
        ensures
            keys_unique(text_pairs(r@)),
            stored_in_turn(text_pairs(r@)) == text_map(self.map()),
    {
        let entries = self.entries();
        let ghost ps = pairs_view(entries@);
        let mut out: Vec<(String, String)> = Vec::new();
        let mut rebuilt: StrMap<String> = StrMap::new();
        let mut i: usize = 0;
        while i < entries.len()
            invariant
                ps == pairs_view(entries@),
                keys_unique(ps),
                i <= entries@.len(),
                text_pairs(out@) == ps.take(i as int).map_values(|e: (Seq<char>, String)| (e.0, e.1@)),
                rebuilt.map() == pairs_map(ps.take(i as int)),
                stored_in_turn(text_pairs(out@)) == text_map(rebuilt.map()),
            decreases entries@.len() - i,
        {
            let key = entries[i].0.clone();
            let value = entries[i].1.clone();
            let ghost before = text_pairs(out@);
            let ghost before_map = rebuilt.map();
            out.push((entries[i].0.clone(), entries[i].1.clone()));
            rebuilt.insert(key, value);
            assert(text_pairs(out@) =~= before.push((ps[i as int].0, ps[i as int].1@)));
            assert(text_pairs(out@).drop_last() =~= before);
            assert(ps.take(i as int + 1) =~= ps.take(i as int).push(ps[i as int]));
            assert(text_pairs(out@) =~= ps.take(i as int + 1).map_values(|e: (Seq<char>, String)| (e.0, e.1@)));
            let ghost prev = ps.take(i as int);
            let ghost next = ps.take(i as int + 1);
            let ghost item = ps[i as int];
            assert(next == prev.push(item));
            assert(keys_unique(next));
            assert forall|k: Seq<char>| #[trigger] has_key(next, k)
                == before_map.insert(item.0, item.1).contains_key(k) by {
                if has_key(prev, k) {
                    let j = choose|j: int| 0 <= j < prev.len() && prev[j].0 == k;
                    assert(next[j].0 == k);
                }
                if has_key(next, k) {
                    let j = choose|j: int| 0 <= j < next.len() && next[j].0 == k;
                    if j < prev.len() {
                        assert(prev[j].0 == k);
                    }
                }
                if k == item.0 {
                    assert(next[prev.len() as int].0 == k);
                }
            }
            assert forall|j: int| 0 <= j < next.len() implies
                before_map.insert(item.0, item.1)[#[trigger] next[j].0] == next[j].1 by {
                if j < prev.len() {
                    assert(next[j] == prev[j]);
                    lemma_pairs_map_at(prev, j);
                    assert(ps[j].0 != ps[i as int].0);
                }
            }
            proof { lemma_pairs_map_is(ps.take(i as int + 1), before_map.insert(ps[i as int].0, ps[i as int].1)); }
            assert(text_map(rebuilt.map()) =~= text_map(before_map).insert(ps[i as int].0, ps[i as int].1@));
            i = i + 1;
        }
        assert(ps.take(entries@.len() as int) =~= ps);
        assert(keys_unique(text_pairs(out@))) by {
            assert forall|a: int, b: int| 0 <= a < text_pairs(out@).len() && 0 <= b < text_pairs(out@).len() && a != b
                implies text_pairs(out@)[a].0 != text_pairs(out@)[b].0 by {
                assert(text_pairs(out@)[a].0 == ps[a].0);
                assert(text_pairs(out@)[b].0 == ps[b].0);
            }
        }
        out
    }

    /// A map holding each pair in turn, a later pair replacing an earlier one with the
    /// same key.
    pub fn from_text_pairs(pairs: &Vec<(String, String)>) -> (r: StrMap<String>)
        ensures
            text_map(r.map()) == stored_in_turn(text_pairs(pairs@)),
    {
        let mut m: StrMap<String> = StrMap::new();
        assert(text_map(m.map()) =~= Map::<Seq<char>, Seq<char>>::empty());
        let mut i: usize = 0;
        while i < pairs.len()
            invariant
                i <= pairs@.len(),
                text_map(m.map()) == stored_in_turn(text_pairs(pairs@).take(i as int)),
            decreases pairs@.len() - i,
        {
            let ghost before = m.map();
            m.insert(pairs[i].0.clone(), pairs[i].1.clone());
            assert(text_pairs(pairs@).take(i as int + 1).drop_last() =~= text_pairs(pairs@).take(i as int));
            assert(text_map(m.map()) =~= text_map(before).insert(pairs@[i as int].0@, pairs@[i as int].1@));
            i = i + 1;
        }
        assert(text_pairs(pairs@).take(pairs@.len() as int) =~= text_pairs(pairs@));
        m
    }
}

}
