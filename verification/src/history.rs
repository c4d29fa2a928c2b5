//! Per-collection query history: the most recent distinct queries, newest first.

use vstd::prelude::*;
use crate::text::{decimal_digits, natural_string, str_eq};
use crate::kv::{StrMap, keys_unique, has_key, pairs_map, pairs_view, lemma_pairs_map_at, lemma_pairs_map_is};
use crate::seqs::{keep_where, lemma_keep_step, lemma_keep_all_satisfy};

verus! {

/// Milliseconds elapsed since the Unix epoch on the system clock (std
/// `SystemTime::now` and `duration_since`); 0 when the clock reads before the epoch.
/// Nothing is claimed of the value: it is whatever the clock reads.
#[verifier::external_body]
pub(crate) fn unix_millis() -> u128 {
    match std::time::SystemTime::now().duration_since(std::time::UNIX_EPOCH) {
        Ok(elapsed) => elapsed.as_millis(),
        Err(_) => 0,
    }
}

/// The current time as decimal milliseconds since the Unix epoch.
pub fn now_ms() -> (r: String)
    ensures
        exists|ms: nat| r@ == decimal_digits(ms),
{
    let ms = unix_millis();
    natural_string(ms)
}


/// How many queries each collection keeps.
pub const MAX_HISTORY: usize = 50;

/// One query as it was run.
pub struct QueryHistoryEntry {
    pub id: String,
    pub mode: String,
    pub filter: String,
    pub sort: String,
    pub projection: String,
    pub skip: i64,
    pub limit: i64,
    pub pipeline: String,
    pub ran_at: String,
}

impl QueryHistoryEntry {
    /// A field-by-field copy.
    pub fn duplicate(&self) -> (r: QueryHistoryEntry)
        ensures
            r == *self,
    {
        QueryHistoryEntry {
            id: self.id.clone(),
            mode: self.mode.clone(),
            filter: self.filter.clone(),
            sort: self.sort.clone(),
            projection: self.projection.clone(),
            skip: self.skip,
            limit: self.limit,
            pipeline: self.pipeline.clone(),
            ran_at: self.ran_at.clone(),
        }
    }
}

/// Two entries are the same query when everything but their id and run time agree.
pub open spec fn same_query(a: QueryHistoryEntry, b: QueryHistoryEntry) -> bool {
    &&& a.mode@ == b.mode@
    &&& a.filter@ == b.filter@
    &&& a.sort@ == b.sort@
    &&& a.projection@ == b.projection@
    &&& a.skip == b.skip
    &&& a.limit == b.limit
    &&& a.pipeline@ == b.pipeline@
}

/// Whether an entry is a different query from `entry`.
pub open spec fn other_query(entry: QueryHistoryEntry) -> spec_fn(QueryHistoryEntry) -> bool {
    |e: QueryHistoryEntry| !same_query(e, entry)
}

/// A collection's history after running `entry`: it goes first, an earlier run of the
/// same query is dropped, and the list is cut to `MAX_HISTORY`.
pub open spec fn after_push(entries: Seq<QueryHistoryEntry>, entry: QueryHistoryEntry) -> Seq<QueryHistoryEntry> {
    let grown = seq![entry] + keep_where(entries, other_query(entry));
    if grown.len() > MAX_HISTORY { grown.take(MAX_HISTORY as int) } else { grown }
}

/// Whether two entries are the same query.
pub fn is_same_query(a: &QueryHistoryEntry, b: &QueryHistoryEntry) -> (r: bool)
    ensures
        r == same_query(*a, *b),
{
    str_eq(a.mode.as_str(), b.mode.as_str())
        && str_eq(a.filter.as_str(), b.filter.as_str())
        && str_eq(a.sort.as_str(), b.sort.as_str())
        && str_eq(a.projection.as_str(), b.projection.as_str())
        && a.skip == b.skip
        && a.limit == b.limit
        && str_eq(a.pipeline.as_str(), b.pipeline.as_str())
}

/// The query histories, keyed by collection tree path, newest first.
pub struct HistoryStorage {
    inner: StrMap<Vec<QueryHistoryEntry>>,
}

impl View for HistoryStorage {
    type V = Map<Seq<char>, Seq<QueryHistoryEntry>>;

    closed spec fn view(&self) -> Map<Seq<char>, Seq<QueryHistoryEntry>> {
        self.inner.map().map_values(|v: Vec<QueryHistoryEntry>| v@)
    }
}

/// Histories by their keys' characters.
pub open spec fn history_pairs(s: Seq<(String, Vec<QueryHistoryEntry>)>) -> Seq<(Seq<char>, Seq<QueryHistoryEntry>)> {
    s.map_values(|e: (String, Vec<QueryHistoryEntry>)| (e.0@, e.1@))
}

/// The history of one key; empty when there is none.
pub open spec fn history_of(m: Map<Seq<char>, Seq<QueryHistoryEntry>>, key: Seq<char>) -> Seq<QueryHistoryEntry> {
    if m.contains_key(key) { m[key] } else { Seq::empty() }
}

fn copy_entries(v: &Vec<QueryHistoryEntry>) -> (r: Vec<QueryHistoryEntry>)
    ensures
        r@ == v@,
{
    let mut out: Vec<QueryHistoryEntry> = Vec::new();
    let mut i: usize = 0;
    while i < v.len()
        invariant
            i <= v@.len(),
            out@ == v@.take(i as int),
        decreases v@.len() - i,
    {
        out.push(v[i].duplicate());
        assert(out@ =~= v@.take(i as int + 1));
        i = i + 1;
    }
    assert(v@.take(v@.len() as int) =~= v@);
    out
}

impl HistoryStorage {
    /// No history.
    pub fn new() -> (r: HistoryStorage)
        ensures
            r@ == Map::<Seq<char>, Seq<QueryHistoryEntry>>::empty(),
    {
        let r = HistoryStorage { inner: StrMap::new() };
        assert(r@ =~= Map::<Seq<char>, Seq<QueryHistoryEntry>>::empty());
        r
    }

    /// The history of `key`, newest first; empty when there is none.
    pub fn get(&self, key: &str) -> (r: Vec<QueryHistoryEntry>)
        ensures
            r@ == history_of(self@, key@),
    {
        match self.inner.get(key) {
            Some(entries) => copy_entries(entries),
            None => Vec::new(),
        }
    }

    /// Records a run of `entry` under `key`: newest first, without an earlier run of
    /// the same query, at most `MAX_HISTORY` long.
    pub fn push(&mut self, key: &str, entry: QueryHistoryEntry)
        ensures
            final(self)@ == old(self)@.insert(key@, after_push(history_of(old(self)@, key@), entry)),
    {
        let ghost before = self@;
        let current: Vec<QueryHistoryEntry> = match self.inner.get(key) {
            Some(entries) => copy_entries(entries),
            None => Vec::new(),
        };
        let ghost start = current@;
        assert(start == history_of(before, key@));
        let ghost p = other_query(entry);
        let mut kept: Vec<QueryHistoryEntry> = Vec::new();
        let mut i: usize = 0;
        assert(start.skip(0) =~= start);
        assert(kept@ + keep_where(start, p) =~= keep_where(start, p));
        while i < current.len()
            invariant
                current@ == start,
                p == other_query(entry),
                i <= current@.len(),
                keep_where(start, p) == kept@ + keep_where(start.skip(i as int), p),
            decreases current@.len() - i,
        {
            proof { lemma_keep_step(start, p, i as int); }
            if !is_same_query(&current[i], &entry) {
                let ghost prev = kept@;
                kept.push(current[i].duplicate());
                assert(prev + (seq![start[i as int]] + keep_where(start.skip(i as int + 1), p))
                    =~= kept@ + keep_where(start.skip(i as int + 1), p));
            }
            i = i + 1;
        }
        assert(start.skip(i as int) =~= Seq::<QueryHistoryEntry>::empty());
        assert(kept@ + Seq::<QueryHistoryEntry>::empty() =~= kept@);
        let ghost e = entry;
        kept.insert(0, entry);
        assert(kept@ =~= seq![e] + keep_where(start, p));
        if kept.len() > MAX_HISTORY {
            kept.truncate(MAX_HISTORY);
        }
        assert(kept@ == after_push(start, e));
        let ghost m = self.inner.map();
        self.inner.insert(key.to_owned(), kept);
        assert(self@ =~= before.insert(key@, after_push(start, e)));
    }

    /// Every key's history, one pair per key, in the order the keys were first stored.
    pub fn load_all(&self) -> (r: Vec<(String, Vec<QueryHistoryEntry>)>)
        ensures
            keys_unique(history_pairs(r@)),
            pairs_map(history_pairs(r@)) == self@,
    {
        let entries = self.inner.entries();
        let ghost src = pairs_view(entries@);
        let mut out: Vec<(String, Vec<QueryHistoryEntry>)> = Vec::new();
        let mut i: usize = 0;
        while i < entries.len()
            invariant
                i <= entries@.len(),
                src == pairs_view(entries@),
                src == self.inner.pairs(),
                keys_unique(src),
                history_pairs(out@) == src.take(i as int).map_values(|e: (Seq<char>, Vec<QueryHistoryEntry>)| (e.0, e.1@)),
            decreases entries@.len() - i,
        {
            let key = entries[i].0.clone();
            let list = copy_entries(&entries[i].1);
            let ghost before = history_pairs(out@);
            out.push((key, list));
            assert(history_pairs(out@) =~= before.push((src[i as int].0, src[i as int].1@)));
            assert(src.take(i as int + 1).map_values(|e: (Seq<char>, Vec<QueryHistoryEntry>)| (e.0, e.1@))
                =~= src.take(i as int).map_values(|e: (Seq<char>, Vec<QueryHistoryEntry>)| (e.0, e.1@)).push((src[i as int].0, src[i as int].1@)));
            i = i + 1;
        }
        let ghost hp = history_pairs(out@);
        assert(src.take(entries@.len() as int) =~= src);
        assert(keys_unique(hp)) by {
            assert forall|a: int, b: int| 0 <= a < hp.len() && 0 <= b < hp.len() && a != b implies hp[a].0 != hp[b].0 by {
                assert(hp[a].0 == src[a].0 && hp[b].0 == src[b].0);
            }
        }
        proof {
            assert forall|k: Seq<char>| #[trigger] has_key(hp, k) == self@.contains_key(k) by {
                if has_key(hp, k) {
                    let j = choose|j: int| 0 <= j < hp.len() && hp[j].0 == k;
                    assert(src[j].0 == k);
                    assert(has_key(src, k));
                }
                if self@.contains_key(k) {
                    assert(has_key(src, k));
                    let j = choose|j: int| 0 <= j < src.len() && src[j].0 == k;
                    assert(hp[j].0 == k);
                }
            }
            assert forall|j: int| 0 <= j < hp.len() implies self@[#[trigger] hp[j].0] == hp[j].1 by {
                lemma_pairs_map_at(src, j);
                assert(hp[j] == (src[j].0, src[j].1@));
            }
            lemma_pairs_map_is(hp, self@);
        }
        out
    }

    /// Forgets the history of `key`.
    pub fn clear(&mut self, key: &str)
        ensures
            final(self)@ == old(self)@.remove(key@),
    {
        let ghost before = self@;
        self.inner.remove(key);
        assert(self@ =~= before.remove(key@));
    }
}

/// Running a query puts it first, leaves no other run of the same query in the
/// history, and keeps the history within `MAX_HISTORY`.
pub proof fn law_push_dedups_and_bounds(entries: Seq<QueryHistoryEntry>, entry: QueryHistoryEntry)
    ensures
        after_push(entries, entry)[0] == entry,
        after_push(entries, entry).len() <= MAX_HISTORY,
        forall|j: int| 1 <= j < after_push(entries, entry).len() ==>
            !same_query(#[trigger] after_push(entries, entry)[j], entry),
{
    let kept = keep_where(entries, other_query(entry));
    lemma_keep_all_satisfy(entries, other_query(entry));
    assert forall|j: int| 1 <= j < after_push(entries, entry).len() implies
        !same_query(#[trigger] after_push(entries, entry)[j], entry) by {
        assert(after_push(entries, entry)[j] == kept[j - 1]);
        assert(other_query(entry)(kept[j - 1]));
    }
}

}
