//! Per-collection change history: enough of each single-document change to reverse it
//! later, newest first, capped so old entries roll off.

use vstd::prelude::*;
use crate::text::str_eq;
use crate::seqs::{keep_where, first_where, lemma_keep_step, lemma_keep_disjoint, lemma_keep_all_satisfy};

verus! {

/// Newest-N cap: the history is a convenience safety net, not an audit log.
pub const MAX_ENTRIES: usize = 500;

/// One recorded single-document change. `before` holds the pre-image (canonical
/// Extended JSON) for updates and deletes; an insert has none.
pub struct HistoryEntry {
    pub id: String,
    pub conn_id: String,
    pub database: String,
    pub collection: String,
    /// "insert" | "update" | "delete"
    pub op: String,
    /// epoch milliseconds
    pub at: i64,
    /// the document's _id, as Extended JSON
    pub doc_id: String,
    /// the pre-image document, as Extended JSON (update/delete)
    pub before: Option<String>,
}

impl HistoryEntry {
    /// A field-by-field copy.
    pub fn duplicate(&self) -> (r: HistoryEntry)
        ensures
            r == *self,
    {
        HistoryEntry {
            id: self.id.clone(),
            conn_id: self.conn_id.clone(),
            database: self.database.clone(),
            collection: self.collection.clone(),
            op: self.op.clone(),
            at: self.at,
            doc_id: self.doc_id.clone(),
            before: match &self.before {
                Some(b) => Some(b.clone()),
                None => None,
            },
        }
    }
}

/// Whether an entry belongs to one collection of one connection.
pub open spec fn in_collection(conn_id: Seq<char>, database: Seq<char>, collection: Seq<char>) -> spec_fn(HistoryEntry) -> bool {
    |e: HistoryEntry| e.conn_id@ == conn_id && e.database@ == database && e.collection@ == collection
}

/// Whether an entry does not belong to one collection of one connection.
pub open spec fn outside_collection(conn_id: Seq<char>, database: Seq<char>, collection: Seq<char>) -> spec_fn(HistoryEntry) -> bool {
    |e: HistoryEntry| !(e.conn_id@ == conn_id && e.database@ == database && e.collection@ == collection)
}

/// Whether an entry has the given id.
pub open spec fn has_id(id: Seq<char>) -> spec_fn(HistoryEntry) -> bool {
    |e: HistoryEntry| e.id@ == id
}

/// The list after recording `entry` at the front, trimmed to the cap.
pub open spec fn pushed(entries: Seq<HistoryEntry>, entry: HistoryEntry) -> Seq<HistoryEntry> {
    let grown = seq![entry] + entries;
    if grown.len() > MAX_ENTRIES { grown.take(MAX_ENTRIES as int) } else { grown }
}

fn is_in_collection(e: &HistoryEntry, conn_id: &str, database: &str, collection: &str) -> (r: bool)
    ensures
        r == in_collection(conn_id@, database@, collection@)(*e),
{
    str_eq(e.conn_id.as_str(), conn_id) && str_eq(e.database.as_str(), database)
        && str_eq(e.collection.as_str(), collection)
}

/// Persisted change history across all collections, newest first.
pub struct CollectionHistoryStore {
    entries: Vec<HistoryEntry>,
}

impl View for CollectionHistoryStore {
    type V = Seq<HistoryEntry>;

    closed spec fn view(&self) -> Seq<HistoryEntry> {
        self.entries@
    }
}

impl CollectionHistoryStore {
    /// An empty history.
    pub fn new() -> (r: CollectionHistoryStore)
        ensures
            r@ == Seq::<HistoryEntry>::empty(),
    {
        CollectionHistoryStore { entries: Vec::new() }
    }

    /// A history holding the given entries, newest first (as read back from disk).
    pub fn from_entries(entries: Vec<HistoryEntry>) -> (r: CollectionHistoryStore)
        ensures
            r@ == entries@,
    {
        CollectionHistoryStore { entries }
    }

    /// Every entry, newest first.
    pub fn load(&self) -> (r: Vec<HistoryEntry>)
        ensures
            r@ == self@,
    {
        let mut out: Vec<HistoryEntry> = Vec::new();
        let mut i: usize = 0;
        while i < self.entries.len()
            invariant
                i <= self.entries@.len(),
                out@ == self@.take(i as int),
            decreases self.entries@.len() - i,
        {
            out.push(self.entries[i].duplicate());
            assert(out@ =~= self@.take(i as int + 1));
            i = i + 1;
        }
        assert(self@.take(self.entries@.len() as int) =~= self@);
        out
    }

    /// Record a change at the front (newest first), trimming to the cap.
    pub fn push(&mut self, entry: HistoryEntry)
        ensures
            final(self)@ == pushed(old(self)@, entry),
    {
        let ghost before = self@;
        self.entries.insert(0, entry);
        assert(self@ =~= seq![entry] + before);
        if self.entries.len() > MAX_ENTRIES {
            self.entries.truncate(MAX_ENTRIES);
        }
    }

    /// Every entry for one collection, newest first.
    pub fn list_for(&self, conn_id: &str, database: &str, collection: &str) -> (r: Vec<HistoryEntry>)
        ensures
            r@ == keep_where(self@, in_collection(conn_id@, database@, collection@)),
    {
        let ghost p = in_collection(conn_id@, database@, collection@);
        let mut out: Vec<HistoryEntry> = Vec::new();
        let mut i: usize = 0;
        assert(self@.skip(0) =~= self@);
        assert(out@ + keep_where(self@, p) =~= keep_where(self@, p));
        while i < self.entries.len()
            invariant
                i <= self.entries@.len(),
                p == in_collection(conn_id@, database@, collection@),
                keep_where(self@, p) == out@ + keep_where(self@.skip(i as int), p),
            decreases self.entries@.len() - i,
        {
            proof { lemma_keep_step(self@, p, i as int); }
            if is_in_collection(&self.entries[i], conn_id, database, collection) {
                let ghost prev = out@;
                out.push(self.entries[i].duplicate());
                assert(prev + (seq![self@[i as int]] + keep_where(self@.skip(i as int + 1), p))
                    =~= out@ + keep_where(self@.skip(i as int + 1), p));
            }
            i = i + 1;
        }
        assert(self@.skip(i as int) =~= Seq::<HistoryEntry>::empty());
        assert(out@ + Seq::<HistoryEntry>::empty() =~= out@);
        out
    }

    /// A single entry by id (for restore).
    pub fn get(&self, entry_id: &str) -> (r: Option<HistoryEntry>)
        ensures
            r == first_where(self@, has_id(entry_id@)),
    {
        let ghost p = has_id(entry_id@);
        let mut i: usize = 0;
        assert(self@.skip(0) =~= self@);
        while i < self.entries.len()
            invariant
                i <= self.entries@.len(),
                p == has_id(entry_id@),
                first_where(self@, p) == first_where(self@.skip(i as int), p),
            decreases self.entries@.len() - i,
        {
            proof { lemma_keep_step(self@, p, i as int); }
            if str_eq(self.entries[i].id.as_str(), entry_id) {
                return Some(self.entries[i].duplicate());
            }
            i = i + 1;
        }
        assert(self@.skip(i as int) =~= Seq::<HistoryEntry>::empty());
        None
    }

    /// Drop every entry for one collection.
    pub fn clear_for(&mut self, conn_id: &str, database: &str, collection: &str)
        ensures
            final(self)@ == keep_where(old(self)@, outside_collection(conn_id@, database@, collection@)),
    {
        let ghost p = outside_collection(conn_id@, database@, collection@);
        let ghost start = self@;
        let mut out: Vec<HistoryEntry> = Vec::new();
        let mut i: usize = 0;
        assert(start.skip(0) =~= start);
        assert(out@ + keep_where(start, p) =~= keep_where(start, p));
        while i < self.entries.len()
            invariant
                self@ == start,
                i <= self.entries@.len(),
                p == outside_collection(conn_id@, database@, collection@),
                keep_where(start, p) == out@ + keep_where(start.skip(i as int), p),
            decreases self.entries@.len() - i,
        {
            proof { lemma_keep_step(start, p, i as int); }
            if !is_in_collection(&self.entries[i], conn_id, database, collection) {
                let ghost prev = out@;
                out.push(self.entries[i].duplicate());
                assert(prev + (seq![start[i as int]] + keep_where(start.skip(i as int + 1), p))
                    =~= out@ + keep_where(start.skip(i as int + 1), p));
            }
            i = i + 1;
        }
        assert(start.skip(i as int) =~= Seq::<HistoryEntry>::empty());
        assert(out@ + Seq::<HistoryEntry>::empty() =~= out@);
        self.entries = out;
    }
}

/// After a collection's history is cleared, listing it yields nothing, and the
/// entries of every other collection remain in order.
pub proof fn law_clear_then_list_is_empty(
    entries: Seq<HistoryEntry>,
    conn_id: Seq<char>,
    database: Seq<char>,
    collection: Seq<char>,
)
    ensures
        keep_where(
            keep_where(entries, outside_collection(conn_id, database, collection)),
            in_collection(conn_id, database, collection),
        ) == Seq::<HistoryEntry>::empty(),
{
    let p = outside_collection(conn_id, database, collection);
    let q = in_collection(conn_id, database, collection);
    assert forall|x: HistoryEntry| #[trigger] p(x) implies !q(x) by {}
    lemma_keep_disjoint(entries, p, q);
}

/// Recording a change puts it first, keeps the earlier entries after it in order, and
/// never lets the history grow past the cap.
pub proof fn law_push_is_newest_first_and_bounded(entries: Seq<HistoryEntry>, entry: HistoryEntry)
    requires
        entries.len() <= MAX_ENTRIES,
    ensures
        pushed(entries, entry)[0] == entry,
        pushed(entries, entry).len() <= MAX_ENTRIES,
        forall|j: int| 0 <= j < pushed(entries, entry).len() - 1 ==> #[trigger] pushed(entries, entry)[j + 1] == entries[j],
{
}

/// Every entry a listing returns belongs to the listed collection.
pub proof fn law_list_only_that_collection(
    entries: Seq<HistoryEntry>,
    conn_id: Seq<char>,
    database: Seq<char>,
    collection: Seq<char>,
)
    ensures
        forall|j: int| 0 <= j < keep_where(entries, in_collection(conn_id, database, collection)).len() ==>
            in_collection(conn_id, database, collection)(
                #[trigger] keep_where(entries, in_collection(conn_id, database, collection))[j]),
{
    lemma_keep_all_satisfy(entries, in_collection(conn_id, database, collection));
}

}
