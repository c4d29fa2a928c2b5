//! The operations pane's registry: operations still running this session, and the log
//! of finished ones (newest first, capped) that the app persists.

use vstd::prelude::*;
use crate::history::unix_millis;
use crate::text::{push_str, str_eq};

verus! {

/// How many finished records are kept (and handed to the pane).
pub const MAX_OPERATIONS: usize = 200;

/// One tracked operation: `status` is `running`, `succeeded`, `failed` or `cancelled`;
/// `detail` is a row count on success or the error on failure.
#[derive(Debug)]
pub struct OperationRecord {
    pub id: String,
    pub op_type: String,
    pub label: String,
    pub connection_id: Option<String>,
    pub conn_name: Option<String>,
    pub database: Option<String>,
    pub collection: Option<String>,
    pub status: String,
    pub started_at: i64,
    pub finished_at: Option<i64>,
    pub elapsed_ms: Option<i64>,
    pub detail: Option<String>,
}

/// What a command supplies when it starts tracking an operation.
#[derive(Debug)]
pub struct OpMeta {
    pub op_type: String,
    pub label: String,
    pub connection_id: Option<String>,
    pub conn_name: Option<String>,
    pub database: Option<String>,
    pub collection: Option<String>,
}

fn copy_text(s: &Option<String>) -> (r: Option<String>)
    ensures
        r == *s,
{
    match s {
        Some(t) => Some(t.clone()),
        None => None,
    }
}

impl OperationRecord {
    /// A field-by-field copy.
    pub fn duplicate(&self) -> (r: OperationRecord)
        ensures
            r == *self,
    {
        OperationRecord {
            id: self.id.clone(),
            op_type: self.op_type.clone(),
            label: self.label.clone(),
            connection_id: copy_text(&self.connection_id),
            conn_name: copy_text(&self.conn_name),
            database: copy_text(&self.database),
            collection: copy_text(&self.collection),
            status: self.status.clone(),
            started_at: self.started_at,
            finished_at: self.finished_at,
            elapsed_ms: self.elapsed_ms,
            detail: copy_text(&self.detail),
        }
    }
}

/// `s` with `r` placed after every trailing record that started before it, so it
/// follows the records that started at or after it: one step of a stable sort, newest
/// first.
pub open spec fn insert_by_start(s: Seq<OperationRecord>, r: OperationRecord) -> Seq<OperationRecord>
    decreases s.len(),
{
    if s.len() == 0 {
        seq![r]
    } else if s.last().started_at >= r.started_at {
        s.push(r)
    } else {
        insert_by_start(s.drop_last(), r).push(s.last())
    }
}

/// The records in a stable order, newest start first (records that started together
/// keep their order).
pub open spec fn newest_first(s: Seq<OperationRecord>) -> Seq<OperationRecord>
    decreases s.len(),
{
    if s.len() == 0 {
        seq![]
    } else {
        insert_by_start(newest_first(s.drop_last()), s.last())
    }
}

/// The registry: running operations and the finished log, newest first.
pub struct Operations {
    pub live: Vec<OperationRecord>,
    pub finished: Vec<OperationRecord>,
}

/// Every running record started at a time that is not negative.
pub open spec fn starts_valid(live: Seq<OperationRecord>) -> bool {
    forall|i: int| 0 <= i < live.len() ==> live[i].started_at >= 0
}

/// The position of the first record with id `id`, if any.
pub open spec fn index_of_id(live: Seq<OperationRecord>, id: Seq<char>) -> Option<int> {
    if exists|i: int| 0 <= i < live.len() && live[i].id@ == id {
        Some(choose|i: int| 0 <= i < live.len() && live[i].id@ == id && forall|j: int| 0 <= j < i ==> live[j].id@ != id)
    } else {
        None
    }
}

/// The finished log after `r` is recorded: `r` first, then the old log, capped.
pub open spec fn logged(log: Seq<OperationRecord>, r: OperationRecord) -> Seq<OperationRecord> {
    let l = seq![r] + log;
    if l.len() <= MAX_OPERATIONS { l } else { l.take(MAX_OPERATIONS as int) }
}

/// A new random identifier (uuid's `Uuid::new_v4`, hyphenated text). Claimed: 36
/// characters, as the hyphenated form always has; the value is random.
#[verifier::external_body]
fn new_uuid() -> (r: String)
    ensures
        r@.len() == 36,
{
    uuid::Uuid::new_v4().to_string()
}

/// Milliseconds since the Unix epoch, as a non-negative `i64` (the largest `i64` past
/// its range).
fn clock_ms() -> (r: i64)
    ensures
        r >= 0,
{
    let ms = unix_millis();
    if ms <= 9223372036854775807u128 { ms as i64 } else { 9223372036854775807i64 }
}

/// The position of the first record with id `id`, or the length when there is none.
fn position_of(live: &Vec<OperationRecord>, id: &str) -> (r: usize)
    ensures
        r <= live@.len(),
        forall|j: int| 0 <= j < r ==> live@[j].id@ != id@,
        r < live@.len() ==> live@[r as int].id@ == id@,
{
    let mut i: usize = 0;
    while i < live.len()
        invariant
            i <= live@.len(),
            forall|j: int| 0 <= j < i ==> live@[j].id@ != id@,
        decreases live@.len() - i,
    {
        if str_eq(live[i].id.as_str(), id) {
            return i;
        }
        i = i + 1;
    }
    i
}

/// The running record `start` adds: the operation's description under `id`, started at
/// `now`, with no finish time, elapsed time or detail.
pub open spec fn started_record(id: String, meta: OpMeta, status: String, now: i64) -> OperationRecord {
    OperationRecord {
        id,
        op_type: meta.op_type,
        label: meta.label,
        connection_id: meta.connection_id,
        conn_name: meta.conn_name,
        database: meta.database,
        collection: meta.collection,
        status,
        started_at: now,
        finished_at: None,
        elapsed_ms: None,
        detail: None,
    }
}

/// A running record as `finish` logs it: its status and detail set, finished at `now`,
/// with the time elapsed since it started.
pub open spec fn finished_record(r: OperationRecord, status: String, detail: Option<String>, now: i64) -> OperationRecord {
    OperationRecord {
        status,
        finished_at: Some(now),
        elapsed_ms: Some((now - r.started_at) as i64),
        detail,
        ..r
    }
}

impl Operations {
    /// A registry with no running operations and the given (loaded) finished log.
    pub fn new(finished: Vec<OperationRecord>) -> (r: Operations)
        ensures
            r.live@.len() == 0,
            r.finished@ == finished@,
    {
        Operations { live: Vec::new(), finished }
    }

    /// Begin tracking an operation under `id` at time `now`: it enters the running list
    /// as `running`, with no finish time, elapsed time or detail.
    pub fn start_at(&mut self, meta: OpMeta, id: String, now: i64)
        requires
            now >= 0,
            starts_valid(old(self).live@),
        ensures
            starts_valid(final(self).live@),
            final(self).finished@ == old(self).finished@,
            final(self).live@ == old(self).live@.push(OperationRecord {
                id,
                op_type: meta.op_type,
                label: meta.label,
                connection_id: meta.connection_id,
                conn_name: meta.conn_name,
                database: meta.database,
                collection: meta.collection,
                status: final(self).live@.last().status,
                started_at: now,
                finished_at: None,
                elapsed_ms: None,
                detail: None,
            }),
            final(self).live@.last().status@ == "running"@,
    {
        let record = OperationRecord {
            id,
            op_type: meta.op_type,
            label: meta.label,
            connection_id: meta.connection_id,
            conn_name: meta.conn_name,
            database: meta.database,
            collection: meta.collection,
            status: "running".to_owned(),
            started_at: now,
            finished_at: None,
            elapsed_ms: None,
            detail: None,
        };
        self.live.push(record);
    }

    /// Begin tracking an operation now, under a fresh `op-` id; returns the id.
    pub fn start(&mut self, meta: OpMeta) -> (r: String)
        requires
            starts_valid(old(self).live@),
        ensures
            starts_valid(final(self).live@),
            final(self).finished@ == old(self).finished@,
            exists|now: i64| now >= 0 && final(self).live@ == old(self).live@.push(
                #[trigger] started_record(r, meta, final(self).live@.last().status, now)),
            final(self).live@.len() == old(self).live@.len() + 1,
            final(self).live@.drop_last() == old(self).live@,
            final(self).live@.last().id == r,
            r@.len() == 39 && r@.take(3) == "op-"@,
            final(self).live@.last().status@ == "running"@,
    {
        let mut id = "op-".to_owned();
        let u = new_uuid();
        push_str(&mut id, u.as_str());
        proof {
            reveal_strlit("op-");
            assert(id@.take(3) =~= "op-"@);
        }
        let now = clock_ms();
        let ghost before = self.live@;
        let ghost m = meta;
        self.start_at(meta, id.clone(), now);
        assert(self.live@.drop_last() =~= before);
        assert(self.live@ == before.push(started_record(id, m, self.live@.last().status, now)));
        id
    }

    /// Move a running operation to a terminal state at time `now`: stamp the finish
    /// time and elapsed time, set its status and detail, drop it from the running list
    /// and put it first in the finished log (capped). An unknown id changes nothing;
    /// the result says whether the log changed (and so should be saved).
    pub fn finish_at(&mut self, id: &str, status: &str, detail: Option<String>, now: i64) -> (changed: bool)
        requires
            now >= 0,
            starts_valid(old(self).live@),
        ensures
            starts_valid(final(self).live@),
            changed == (index_of_id(old(self).live@, id@) is Some),
            match index_of_id(old(self).live@, id@) {
                None => final(self).live@ == old(self).live@ && final(self).finished@ == old(self).finished@,
                Some(i) => {
                    let r = old(self).live@[i];
                    &&& final(self).live@ == old(self).live@.remove(i)
                    &&& final(self).finished@ == logged(old(self).finished@, OperationRecord {
                        status: final(self).finished@[0].status,
                        finished_at: Some(now),
                        elapsed_ms: Some((now - r.started_at) as i64),
                        detail,
                        ..r
                    })
                    &&& final(self).finished@[0].status@ == status@
                },
            },
    {
        let i = position_of(&self.live, id);
        let ghost old_live = self.live@;
        if i == self.live.len() {
            assert(!(exists|j: int| 0 <= j < old_live.len() && old_live[j].id@ == id@));
            return false;
        }
        proof {
            let c = choose|c: int| 0 <= c < old_live.len() && old_live[c].id@ == id@
                && forall|j: int| 0 <= j < c ==> old_live[j].id@ != id@;
            assert(old_live[i as int].id@ == id@);
            if c < i {
                assert(old_live[c].id@ != id@);
            }
            if c > i {
                assert(old_live[i as int].id@ != id@);
            }
            assert(index_of_id(old_live, id@) == Some(i as int));
        }
        let mut record = self.live.remove(i);
        let ghost r = record;
        assert(record.started_at >= 0);
        record.finished_at = Some(now);
        record.elapsed_ms = Some(now - record.started_at);
        record.status = status.to_owned();
        record.detail = detail;
        let ghost entry = record;
        let ghost old_log = self.finished@;
        self.finished.insert(0, record);
        self.finished.truncate(MAX_OPERATIONS);
        proof {
            assert(old_log.insert(0, entry) =~= seq![entry] + old_log);
            assert(self.finished@ == logged(old_log, entry));
            assert(self.finished@[0] == entry);
            assert forall|j: int| 0 <= j < self.live@.len() implies self.live@[j].started_at >= 0 by {
                if j < i {
                    assert(self.live@[j] == old_live[j]);
                } else {
                    assert(self.live@[j] == old_live[j + 1]);
                }
            }
        }
        true
    }

    /// Finish a running operation now (see `finish_at`).
    pub fn finish(&mut self, id: &str, status: &str, detail: Option<String>) -> (changed: bool)
        requires
            starts_valid(old(self).live@),
        ensures
            starts_valid(final(self).live@),
            changed == (index_of_id(old(self).live@, id@) is Some),
            !changed ==> final(self).live@ == old(self).live@ && final(self).finished@ == old(self).finished@,
            changed ==> final(self).live@ == old(self).live@.remove(index_of_id(old(self).live@, id@)->Some_0),
            changed ==> exists|now: i64| now >= 0 && final(self).finished@ == logged(
                old(self).finished@,
                #[trigger] finished_record(
                    old(self).live@[index_of_id(old(self).live@, id@)->Some_0],
                    final(self).finished@[0].status,
                    detail,
                    now,
                ),
            ),
            changed ==> final(self).finished@[0].status@ == status@,
    {
        let now = clock_ms();
        let ghost d = detail;
        let changed = self.finish_at(id, status, detail, now);
        proof {
            if changed {
                let r = old(self).live@[index_of_id(old(self).live@, id@)->Some_0];
                assert(finished_record(r, self.finished@[0].status, d, now) == (OperationRecord {
                    status: self.finished@[0].status,
                    finished_at: Some(now),
                    elapsed_ms: Some((now - r.started_at) as i64),
                    detail: d,
                    ..r
                }));
            }
        }
        changed
    }

    /// Drop the finished log (running operations are untouched).
    pub fn clear_finished(&mut self)
        ensures
            final(self).live@ == old(self).live@,
            final(self).finished@.len() == 0,
    {
        self.finished = Vec::new();
    }
}


/// The list the pane shows: at most `MAX_OPERATIONS` records.
pub open spec fn capped(s: Seq<OperationRecord>) -> Seq<OperationRecord> {
    if s.len() <= MAX_OPERATIONS { s } else { s.take(MAX_OPERATIONS as int) }
}

/// Inserting at the position after the records that started at or after `r` is the
/// stable-sort step.
proof fn lemma_insert_by_start(s: Seq<OperationRecord>, r: OperationRecord, pos: int)
    requires
        0 <= pos <= s.len(),
        forall|j: int| pos <= j < s.len() ==> s[j].started_at < r.started_at,
        pos == 0 || s[pos - 1].started_at >= r.started_at,
    ensures
        insert_by_start(s, r) == s.insert(pos, r),
    decreases s.len(),
{
    if s.len() == 0 {
        assert(s.insert(pos, r) =~= seq![r]);
    } else if s.last().started_at >= r.started_at {
        assert(pos == s.len());
        assert(s.insert(pos, r) =~= s.push(r));
    } else {
        lemma_insert_by_start(s.drop_last(), r, pos);
        assert(s.drop_last().insert(pos, r).push(s.last()) =~= s.insert(pos, r));
    }
}

/// Place `r` among records kept newest first, after those that started at or after it.
fn place(out: &mut Vec<OperationRecord>, r: OperationRecord)
    ensures
        final(out)@ == insert_by_start(old(out)@, r),
{
    let mut pos: usize = out.len();
    while pos > 0 && out[pos - 1].started_at < r.started_at
        invariant
            pos <= out@.len(),
            out@ == old(out)@,
            forall|j: int| pos <= j < out@.len() ==> out@[j].started_at < r.started_at,
        decreases pos,
    {
        pos = pos - 1;
    }
    proof {
        lemma_insert_by_start(out@, r, pos as int);
    }
    out.insert(pos, r);
}

impl Operations {
    /// The full list the pane renders: running operations then the finished log,
    /// ordered newest start first (stably) and capped at `MAX_OPERATIONS`.
    pub fn list(&self) -> (r: Vec<OperationRecord>)
        ensures
            r@ == capped(newest_first(self.live@ + self.finished@)),
    {
        let ghost all = self.live@ + self.finished@;
        let ghost nl = self.live@.len() as int;
        let mut out: Vec<OperationRecord> = Vec::new();
        let mut k: usize = 0;
        assert(all.take(0) =~= Seq::<OperationRecord>::empty());
        while k < self.live.len()
            invariant
                k <= self.live@.len(),
                all == self.live@ + self.finished@,
                out@ == newest_first(all.take(k as int)),
            decreases self.live@.len() - k,
        {
            let r = self.live[k].duplicate();
            assert(r == all[k as int]);
            assert(all.take(k as int + 1).drop_last() =~= all.take(k as int));
            place(&mut out, r);
            k = k + 1;
        }
        let mut j: usize = 0;
        while j < self.finished.len()
            invariant
                j <= self.finished@.len(),
                nl == self.live@.len(),
                all == self.live@ + self.finished@,
                out@ == newest_first(all.take(nl + j)),
            decreases self.finished@.len() - j,
        {
            let r = self.finished[j].duplicate();
            assert(r == all[nl + j]);
            assert(all.take(nl + j + 1).drop_last() =~= all.take(nl + j));
            place(&mut out, r);
            j = j + 1;
        }
        assert(all.take(nl + self.finished@.len()) =~= all);
        out.truncate(MAX_OPERATIONS);
        out
    }
}

}

verus! {

/// Started times never increase along the sequence.
pub open spec fn by_start_descending(s: Seq<OperationRecord>) -> bool {
    forall|i: int, j: int| 0 <= i < j < s.len() ==> s[i].started_at >= s[j].started_at
}

proof fn lemma_insert_keeps_order(s: Seq<OperationRecord>, r: OperationRecord)
    requires
        by_start_descending(s),
    ensures
        by_start_descending(insert_by_start(s, r)),
        insert_by_start(s, r).to_multiset() == s.to_multiset().insert(r),
    decreases s.len(),
{
    broadcast use vstd::seq_lib::to_multiset_build;
    if s.len() == 0 {
        assert(seq![r] =~= Seq::<OperationRecord>::empty().push(r));
        assert(Seq::<OperationRecord>::empty().to_multiset().len() == 0) by {
            broadcast use vstd::seq_lib::to_multiset_len;
        }
        assert(s =~= Seq::<OperationRecord>::empty());
    } else if s.last().started_at >= r.started_at {
    } else {
        let t = insert_by_start(s.drop_last(), r);
        lemma_insert_keeps_order(s.drop_last(), r);
        assert(s.drop_last().push(s.last()) =~= s);
        assert forall|i: int| 0 <= i < t.len() implies t[i].started_at >= s.last().started_at by {
            assert(t.to_multiset().count(t[i]) > 0) by {
                broadcast use vstd::seq_lib::to_multiset_contains;
                assert(t.contains(t[i]));
            }
            assert(s.drop_last().to_multiset().insert(r).count(t[i]) > 0);
            if t[i] != r {
                assert(s.drop_last().to_multiset().count(t[i]) > 0) by {
                    broadcast use vstd::multiset::group_multiset_axioms;
                }
                assert(s.drop_last().contains(t[i])) by {
                    broadcast use vstd::seq_lib::to_multiset_contains;
                }
                let k = choose|k: int| 0 <= k < s.drop_last().len() && s.drop_last()[k] == t[i];
                assert(s[k] == t[i]);
            }
        }
        assert(t.push(s.last()).to_multiset() == t.to_multiset().insert(s.last()));
        assert(s.to_multiset() == s.drop_last().to_multiset().insert(s.last()));
        assert(t.push(s.last()).to_multiset() =~= s.to_multiset().insert(r)) by {
            broadcast use vstd::multiset::group_multiset_axioms;
        }
    }
}

/// The pane's list is ordered newest start first and holds exactly the running and
/// finished records (before the cap).
pub proof fn law_list_is_newest_first(s: Seq<OperationRecord>)
    ensures
        by_start_descending(newest_first(s)),
        newest_first(s).to_multiset() == s.to_multiset(),
    decreases s.len(),
{
    broadcast use vstd::seq_lib::to_multiset_build;
    if s.len() == 0 {
        assert(newest_first(s) =~= s);
    } else {
        law_list_is_newest_first(s.drop_last());
        lemma_insert_keeps_order(newest_first(s.drop_last()), s.last());
        assert(s.drop_last().push(s.last()) =~= s);
    }
}

/// The finished log never holds more than `MAX_OPERATIONS` records, and the record
/// just finished comes first.
pub proof fn law_log_is_capped_newest_first(log: Seq<OperationRecord>, r: OperationRecord)
    ensures
        logged(log, r).len() <= MAX_OPERATIONS,
        logged(log, r)[0] == r,
{
}

}
