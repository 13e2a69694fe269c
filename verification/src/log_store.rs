//! The append-only raft log: ordered `(term, index)` entries with the
//! iteration and term-matching queries the leader replication driver needs.

use vstd::prelude::*;

use crate::bitmaps::{tm_insert, tm_new, tm_of};
use crate::changes_merge::MergedChanges;
use crate::collection::Collection;
use crate::document::AccountId;

verus! {

pub type TermId = u64;

pub type LogIndex = u64;

pub type PeerId = u32;

/// Position of one entry in the replicated log. The sentinel with both
/// fields at `u64::MAX` means "no entry".
#[derive(Debug, Clone, Copy, PartialEq, Eq, Hash, Structural)]
pub struct RaftId {
    pub term: TermId,
    pub index: LogIndex,
}

impl RaftId {
    pub fn new(term: TermId, index: LogIndex) -> (r: RaftId)
        ensures
            r == (RaftId { term, index }),
    {
        RaftId { term, index }
    }

    /// The "no entry" sentinel.
    pub fn none() -> (r: RaftId)
        ensures
            r == (RaftId { term: u64::MAX, index: u64::MAX }),
    {
        RaftId { term: u64::MAX, index: u64::MAX }
    }

    pub fn is_none(&self) -> (r: bool)
        ensures
            r == (self.term == u64::MAX && self.index == u64::MAX),
    {
        self.term == u64::MAX && self.index == u64::MAX
    }
}

/// One replicated action.
pub enum LogEntry {
    /// Establishes a membership or configuration point.
    Snapshot { raft_id: RaftId },
    /// References the documents mutated in one collection of one account.
    Update { account_id: AccountId, collection: Collection, changes: roaring::RoaringBitmap },
}

/// One item of a replication batch sent to a follower.
pub enum Update {
    Log { raft_id: RaftId, entry: LogEntry },
    Change { account_id: AccountId, collection: Collection, bytes: Vec<u8> },
    Eof,
}

/// A per-collection change bundle waiting to be shipped.
pub struct PendingChange {
    pub account_id: AccountId,
    pub collection: Collection,
    pub changes: MergedChanges,
}

/// Whether `idx` lies in the half-open shipping window after `after` up to
/// and including `up_to`; `after == u64::MAX` means "from the start".
pub open spec fn in_window(idx: LogIndex, after: LogIndex, up_to: LogIndex) -> bool {
    (after == u64::MAX || idx > after) && idx <= up_to
}

/// The term boundaries of the first `n` entries: every entry whose term
/// differs from its predecessor's.
pub open spec fn match_terms_of(s: Seq<(RaftId, LogEntry)>, n: int) -> Seq<RaftId>
    decreases n,
{
    if n <= 0 {
        Seq::empty()
    } else {
        let prev = match_terms_of(s, n - 1);
        if n == 1 || s[n - 1].0.term != s[n - 2].0.term {
            prev.push(s[n - 1].0)
        } else {
            prev
        }
    }
}

/// Every window entry up to `last` has a corresponding `Log` item in the
/// batch.
pub open spec fn batch_complete(
    entries: Seq<(RaftId, LogEntry)>,
    out: Seq<Update>,
    after: LogIndex,
    up_to: LogIndex,
    last: LogIndex,
) -> bool {
    forall|i: int|
        0 <= i < entries.len() && in_window((#[trigger] entries[i]).0.index, after, up_to)
            && entries[i].0.index <= last ==> (exists|k: int|
            0 <= k < out.len() && ((#[trigger] out[k]) matches Update::Log {
                raft_id,
                ..
            } && raft_id == entries[i].0))
}

/// In-memory append-only log store.
pub struct LogStore {
    pub entries: Vec<(RaftId, LogEntry)>,
}

impl LogStore {
    /// Internal invariant: indexes strictly increase, terms never
    /// decrease, and the sentinel values are never used.
    pub open spec fn wf(self) -> bool {
        &&& forall|i: int, j: int|
            0 <= i < j < self.entries@.len() ==> (#[trigger] self.entries@[i]).0.index < (
            #[trigger] self.entries@[j]).0.index
        &&& forall|i: int, j: int|
            0 <= i < j < self.entries@.len() ==> (#[trigger] self.entries@[i]).0.term <= (
            #[trigger] self.entries@[j]).0.term
        &&& forall|i: int|
            0 <= i < self.entries@.len() ==> (#[trigger] self.entries@[i]).0.index < u64::MAX
                && self.entries@[i].0.term < u64::MAX
    }

    pub fn new() -> (r: LogStore)
        ensures
            r.wf(),
            r.entries@.len() == 0,
    {
        LogStore { entries: Vec::new() }
    }

    /// Appends one entry; only the leader thread does this, with a fresh
    /// index and a term no older than the last.
    pub fn append(&mut self, id: RaftId, entry: LogEntry)
        requires
            old(self).wf(),
            id.index < u64::MAX,
            id.term < u64::MAX,
            old(self).entries@.len() > 0 ==> id.index > old(self).entries@.last().0.index
                && id.term >= old(self).entries@.last().0.term,
        ensures
            final(self).wf(),
            final(self).entries@.len() == old(self).entries@.len() + 1,
            final(self).entries@.last().0 == id,
            forall|i: int|
                0 <= i < old(self).entries@.len() ==> (#[trigger] final(self).entries@[i]) == old(
                    self,
                ).entries@[i],
    {
        self.entries.push((id, entry));
    }

    /// The position of the newest entry, if the log is not empty.
    pub fn last_log(&self) -> (r: Option<RaftId>)
        ensures
            match r {
                Some(id) => self.entries@.len() > 0 && id == self.entries@.last().0,
                None => self.entries@.len() == 0,
            },
    {
        if self.entries.len() == 0 {
            None
        } else {
            Some(self.entries[self.entries.len() - 1].0)
        }
    }

    /// The newest entry at or before `key.index`, in index order.
    pub fn get_prev_raft_id(&self, key: RaftId) -> (r: Option<RaftId>)
        requires
            self.wf(),
        ensures
            match r {
                Some(id) => exists|i: int|
                    0 <= i < self.entries@.len() && (#[trigger] self.entries@[i]).0 == id
                        && id.index <= key.index && forall|j: int|
                        0 <= j < self.entries@.len() && (#[trigger] self.entries@[j]).0.index
                            <= key.index ==> self.entries@[j].0.index <= id.index,
                None => forall|i: int|
                    0 <= i < self.entries@.len() ==> (#[trigger] self.entries@[i]).0.index
                        > key.index,
            },
    {
        let mut r: Option<RaftId> = None;
        let mut i: usize = 0;
        while i < self.entries.len()
            invariant
                0 <= i <= self.entries@.len(),
                self.wf(),
                match r {
                    Some(id) => exists|k: int|
                        0 <= k < i && (#[trigger] self.entries@[k]).0 == id && id.index
                            <= key.index && forall|j: int|
                            0 <= j < i && (#[trigger] self.entries@[j]).0.index <= key.index
                                ==> self.entries@[j].0.index <= id.index,
                    None => forall|j: int|
                        0 <= j < i ==> (#[trigger] self.entries@[j]).0.index > key.index,
                },
            decreases self.entries@.len() - i,
        {
            if self.entries[i].0.index <= key.index {
                r = Some(self.entries[i].0);
            }
            i = i + 1;
        }
        r
    }

    /// The oldest entry at or after `key.index`, in index order.
    pub fn get_next_raft_id(&self, key: RaftId) -> (r: Option<RaftId>)
        requires
            self.wf(),
        ensures
            match r {
                Some(id) => exists|i: int|
                    0 <= i < self.entries@.len() && (#[trigger] self.entries@[i]).0 == id
                        && id.index >= key.index && forall|j: int|
                        0 <= j < self.entries@.len() && (#[trigger] self.entries@[j]).0.index
                            >= key.index ==> self.entries@[j].0.index >= id.index,
                None => forall|i: int|
                    0 <= i < self.entries@.len() ==> (#[trigger] self.entries@[i]).0.index
                        < key.index,
            },
    {
        let mut i: usize = 0;
        while i < self.entries.len()
            invariant
                0 <= i <= self.entries@.len(),
                self.wf(),
                forall|j: int| 0 <= j < i ==> (#[trigger] self.entries@[j]).0.index < key.index,
            decreases self.entries@.len() - i,
        {
            if self.entries[i].0.index >= key.index {
                let id = self.entries[i].0;
                proof {
                    assert forall|j: int|
                        0 <= j < self.entries@.len() && (#[trigger] self.entries@[j]).0.index
                            >= key.index implies self.entries@[j].0.index >= id.index by {
                        if j < i as int {
                        }
                    }
                }
                return Some(id);
            }
            i = i + 1;
        }
        None
    }

    /// The compact term vector: every entry at a term boundary. Never
    /// empty on a non-empty log; its first element anchors the log start.
    pub fn get_match_terms(&self) -> (r: Vec<RaftId>)
        requires
            self.wf(),
        ensures
            r@ == match_terms_of(self.entries@, self.entries@.len() as int),
            self.entries@.len() > 0 ==> r@.len() > 0,
    {
        let mut r: Vec<RaftId> = Vec::new();
        let mut i: usize = 0;
        while i < self.entries.len()
            invariant
                0 <= i <= self.entries@.len(),
                self.wf(),
                r@ == match_terms_of(self.entries@, i as int),
                i > 0 ==> r@.len() > 0,
            decreases self.entries@.len() - i,
        {
            if i == 0 || self.entries[i].0.term != self.entries[i - 1].0.term {
                r.push(self.entries[i].0);
            }
            i = i + 1;
        }
        r
    }

    /// The local indexes carrying the same term as the oldest entry at or
    /// after `min_index`, restricted to indexes at or after it.
    pub fn get_match_indexes(&self, min_index: LogIndex) -> (r: (TermId, roaring::RoaringTreemap))
        requires
            self.wf(),
        ensures
            tm_of(r.1).finite(),
            (exists|i: int|
                0 <= i < self.entries@.len() && (#[trigger] self.entries@[i]).0.index
                    >= min_index) ==> forall|x: u64|
                #[trigger] tm_of(r.1).contains(x) == (exists|i: int|
                    0 <= i < self.entries@.len() && (#[trigger] self.entries@[i]).0.index == x
                        && x >= min_index && self.entries@[i].0.term == r.0),
            (exists|i: int|
                0 <= i < self.entries@.len() && (#[trigger] self.entries@[i]).0.index
                    >= min_index) ==> exists|i: int|
                0 <= i < self.entries@.len() && (#[trigger] self.entries@[i]).0.index >= min_index
                    && self.entries@[i].0.term == r.0 && (forall|j: int|
                    0 <= j < self.entries@.len() && (#[trigger] self.entries@[j]).0.index
                        >= min_index ==> self.entries@[j].0.index >= self.entries@[i].0.index),
            !(exists|i: int|
                0 <= i < self.entries@.len() && (#[trigger] self.entries@[i]).0.index >= min_index)
                ==> tm_of(r.1) == Set::<u64>::empty(),
    {
        let mut i: usize = 0;
        while i < self.entries.len() && self.entries[i].0.index < min_index
            invariant
                0 <= i <= self.entries@.len(),
                self.wf(),
                forall|j: int| 0 <= j < i ==> (#[trigger] self.entries@[j]).0.index < min_index,
            decreases self.entries@.len() - i,
        {
            i = i + 1;
        }
        let mut out = tm_new();
        if i == self.entries.len() {
            proof {
                assert(!(exists|j: int|
                    0 <= j < self.entries@.len() && (#[trigger] self.entries@[j]).0.index
                        >= min_index));
            }
            return (0, out);
        }
        let term: TermId = self.entries[i].0.term;
        proof {
            assert(self.entries@[i as int].0.index >= min_index);
            assert forall|j: int|
                0 <= j < self.entries@.len() && (#[trigger] self.entries@[j]).0.index >= min_index
                implies self.entries@[j].0.index >= self.entries@[i as int].0.index by {
                if j < i as int {
                }
            }
        }
        let mut k: usize = 0;
        while k < self.entries.len()
            invariant
                0 <= k <= self.entries@.len(),
                self.wf(),
                tm_of(out).finite(),
                forall|x: u64|
                    #[trigger] tm_of(out).contains(x) == (exists|j: int|
                        0 <= j < k && (#[trigger] self.entries@[j]).0.index == x && x >= min_index
                            && self.entries@[j].0.term == term),
            decreases self.entries@.len() - k,
        {
            if self.entries[k].0.index >= min_index && self.entries[k].0.term == term {
                tm_insert(&mut out, self.entries[k].0.index);
            }
            k = k + 1;
        }
        (term, out)
    }

    /// Packs pending per-collection changes and then log entries from the
    /// shipping window after `after_index` up to `up_to_index` into one
    /// batch, stopping once the approximate batch size reaches
    /// `max_bytes`; at least one entry is packed when any is available.
    /// Returns the batch, the changes still pending (none: this store
    /// drains them first), and the last log index consumed.
    pub fn get_entries(
        &self,
        after_index: LogIndex,
        up_to_index: LogIndex,
        pending_changes: &Vec<PendingChange>,
        max_bytes: usize,
    ) -> (r: (Vec<Update>, LogIndex))
        requires
            self.wf(),
        ensures
            r.0@.len() >= pending_changes@.len(),
            forall|k: int|
                0 <= k < pending_changes@.len() ==> ((#[trigger] r.0@[k]) matches Update::Change {
                    account_id,
                    collection,
                    bytes,
                } && account_id == pending_changes@[k].account_id && collection
                    == pending_changes@[k].collection && crate::changes_merge::mc_parse(bytes@)
                    == Some(
                    (
                        crate::bitmaps::rb_of(pending_changes@[k].changes.inserts),
                        crate::bitmaps::rb_of(pending_changes@[k].changes.updates),
                        crate::bitmaps::rb_of(pending_changes@[k].changes.deletes),
                    ),
                )),
            r.1 == after_index || in_window(r.1, after_index, up_to_index),
            (exists|i: int|
                0 <= i < self.entries@.len() && in_window(
                    (#[trigger] self.entries@[i]).0.index,
                    after_index,
                    up_to_index,
                )) ==> r.1 != after_index,
            batch_complete(self.entries@, r.0@, after_index, up_to_index, r.1),
    {
        let mut out: Vec<Update> = Vec::new();
        let mut i: usize = 0;
        while i < pending_changes.len()
            invariant
                0 <= i <= pending_changes@.len(),
                out@.len() == i,
                forall|k: int|
                    0 <= k < i ==> ((#[trigger] out@[k]) matches Update::Change {
                        account_id,
                        collection,
                        bytes,
                    } && account_id == pending_changes@[k].account_id && collection
                        == pending_changes@[k].collection && crate::changes_merge::mc_parse(
                        bytes@,
                    ) == Some(
                        (
                            crate::bitmaps::rb_of(pending_changes@[k].changes.inserts),
                            crate::bitmaps::rb_of(pending_changes@[k].changes.updates),
                            crate::bitmaps::rb_of(pending_changes@[k].changes.deletes),
                        ),
                    )),
            decreases pending_changes@.len() - i,
        {
            let p = &pending_changes[i];
            out.push(
                Update::Change {
                    account_id: p.account_id,
                    collection: p.collection,
                    bytes: p.changes.to_bytes(),
                },
            );
            i = i + 1;
        }
        let mut used: usize = 0;
        let mut last: LogIndex = after_index;
        let mut j: usize = 0;
        while j < self.entries.len()
            invariant
                0 <= j <= self.entries@.len(),
                self.wf(),
                out@.len() >= pending_changes@.len(),
                forall|k: int|
                    0 <= k < pending_changes@.len() ==> ((#[trigger] out@[k])
                        matches Update::Change {
                        account_id,
                        collection,
                        bytes,
                    } && account_id == pending_changes@[k].account_id && collection
                        == pending_changes@[k].collection && crate::changes_merge::mc_parse(
                        bytes@,
                    ) == Some(
                        (
                            crate::bitmaps::rb_of(pending_changes@[k].changes.inserts),
                            crate::bitmaps::rb_of(pending_changes@[k].changes.updates),
                            crate::bitmaps::rb_of(pending_changes@[k].changes.deletes),
                        ),
                    )),
                last == after_index || in_window(last, after_index, up_to_index),
                (exists|i2: int|
                    0 <= i2 < j && in_window(
                        (#[trigger] self.entries@[i2]).0.index,
                        after_index,
                        up_to_index,
                    )) ==> last != after_index,
                forall|i2: int|
                    0 <= i2 < j && in_window(
                        (#[trigger] self.entries@[i2]).0.index,
                        after_index,
                        up_to_index,
                    ) && self.entries@[i2].0.index <= last ==> (exists|k: int|
                        0 <= k < out@.len() && ((#[trigger] out@[k]) matches Update::Log {
                            raft_id,
                            ..
                        } && raft_id == self.entries@[i2].0)),
                forall|i2: int|
                    0 <= i2 < j && in_window(
                        (#[trigger] self.entries@[i2]).0.index,
                        after_index,
                        up_to_index,
                    ) ==> self.entries@[i2].0.index <= last,
                last != after_index ==> exists|e: int|
                    0 <= e < j && (#[trigger] self.entries@[e]).0.index == last,
            decreases self.entries@.len() - j,
        {
            let id = self.entries[j].0;
            let keep = (after_index == u64::MAX || id.index > after_index) && id.index
                <= up_to_index;
            if keep {
                if used >= max_bytes && last != after_index {
                    proof {
                        assert forall|i2: int|
                            0 <= i2 < self.entries@.len() && in_window(
                                (#[trigger] self.entries@[i2]).0.index,
                                after_index,
                                up_to_index,
                            ) && self.entries@[i2].0.index <= last implies (exists|k: int|
                            0 <= k < out@.len() && ((#[trigger] out@[k]) matches Update::Log {
                                raft_id,
                                ..
                            } && raft_id == self.entries@[i2].0)) by {
                            if i2 >= j as int {
                                let e = choose|e: int|
                                    0 <= e < j && (#[trigger] self.entries@[e]).0.index == last;
                                assert(self.entries@[e].0.index < self.entries@[i2].0.index);
                            }
                        }
                        assert(batch_complete(
                            self.entries@,
                            out@,
                            after_index,
                            up_to_index,
                            last,
                        ));
                    }
                    return (out, last);
                }
                let entry_copy = match &self.entries[j].1 {
                    LogEntry::Snapshot { raft_id } => LogEntry::Snapshot { raft_id: *raft_id },
                    LogEntry::Update { account_id, collection, changes } => LogEntry::Update {
                        account_id: *account_id,
                        collection: *collection,
                        changes: crate::bitmaps::rb_clone(changes),
                    },
                };
                let ghost out0 = out@;
                out.push(Update::Log { raft_id: id, entry: entry_copy });
                last = id.index;
                if used < max_bytes {
                    used = if usize::MAX - 64 > used {
                        used + 64
                    } else {
                        usize::MAX
                    };
                }
                proof {
                    assert(in_window(last, after_index, up_to_index));
                    assert((out@.last() matches Update::Log { raft_id, .. } && raft_id
                        == self.entries@[j as int].0));
                    assert forall|i2: int|
                        0 <= i2 < j + 1 && in_window(
                            (#[trigger] self.entries@[i2]).0.index,
                            after_index,
                            up_to_index,
                        ) && self.entries@[i2].0.index <= last implies (exists|k: int|
                        0 <= k < out@.len() && ((#[trigger] out@[k]) matches Update::Log {
                            raft_id,
                            ..
                        } && raft_id == self.entries@[i2].0)) by {
                        if i2 < j as int {
                            assert(self.entries@[i2].0.index < id.index);
                            let k0 = choose|k: int|
                                0 <= k < out0.len() && ((#[trigger] out0[k]) matches Update::Log {
                                    raft_id,
                                    ..
                                } && raft_id == self.entries@[i2].0);
                            assert(out@[k0] == out0[k0]);
                        } else {
                            assert(out@[out@.len() - 1] matches Update::Log { raft_id, .. }
                                && raft_id == self.entries@[i2].0);
                        }
                    }
                }
            }
            j = j + 1;
        }
        proof {
            assert(batch_complete(self.entries@, out@, after_index, up_to_index, last));
        }
        (out, last)
    }
}

} // verus!
