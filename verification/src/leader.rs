//! The per-follower leader replication driver: an explicit state machine
//! over handshake, log-index matching, bulk log shipping, per-collection
//! change replication and blob transfer. The surrounding task performs the
//! sends and waits and hands every answer back in.

use vstd::prelude::*;

use crate::bitmaps::{rb_is_empty, rb_new, tm_and_assign, tm_deserialize, tm_is_empty, tm_max, tm_min};
use crate::changes_merge::MergedChanges;
use crate::collection::Collection;
use crate::document::{AccountId, BlobId};
use crate::log_store::{LogIndex, LogStore, PeerId, PendingChange, RaftId, TermId, Update};
use crate::rpc::{AppendEntriesRequest, AppendEntriesResponse, Request, Response};

verus! {

/// Largest approximate batch the driver ships in one request.
pub const BATCH_MAX_SIZE: usize = 10485760;

/// Where the driver stands with its follower.
pub enum LeaderState {
    BecomeLeader,
    Synchronize,
    Merge { matched_log: RaftId },
    Wait,
    AppendLogs { pending_changes: Vec<PendingChange> },
    AppendChanges {
        account_id: AccountId,
        collection: Collection,
        changes: MergedChanges,
        is_rollback: bool,
    },
    AppendBlobs { pending_blob_ids: Vec<BlobId> },
}

/// What the surrounding task must do after a driver step.
pub enum DriverStep {
    /// Send this request to the follower and hand the answer back.
    Send { request: Request },
    /// Fetch the listed documents and ship them with this commit index.
    SendChanges {
        account_id: AccountId,
        collection: Collection,
        bytes: Vec<u8>,
        commit_index: LogIndex,
    },
    /// Fetch the listed blobs and ship them with this commit index.
    SendBlobs { blob_ids: Vec<BlobId>, commit_index: LogIndex },
    /// Block until the next log-index event.
    WaitForEvent,
    /// Fatal inconsistency: end this driver.
    Abort,
}

/// What the surrounding task must do after a follower answer.
pub enum DriverOutcome {
    /// Take the next step.
    Continue,
    /// Tell the coordinator the follower reached `commit_index`, then
    /// take the next step.
    Notify { peer_id: PeerId, commit_index: LogIndex },
    /// Tell the coordinator to step down for `term` and end this driver.
    StepDownExit { term: TermId },
    /// No answer came: wait until the peer is confirmed online.
    WaitOnline,
    /// Fatal inconsistency: end this driver.
    Abort,
}

/// Whether `s` is the state a `Done { up_to_index }` answer moves the
/// driver to: more log to ship, or rest until the next append.
pub open spec fn is_done_transition(
    uncommitted_index: LogIndex,
    up_to_index: LogIndex,
    s: LeaderState,
) -> bool {
    if up_to_index != uncommitted_index {
        s matches LeaderState::AppendLogs { pending_changes } && pending_changes@.len() == 0
    } else {
        s is Wait
    }
}

/// The least element of a non-empty set of indexes.
pub open spec fn set_min_u64(s: Set<u64>) -> u64 {
    choose|x: u64| s.contains(x) && forall|y: u64| s.contains(y) ==> x <= y
}

/// The greatest element of a non-empty set of indexes.
pub open spec fn set_max_u64(s: Set<u64>) -> u64 {
    choose|x: u64| s.contains(x) && forall|y: u64| s.contains(y) ==> y <= x
}

/// Whether the log holds an entry at or after index `lo`.
pub open spec fn log_has_at_or_after(
    entries: Seq<(RaftId, crate::log_store::LogEntry)>,
    lo: u64,
) -> bool {
    exists|i: int| 0 <= i < entries.len() && (#[trigger] entries[i]).0.index >= lo
}

/// The term of the oldest entry at or after index `lo`.
pub open spec fn first_term_at_or_after(
    entries: Seq<(RaftId, crate::log_store::LogEntry)>,
    lo: u64,
) -> TermId {
    entries[choose|i: int|
        0 <= i < entries.len() && (#[trigger] entries[i]).0.index >= lo && (forall|j: int|
            0 <= j < entries.len() && (#[trigger] entries[j]).0.index >= lo ==> entries[j].0.index
                >= entries[i].0.index)].0.term
}

/// The local indexes that carry the term of the oldest entry at or after
/// `lo`, restricted to indexes at or after it: the local half of a
/// synchronize exchange.
pub open spec fn sync_local_set(
    entries: Seq<(RaftId, crate::log_store::LogEntry)>,
    lo: u64,
) -> Set<u64> {
    Set::new(
        |x: u64|
            exists|i: int|
                0 <= i < entries.len() && (#[trigger] entries[i]).0.index == x && x >= lo
                    && entries[i].0.term == first_term_at_or_after(entries, lo),
    )
}

/// A witness that is a least element pins `set_min_u64`.
proof fn lemma_set_min_unique(s: Set<u64>, m: u64)
    requires
        s.contains(m),
        forall|y: u64| s.contains(y) ==> m <= y,
    ensures
        set_min_u64(s) == m,
{
    let c = set_min_u64(s);
    assert(s.contains(c) && forall|y: u64| s.contains(y) ==> c <= y);
}

/// A witness that is a greatest element pins `set_max_u64`.
proof fn lemma_set_max_unique(s: Set<u64>, m: u64)
    requires
        s.contains(m),
        forall|y: u64| s.contains(y) ==> y <= m,
    ensures
        set_max_u64(s) == m,
{
    let c = set_max_u64(s);
    assert(s.contains(c) && forall|y: u64| s.contains(y) ==> y <= c);
}

/// In a strictly index-sorted log, a minimal entry at or after `lo` with
/// term `t` pins `first_term_at_or_after`.
proof fn lemma_sync_first_term(
    entries: Seq<(RaftId, crate::log_store::LogEntry)>,
    lo: u64,
    t: crate::log_store::TermId,
)
    requires
        forall|i: int, j: int|
            0 <= i < j < entries.len() ==> (#[trigger] entries[i]).0.index < (
            #[trigger] entries[j]).0.index,
        exists|i: int|
            0 <= i < entries.len() && (#[trigger] entries[i]).0.index >= lo && entries[i].0.term
                == t && (forall|j: int|
                0 <= j < entries.len() && (#[trigger] entries[j]).0.index >= lo
                    ==> entries[j].0.index >= entries[i].0.index),
    ensures
        first_term_at_or_after(entries, lo) == t,
{
    let iw = choose|i: int|
        0 <= i < entries.len() && (#[trigger] entries[i]).0.index >= lo && entries[i].0.term == t
            && (forall|j: int|
            0 <= j < entries.len() && (#[trigger] entries[j]).0.index >= lo ==> entries[j].0.index
                >= entries[i].0.index);
    let ic = choose|i: int|
        0 <= i < entries.len() && (#[trigger] entries[i]).0.index >= lo && (forall|j: int|
            0 <= j < entries.len() && (#[trigger] entries[j]).0.index >= lo ==> entries[j].0.index
                >= entries[i].0.index);
    assert(0 <= ic < entries.len() && entries[ic].0.index >= lo && (forall|j: int|
        0 <= j < entries.len() && (#[trigger] entries[j]).0.index >= lo ==> entries[j].0.index
            >= entries[ic].0.index));
    assert(entries[ic].0.index == entries[iw].0.index);
    if ic < iw {
        assert(entries[ic].0.index < entries[iw].0.index);
    } else if iw < ic {
        assert(entries[iw].0.index < entries[ic].0.index);
    }
}

/// One leader replication driver, bound to one peer.
pub struct LeaderDriver {
    pub peer_id: PeerId,
    pub term: TermId,
    pub last_log: RaftId,
    pub uncommitted_index: LogIndex,
    pub follower_last_index: LogIndex,
    pub state: LeaderState,
}

impl LeaderDriver {
    /// A fresh driver starts by announcing leadership; nothing about the
    /// follower's log is known yet.
    pub fn new(peer_id: PeerId, term: TermId, last_log: RaftId, uncommitted_index: LogIndex) -> (r:
        LeaderDriver)
        ensures
            r == (LeaderDriver {
                peer_id,
                term,
                last_log,
                uncommitted_index,
                follower_last_index: u64::MAX,
                state: LeaderState::BecomeLeader,
            }),
    {
        LeaderDriver {
            peer_id,
            term,
            last_log,
            uncommitted_index,
            follower_last_index: u64::MAX,
            state: LeaderState::BecomeLeader,
        }
    }

    /// A log-index event fired: refresh the local view and, when resting,
    /// resume shipping.
    pub fn handle_log_index_update(&mut self, last_log_index: LogIndex, uncommitted_index: LogIndex)
        ensures
            final(self).last_log == (RaftId { term: old(self).term, index: last_log_index }),
            final(self).uncommitted_index == uncommitted_index,
            final(self).term == old(self).term,
            final(self).peer_id == old(self).peer_id,
            final(self).follower_last_index == old(self).follower_last_index,
            old(self).state is Wait ==> (final(self).state matches LeaderState::AppendLogs {
                pending_changes,
            } && pending_changes@.len() == 0),
            !(old(self).state is Wait) ==> final(self).state == old(self).state,
    {
        self.last_log = RaftId { term: self.term, index: last_log_index };
        self.uncommitted_index = uncommitted_index;
        if matches!(self.state, LeaderState::Wait) {
            self.state = LeaderState::AppendLogs { pending_changes: Vec::new() };
        }
    }

    /// The peer came back online: restart the handshake.
    pub fn handle_online(&mut self)
        ensures
            *final(self) == (LeaderDriver { state: LeaderState::BecomeLeader, ..*old(self) }),
    {
        self.state = LeaderState::BecomeLeader;
    }

    /// Produces the next request for the current state, consulting the
    /// local log. While shipping logs, the follower's matched index
    /// strictly advances whenever entries are available in its window.
    pub fn next_step(&mut self, log: &LogStore) -> (r: DriverStep)
        requires
            log.wf(),
        ensures
            final(self).peer_id == old(self).peer_id,
            final(self).term == old(self).term,
            final(self).last_log == old(self).last_log,
            final(self).uncommitted_index == old(self).uncommitted_index,
            match old(self).state {
                LeaderState::BecomeLeader => r == (DriverStep::Send {
                    request: Request::BecomeFollower {
                        term: old(self).term,
                        last_log: old(self).last_log,
                    },
                }) && *final(self) == *old(self),
                LeaderState::Synchronize => (r matches DriverStep::Send {
                    request: Request::AppendEntries {
                        term,
                        request: AppendEntriesRequest::Synchronize { .. },
                    },
                } && term == old(self).term) && *final(self) == *old(self),
                LeaderState::Merge { matched_log } => r == (DriverStep::Send {
                    request: Request::AppendEntries {
                        term: old(self).term,
                        request: AppendEntriesRequest::Merge { matched_log },
                    },
                }) && *final(self) == *old(self),
                LeaderState::Wait => r == (DriverStep::WaitForEvent) && *final(self) == *old(self),
                LeaderState::AppendLogs { pending_changes } => {
                    if pending_changes@.len() > 0 || old(self).follower_last_index != old(self).uncommitted_index {
                        &&& (r matches DriverStep::Send {
                            request: Request::AppendEntries {
                                term,
                                request: AppendEntriesRequest::Update { commit_index, .. },
                            },
                        } && term == old(self).term && commit_index == old(self).last_log.index)
                        &&& (final(self).state matches LeaderState::AppendLogs { .. })
                        &&& ((exists|i: int|
                            0 <= i < log.entries@.len() && crate::log_store::in_window(
                                (#[trigger] log.entries@[i]).0.index,
                                old(self).follower_last_index,
                                old(self).uncommitted_index,
                            )) ==> final(self).follower_last_index != old(self).follower_last_index)
                    } else {
                        &&& r == (DriverStep::Send {
                            request: Request::AppendEntries {
                                term: old(self).term,
                                request: AppendEntriesRequest::AdvanceCommitIndex {
                                    commit_index: old(self).last_log.index,
                                },
                            },
                        })
                        &&& final(self).state is Wait
                        &&& final(self).follower_last_index == old(self).follower_last_index
                    }
                },
                LeaderState::AppendChanges { account_id, collection, changes, .. } => (r
                    matches DriverStep::SendChanges {
                    account_id: a,
                    collection: c,
                    bytes,
                    commit_index,
                } && a == account_id && c == collection && commit_index == old(self).last_log.index && crate::changes_merge::mc_parse(bytes@) == Some(
                    (
                        crate::bitmaps::rb_of(changes.inserts),
                        crate::bitmaps::rb_of(changes.updates),
                        crate::bitmaps::rb_of(changes.deletes),
                    ),
                )) && final(self).state == old(self).state && final(self).follower_last_index
                    == old(self).follower_last_index,
                LeaderState::AppendBlobs { pending_blob_ids } => {
                    if pending_blob_ids@.len() == 0 {
                        r == (DriverStep::Abort)
                    } else {
                        (r matches DriverStep::SendBlobs { commit_index, .. } && commit_index
                            == old(self).last_log.index) && (final(self).state
                            matches LeaderState::AppendBlobs { pending_blob_ids: rest }
                            && rest@.len() == 0)
                    }
                },
            },
    {
        let term = self.term;
        let commit_index = self.last_log.index;
        match &self.state {
            LeaderState::BecomeLeader => DriverStep::Send {
                request: Request::BecomeFollower { term, last_log: self.last_log },
            },
            LeaderState::Synchronize => {
                let match_terms = log.get_match_terms();
                DriverStep::Send {
                    request: Request::AppendEntries {
                        term,
                        request: AppendEntriesRequest::Synchronize { match_terms },
                    },
                }
            },
            LeaderState::Merge { matched_log } => {
                let m = *matched_log;
                DriverStep::Send {
                    request: Request::AppendEntries {
                        term,
                        request: AppendEntriesRequest::Merge { matched_log: m },
                    },
                }
            },
            LeaderState::Wait => DriverStep::WaitForEvent,
            LeaderState::AppendLogs { pending_changes } => {
                if pending_changes.len() > 0 || self.follower_last_index != self.uncommitted_index {
                    let (updates, last_index) = log.get_entries(
                        self.follower_last_index,
                        self.uncommitted_index,
                        pending_changes,
                        BATCH_MAX_SIZE,
                    );
                    self.follower_last_index = last_index;
                    self.state = LeaderState::AppendLogs { pending_changes: Vec::new() };
                    DriverStep::Send {
                        request: Request::AppendEntries {
                            term,
                            request: AppendEntriesRequest::Update { commit_index, updates },
                        },
                    }
                } else {
                    self.state = LeaderState::Wait;
                    DriverStep::Send {
                        request: Request::AppendEntries {
                            term,
                            request: AppendEntriesRequest::AdvanceCommitIndex { commit_index },
                        },
                    }
                }
            },
            LeaderState::AppendChanges { account_id, collection, changes, .. } => {
                let bytes = changes.to_bytes();
                DriverStep::SendChanges {
                    account_id: *account_id,
                    collection: *collection,
                    bytes,
                    commit_index,
                }
            },
            LeaderState::AppendBlobs { pending_blob_ids } => {
                if pending_blob_ids.len() == 0 {
                    DriverStep::Abort
                } else {
                    let mut ids: Vec<BlobId> = Vec::new();
                    let mut i: usize = 0;
                    while i < pending_blob_ids.len()
                        invariant
                            0 <= i <= pending_blob_ids@.len(),
                        decreases pending_blob_ids@.len() - i,
                    {
                        ids.push(pending_blob_ids[i]);
                        i = i + 1;
                    }
                    self.state = LeaderState::AppendBlobs { pending_blob_ids: Vec::new() };
                    DriverStep::SendBlobs { blob_ids: ids, commit_index }
                }
            },
        }
    }

    /// Applies a follower answer to the driver state.
    pub fn handle_response(&mut self, response: Response, log: &LogStore) -> (r: DriverOutcome)
        requires
            log.wf(),
        ensures
            final(self).peer_id == old(self).peer_id,
            final(self).term == old(self).term,
            final(self).last_log == old(self).last_log,
            final(self).uncommitted_index == old(self).uncommitted_index,
            match response {
                Response::StepDown { term } => r == (DriverOutcome::StepDownExit { term }),
                Response::NoReply => r == (DriverOutcome::WaitOnline) && *final(self) == *old(self),
                Response::UnregisteredPeer => r == (DriverOutcome::Continue) && final(self).state
                    is BecomeLeader,
                Response::Vote { .. } => r == (DriverOutcome::Continue) && *final(self) == *old(self),
                Response::UpdatePeers { .. } => r == (DriverOutcome::Continue) && *final(self)
                    == *old(self),
                Response::Pong => r == (DriverOutcome::Continue) && *final(self) == *old(self),
                Response::AppendEntries { response: ae } => match ae {
                    AppendEntriesResponse::Continue => r == (DriverOutcome::Continue) && *final(self) == *old(self),
                    AppendEntriesResponse::Done { up_to_index } => {
                        &&& is_done_transition(
                            old(self).uncommitted_index,
                            up_to_index,
                            final(self).state,
                        )
                        &&& (up_to_index != u64::MAX ==> r == (DriverOutcome::Notify {
                            peer_id: old(self).peer_id,
                            commit_index: up_to_index,
                        }))
                        &&& (up_to_index == u64::MAX ==> r == (DriverOutcome::Continue))
                    },
                    AppendEntriesResponse::FetchBlobs { .. } => r == (DriverOutcome::Continue)
                        && (final(self).state matches LeaderState::AppendBlobs { .. }),
                    AppendEntriesResponse::Update {
                        account_id,
                        collection,
                        changes,
                        is_rollback,
                    } => {
                        &&& (crate::changes_merge::mc_parse(changes@) is None ==> r == (
                        DriverOutcome::Abort) && *final(self) == *old(self))
                        &&& (crate::changes_merge::mc_parse(changes@) matches Some(sets) ==> r
                            == (DriverOutcome::Continue) && (final(self).state
                            matches LeaderState::AppendChanges {
                            account_id: a,
                            collection: c,
                            changes: mc,
                            is_rollback: ir,
                        } && a == account_id && c == crate::collection::collection_of_key(
                            collection as u64,
                        ) && ir == is_rollback && crate::bitmaps::rb_of(mc.updates) == sets.1 && (
                        if is_rollback {
                            crate::bitmaps::rb_of(mc.inserts) == sets.2 && crate::bitmaps::rb_of(
                                mc.deletes,
                            ) == Set::<u32>::empty()
                        } else {
                            crate::bitmaps::rb_of(mc.inserts) == sets.0 && crate::bitmaps::rb_of(
                                mc.deletes,
                            ) == sets.2
                        })) && final(self).follower_last_index == old(self).follower_last_index)
                    },
                    AppendEntriesResponse::Match { match_log } => {
                        &&& final(self).follower_last_index == match_log.index
                        &&& (match_log.term == u64::MAX && match_log.index == u64::MAX) ==> (r
                            == (DriverOutcome::Continue) && (if old(self).uncommitted_index
                            != u64::MAX {
                            final(self).state matches LeaderState::AppendLogs { .. }
                        } else {
                            final(self).state is Wait
                        }))
                        &&& !(match_log.term == u64::MAX && match_log.index == u64::MAX) ==> ((r
                            == (DriverOutcome::Abort)) || (r == (DriverOutcome::Notify {
                            peer_id: old(self).peer_id,
                            commit_index: match_log.index,
                        }) && (final(self).state matches LeaderState::AppendLogs { .. })) || (r
                            == (DriverOutcome::Continue) && final(self).state is Synchronize))
                    },
                    AppendEntriesResponse::Synchronize { match_indexes } => {
                        &&& match_indexes@.len() == 0 ==> (r == (DriverOutcome::Continue)
                            && final(self).follower_last_index == u64::MAX && (final(self).state
                            matches LeaderState::Merge { matched_log } && matched_log == (RaftId {
                            term: u64::MAX,
                            index: u64::MAX,
                        })))
                        &&& match_indexes@.len() > 0 ==> match crate::bitmaps::tm_parse(
                            match_indexes@,
                        ) {
                            Option::None => r == (DriverOutcome::Abort) && *final(self) == *old(self),
                            Option::Some(ps) => {
                                &&& (ps == Set::<u64>::empty() ==> r == (DriverOutcome::Abort)
                                    && *final(self) == *old(self))
                                &&& (ps != Set::<u64>::empty() ==> ({
                                    let lo = set_min_u64(ps);
                                    &&& (!log_has_at_or_after(log.entries@, lo) ==> r == (
                                    DriverOutcome::Continue) && final(self).state is BecomeLeader
                                        && final(self).follower_last_index == old(self).follower_last_index)
                                    &&& (log_has_at_or_after(log.entries@, lo) ==> ({
                                        let inter = sync_local_set(log.entries@, lo).intersect(
                                            ps,
                                        );
                                        &&& (inter == Set::<u64>::empty() ==> r == (
                                        DriverOutcome::Continue) && final(self).state
                                            is BecomeLeader && final(self).follower_last_index
                                            == old(self).follower_last_index)
                                        &&& (inter != Set::<u64>::empty() ==> r == (
                                        DriverOutcome::Continue) && final(self).state == (
                                        LeaderState::Merge {
                                            matched_log: RaftId {
                                                term: first_term_at_or_after(log.entries@, lo),
                                                index: set_max_u64(inter),
                                            },
                                        }) && final(self).follower_last_index == set_max_u64(
                                            inter,
                                        ))
                                    }))
                                }))
                            },
                        }
                    },
                },
            },
            final(self).follower_last_index == old(self).follower_last_index || (response
                matches Response::AppendEntries { .. }),
    {
        match response {
            Response::StepDown { term } => DriverOutcome::StepDownExit { term },
            Response::NoReply => DriverOutcome::WaitOnline,
            Response::UnregisteredPeer => {
                self.state = LeaderState::BecomeLeader;
                DriverOutcome::Continue
            },
            // peer-table updates and stray vote or ping answers carry no
            // replication meaning here: the driver goes on
            Response::Vote { .. } => DriverOutcome::Continue,
            Response::UpdatePeers { .. } => DriverOutcome::Continue,
            Response::Pong => DriverOutcome::Continue,
            Response::AppendEntries { response } => self.handle_append_response(response, log),
        }
    }


    /// Applies a follower's synchronize answer: its index bitmap leads,
    /// through the term at its minimum, to the greatest index both logs
    /// share under that term.
    #[verifier::rlimit(100)]
    fn handle_synchronize(&mut self, match_indexes: Vec<u8>, log: &LogStore) -> (r: DriverOutcome)
        requires
            log.wf(),
        ensures
            final(self).peer_id == old(self).peer_id,
            final(self).term == old(self).term,
            final(self).last_log == old(self).last_log,
            final(self).uncommitted_index == old(self).uncommitted_index,
            match_indexes@.len() == 0 ==> (r == (DriverOutcome::Continue) && final(self).follower_last_index == u64::MAX && (final(self).state matches LeaderState::Merge {
                matched_log,
            } && matched_log == (RaftId { term: u64::MAX, index: u64::MAX }))),
            match_indexes@.len() > 0 ==> match crate::bitmaps::tm_parse(match_indexes@) {
                Option::None => r == (DriverOutcome::Abort) && *final(self) == *old(self),
                Option::Some(ps) => {
                    &&& (ps == Set::<u64>::empty() ==> r == (DriverOutcome::Abort) && *final(self)
                        == *old(self))
                    &&& (ps != Set::<u64>::empty() ==> ({
                        let lo = set_min_u64(ps);
                        &&& (!log_has_at_or_after(log.entries@, lo) ==> r == (
                        DriverOutcome::Continue) && final(self).state is BecomeLeader && final(self).follower_last_index == old(self).follower_last_index)
                        &&& (log_has_at_or_after(log.entries@, lo) ==> ({
                            let inter = sync_local_set(log.entries@, lo).intersect(ps);
                            &&& (inter == Set::<u64>::empty() ==> r == (DriverOutcome::Continue)
                                && final(self).state is BecomeLeader && final(self).follower_last_index == old(self).follower_last_index)
                            &&& (inter != Set::<u64>::empty() ==> r == (DriverOutcome::Continue)
                                && final(self).state == (LeaderState::Merge {
                                matched_log: RaftId {
                                    term: first_term_at_or_after(log.entries@, lo),
                                    index: set_max_u64(inter),
                                },
                            }) && final(self).follower_last_index == set_max_u64(inter))
                        }))
                    }))
                },
            },
    {
            if match_indexes.len() > 0 {
                let peer_indexes = match tm_deserialize(match_indexes.as_slice()) {
                    Some(t) => t,
                    None => {
                        return DriverOutcome::Abort;
                    },
                };
                let ghost ps = crate::bitmaps::tm_of(peer_indexes);
                let min = match tm_min(&peer_indexes) {
                    Some(m) => m,
                    None => {
                        return DriverOutcome::Abort;
                    },
                };
                proof {
                    assert(ps != Set::<u64>::empty()) by {
                        assert(ps.contains(min));
                    }
                    lemma_set_min_unique(ps, min);
                }
                let (match_term, mut local_indexes) = log.get_match_indexes(min);
                if tm_is_empty(&local_indexes) {
                    proof {
                        assert(!log_has_at_or_after(log.entries@, min)) by {
                            if log_has_at_or_after(log.entries@, min) {
                                let i = choose|i: int|
                                    0 <= i < log.entries@.len() && (
                                    #[trigger] log.entries@[i]).0.index >= min
                                        && log.entries@[i].0.term == match_term && (forall|
                                        j: int,
                                    |
                                        0 <= j < log.entries@.len() && (
                                        #[trigger] log.entries@[j]).0.index >= min
                                            ==> log.entries@[j].0.index
                                            >= log.entries@[i].0.index);
                                assert(crate::bitmaps::tm_of(local_indexes).contains(
                                    log.entries@[i].0.index,
                                ));
                            }
                        }
                    }
                    self.state = LeaderState::BecomeLeader;
                    return DriverOutcome::Continue;
                }
                proof {
                    assert(log_has_at_or_after(log.entries@, min)) by {
                        if !log_has_at_or_after(log.entries@, min) {
                            assert(crate::bitmaps::tm_of(local_indexes)
                                == Set::<u64>::empty());
                        }
                    }
                    lemma_sync_first_term(log.entries@, min, match_term);
                    assert(crate::bitmaps::tm_of(local_indexes) =~= sync_local_set(
                        log.entries@,
                        min,
                    ));
                }
                let ghost local0 = crate::bitmaps::tm_of(local_indexes);
                tm_and_assign(&mut local_indexes, &peer_indexes);
                proof {
                    assert(crate::bitmaps::tm_of(local_indexes) =~= sync_local_set(
                        log.entries@,
                        min,
                    ).intersect(ps));
                }
                if tm_is_empty(&local_indexes) {
                    self.state = LeaderState::BecomeLeader;
                    return DriverOutcome::Continue;
                }
                let max = tm_max(&local_indexes).unwrap();
                proof {
                    let inter = sync_local_set(log.entries@, min).intersect(ps);
                    assert(inter.contains(max) && forall|y: u64| inter.contains(y) ==> y <= max);                    lemma_set_max_unique(inter, max);
                }
                let matched_log = RaftId::new(match_term, max);
                self.follower_last_index = matched_log.index;
                self.state = LeaderState::Merge { matched_log };
                DriverOutcome::Continue
            } else {
                let matched_log = RaftId::none();
                self.follower_last_index = matched_log.index;
                self.state = LeaderState::Merge { matched_log };
                DriverOutcome::Continue
            }
    }

    /// Applies a follower's `AppendEntries` answer.
    #[verifier::rlimit(80)]
    fn handle_append_response(&mut self, response: AppendEntriesResponse, log: &LogStore) -> (r:
        DriverOutcome)
        requires
            log.wf(),
        ensures
            final(self).peer_id == old(self).peer_id,
            final(self).term == old(self).term,
            final(self).last_log == old(self).last_log,
            final(self).uncommitted_index == old(self).uncommitted_index,
            match response {
                AppendEntriesResponse::Continue => r == (DriverOutcome::Continue) && *final(self)
                    == *old(self),
                AppendEntriesResponse::Done { up_to_index } => {
                    &&& is_done_transition(
                        old(self).uncommitted_index,
                        up_to_index,
                        final(self).state,
                    )
                    &&& (up_to_index != u64::MAX ==> r == (DriverOutcome::Notify {
                        peer_id: old(self).peer_id,
                        commit_index: up_to_index,
                    }))
                    &&& (up_to_index == u64::MAX ==> r == (DriverOutcome::Continue))
                },
                AppendEntriesResponse::FetchBlobs { .. } => r == (DriverOutcome::Continue) && (
                final(self).state matches LeaderState::AppendBlobs { .. }),
                    AppendEntriesResponse::Update {
                        account_id,
                        collection,
                        changes,
                        is_rollback,
                    } => {
                        &&& (crate::changes_merge::mc_parse(changes@) is None ==> r == (
                        DriverOutcome::Abort) && *final(self) == *old(self))
                        &&& (crate::changes_merge::mc_parse(changes@) matches Some(sets) ==> r
                            == (DriverOutcome::Continue) && (final(self).state
                            matches LeaderState::AppendChanges {
                            account_id: a,
                            collection: c,
                            changes: mc,
                            is_rollback: ir,
                        } && a == account_id && c == crate::collection::collection_of_key(
                            collection as u64,
                        ) && ir == is_rollback && crate::bitmaps::rb_of(mc.updates) == sets.1 && (
                        if is_rollback {
                            crate::bitmaps::rb_of(mc.inserts) == sets.2 && crate::bitmaps::rb_of(
                                mc.deletes,
                            ) == Set::<u32>::empty()
                        } else {
                            crate::bitmaps::rb_of(mc.inserts) == sets.0 && crate::bitmaps::rb_of(
                                mc.deletes,
                            ) == sets.2
                        })) && final(self).follower_last_index == old(self).follower_last_index)
                    },
                AppendEntriesResponse::Match { match_log } => {
                    &&& final(self).follower_last_index == match_log.index
                    &&& (match_log.term == u64::MAX && match_log.index == u64::MAX) ==> (r == (
                    DriverOutcome::Continue) && (if old(self).uncommitted_index != u64::MAX {
                        final(self).state matches LeaderState::AppendLogs { .. }
                    } else {
                        final(self).state is Wait
                    }))
                    &&& !(match_log.term == u64::MAX && match_log.index == u64::MAX) ==> ((r == (
                    DriverOutcome::Abort)) || (r == (DriverOutcome::Notify {
                        peer_id: old(self).peer_id,
                        commit_index: match_log.index,
                    }) && (final(self).state matches LeaderState::AppendLogs { .. })) || (r == (
                    DriverOutcome::Continue) && final(self).state is Synchronize))
                },
                    AppendEntriesResponse::Synchronize { match_indexes } => {
                        &&& match_indexes@.len() == 0 ==> (r == (DriverOutcome::Continue)
                            && final(self).follower_last_index == u64::MAX && (final(self).state
                            matches LeaderState::Merge { matched_log } && matched_log == (RaftId {
                            term: u64::MAX,
                            index: u64::MAX,
                        })))
                        &&& match_indexes@.len() > 0 ==> match crate::bitmaps::tm_parse(
                            match_indexes@,
                        ) {
                            Option::None => r == (DriverOutcome::Abort) && *final(self) == *old(self),
                            Option::Some(ps) => {
                                &&& (ps == Set::<u64>::empty() ==> r == (DriverOutcome::Abort)
                                    && *final(self) == *old(self))
                                &&& (ps != Set::<u64>::empty() ==> ({
                                    let lo = set_min_u64(ps);
                                    &&& (!log_has_at_or_after(log.entries@, lo) ==> r == (
                                    DriverOutcome::Continue) && final(self).state is BecomeLeader
                                        && final(self).follower_last_index == old(self).follower_last_index)
                                    &&& (log_has_at_or_after(log.entries@, lo) ==> ({
                                        let inter = sync_local_set(log.entries@, lo).intersect(
                                            ps,
                                        );
                                        &&& (inter == Set::<u64>::empty() ==> r == (
                                        DriverOutcome::Continue) && final(self).state
                                            is BecomeLeader && final(self).follower_last_index
                                            == old(self).follower_last_index)
                                        &&& (inter != Set::<u64>::empty() ==> r == (
                                        DriverOutcome::Continue) && final(self).state == (
                                        LeaderState::Merge {
                                            matched_log: RaftId {
                                                term: first_term_at_or_after(log.entries@, lo),
                                                index: set_max_u64(inter),
                                            },
                                        }) && final(self).follower_last_index == set_max_u64(
                                            inter,
                                        ))
                                    }))
                                }))
                            },
                        }
                    },
            },
    {
        match response {
            AppendEntriesResponse::Match { match_log } => {
                self.follower_last_index = match_log.index;
                if !match_log.is_none() {
                    match log.get_next_raft_id(match_log) {
                        Some(local_match) => {
                            if local_match == match_log {
                                self.state = LeaderState::AppendLogs {
                                    pending_changes: Vec::new(),
                                };
                                DriverOutcome::Notify {
                                    peer_id: self.peer_id,
                                    commit_index: local_match.index,
                                }
                            } else {
                                self.state = LeaderState::Synchronize;
                                DriverOutcome::Continue
                            }
                        },
                        None => DriverOutcome::Abort,
                    }
                } else {
                    if self.uncommitted_index != u64::MAX {
                        self.state = LeaderState::AppendLogs { pending_changes: Vec::new() };
                    } else {
                        self.state = LeaderState::Wait;
                    }
                    DriverOutcome::Continue
                }
            },
            AppendEntriesResponse::Synchronize { match_indexes } => self.handle_synchronize(
                match_indexes,
                log,
            ),
            AppendEntriesResponse::Continue => DriverOutcome::Continue,
            AppendEntriesResponse::Done { up_to_index } => {
                let outcome = if up_to_index != u64::MAX {
                    DriverOutcome::Notify { peer_id: self.peer_id, commit_index: up_to_index }
                } else {
                    DriverOutcome::Continue
                };
                if up_to_index != self.uncommitted_index {
                    self.state = LeaderState::AppendLogs { pending_changes: Vec::new() };
                } else {
                    self.state = LeaderState::Wait;
                }
                outcome
            },
            AppendEntriesResponse::Update { account_id, collection, changes, is_rollback } => {
                let mut mc = match MergedChanges::from_bytes(changes.as_slice()) {
                    Some(mc) => mc,
                    None => {
                        return DriverOutcome::Abort;
                    },
                };
                // a rollback asks the follower to re-create documents it
                // deleted: the deletions become the insertions to ship
                if is_rollback {
                    let MergedChanges { inserts, updates, deletes } = mc;
                    mc = MergedChanges { inserts: deletes, updates, deletes: rb_new() };
                }
                self.state = LeaderState::AppendChanges {
                    account_id,
                    collection: crate::collection::collection_from_u8(collection),
                    changes: mc,
                    is_rollback,
                };
                DriverOutcome::Continue
            },
            AppendEntriesResponse::FetchBlobs { blob_ids } => {
                self.state = LeaderState::AppendBlobs { pending_blob_ids: blob_ids };
                DriverOutcome::Continue
            },
        }
    }
}

/// Replication liveness at the resting edge: when the follower confirms
/// everything up to the leader's uncommitted index, the driver settles in
/// `Wait`; any other confirmation keeps it shipping.
pub proof fn lemma_done_settles(uncommitted_index: LogIndex, up_to_index: LogIndex, s: LeaderState)
    requires
        is_done_transition(uncommitted_index, up_to_index, s),
    ensures
        up_to_index == uncommitted_index ==> s is Wait,
        up_to_index != uncommitted_index ==> (s matches LeaderState::AppendLogs {
            pending_changes,
        } && pending_changes@.len() == 0),
{
}

} // verus!
