//! Per-node election state: leader/follower/candidate transitions, the
//! election timer, vote granting and counting, and step-down.

use vstd::prelude::*;

use crate::log_store::{LogIndex, PeerId, RaftId, TermId};
use crate::rpc::Response;
use crate::server::JMAPServer;

verus! {

pub const ELECTION_TIMEOUT: u64 = 1000;

pub const ELECTION_TIMEOUT_RAND_FROM: u64 = 150;

pub const ELECTION_TIMEOUT_RAND_TO: u64 = 300;

/// Relies on `rand::thread_rng` and `Rng::gen_range`: a value drawn from
/// the half-open range.
#[verifier::external_body]
fn random_in_range(lo: u64, hi: u64) -> (r: u64)
    requires
        lo < hi,
    ensures
        lo <= r < hi,
{
    <rand::rngs::ThreadRng as rand::Rng>::gen_range(&mut rand::thread_rng(), lo..hi)
}

/// The moment the next election becomes due: now, plus the base timeout
/// unless an immediate election is wanted, plus a random spread that
/// de-synchronizes the candidates.
pub fn election_timeout(now: bool, now_ms: u64) -> (r: u64)
    requires
        now_ms <= u64::MAX - 1300,
    ensures
        now_ms + (if now {
            0
        } else {
            ELECTION_TIMEOUT
        }) + ELECTION_TIMEOUT_RAND_FROM <= r < now_ms + (if now {
            0
        } else {
            ELECTION_TIMEOUT
        }) + ELECTION_TIMEOUT_RAND_TO,
{
    let base = if now {
        0
    } else {
        ELECTION_TIMEOUT
    };
    let spread = random_in_range(ELECTION_TIMEOUT_RAND_FROM, ELECTION_TIMEOUT_RAND_TO);
    now_ms + base + spread
}

/// Exclusive election state of one node.
#[derive(Debug, Clone, Copy, PartialEq, Eq, Structural)]
pub enum State {
    Leader,
    Wait { election_due: u64 },
    Candidate { election_due: u64 },
    VotedFor { peer_id: PeerId, election_due: u64 },
    Follower { peer_id: PeerId },
}

/// One known peer of this node.
#[derive(Debug, Clone, Copy, PartialEq, Eq, Structural)]
pub struct Peer {
    pub peer_id: PeerId,
    pub shard_id: u32,
    pub last_log_index: LogIndex,
    pub last_log_term: TermId,
    pub vote_granted: bool,
    pub online: bool,
}

impl Peer {
    pub fn is_in_shard(&self, shard_id: u32) -> (r: bool)
        ensures
            r == (self.shard_id == shard_id),
    {
        self.shard_id == shard_id
    }

    pub fn is_offline(&self) -> (r: bool)
        ensures
            r == !self.online,
    {
        !self.online
    }
}

/// The wrapping successor used by log comparisons, so that the sentinel
/// index `u64::MAX` compares as the smallest.
pub open spec fn w_succ(x: u64) -> u64 {
    if x == u64::MAX {
        0
    } else {
        (x + 1) as u64
    }
}

/// Whether the log position `(t, i)` is at least as advanced as `last`.
pub open spec fn spec_log_behind_or_eq(last: RaftId, t: TermId, i: LogIndex) -> bool {
    t > last.term || (t == last.term && w_succ(i) >= w_succ(last.index))
}

/// Whether the log position `(t, i)` is strictly more advanced than `last`.
pub open spec fn spec_log_behind(last: RaftId, t: TermId, i: LogIndex) -> bool {
    t > last.term || (t == last.term && w_succ(i) > w_succ(last.index))
}

/// Peers of `shard` among the first `n`.
pub open spec fn count_shard(peers: Seq<Peer>, shard: u32, n: int) -> int
    decreases n,
{
    if n <= 0 {
        0
    } else {
        count_shard(peers, shard, n - 1) + if peers[n - 1].shard_id == shard {
            1int
        } else {
            0int
        }
    }
}

/// Reachable peers of `shard` among the first `n`.
pub open spec fn count_online(peers: Seq<Peer>, shard: u32, n: int) -> int
    decreases n,
{
    if n <= 0 {
        0
    } else {
        count_online(peers, shard, n - 1) + if peers[n - 1].shard_id == shard && peers[n
            - 1].online {
            1int
        } else {
            0int
        }
    }
}

/// Peers of `shard` among the first `n` that granted their vote.
pub open spec fn count_granted(peers: Seq<Peer>, shard: u32, n: int) -> int
    decreases n,
{
    if n <= 0 {
        0
    } else {
        count_granted(peers, shard, n - 1) + if peers[n - 1].shard_id == shard && peers[n
            - 1].vote_granted {
            1int
        } else {
            0int
        }
    }
}

/// Ids of the peers of `shard` among the first `n`.
pub open spec fn shard_ids(peers: Seq<Peer>, shard: u32, n: int) -> Seq<PeerId>
    decreases n,
{
    if n <= 0 {
        Seq::empty()
    } else {
        let prev = shard_ids(peers, shard, n - 1);
        if peers[n - 1].shard_id == shard {
            prev.push(peers[n - 1].peer_id)
        } else {
            prev
        }
    }
}

/// Ids of the reachable peers of `shard` among the first `n`.
pub open spec fn shard_online_ids(peers: Seq<Peer>, shard: u32, n: int) -> Seq<PeerId>
    decreases n,
{
    if n <= 0 {
        Seq::empty()
    } else {
        let prev = shard_online_ids(peers, shard, n - 1);
        if peers[n - 1].shard_id == shard && peers[n - 1].online {
            prev.push(peers[n - 1].peer_id)
        } else {
            prev
        }
    }
}

/// The due time of a running election timer, if one is running.
pub open spec fn spec_due_of(state: State) -> Option<u64> {
    match state {
        State::Wait { election_due } => Some(election_due),
        State::Candidate { election_due } => Some(election_due),
        State::VotedFor { election_due, .. } => Some(election_due),
        _ => None,
    }
}

/// Whether this node's state lets it grant a vote to `candidate`.
pub open spec fn spec_can_grant(state: State, candidate: PeerId) -> bool {
    match state {
        State::Wait { .. } => true,
        State::VotedFor { peer_id, .. } => candidate == peer_id,
        _ => false,
    }
}

/// The peer table after recording `voter`'s granted vote for this shard.
pub open spec fn vote_recorded(peers: Seq<Peer>, shard: u32, voter: PeerId) -> Seq<Peer> {
    Seq::new(
        peers.len(),
        |j: int|
            if peers[j].shard_id == shard && peers[j].peer_id == voter {
                Peer { vote_granted: true, ..peers[j] }
            } else {
                peers[j]
            },
    )
}

/// The shard-peer id list depends only on each peer's identity and shard.
proof fn lemma_shard_ids_same_identity(a: Seq<Peer>, b: Seq<Peer>, shard: u32, n: int)
    requires
        0 <= n <= a.len(),
        n <= b.len(),
        forall|j: int|
            0 <= j < n ==> (#[trigger] b[j]).shard_id == a[j].shard_id && b[j].peer_id
                == a[j].peer_id,
    ensures
        shard_ids(a, shard, n) == shard_ids(b, shard, n),
    decreases n,
{
    if n > 0 {
        lemma_shard_ids_same_identity(a, b, shard, n - 1);
    }
}

/// One node's view of its cluster.
pub struct Cluster {
    pub peer_id: PeerId,
    pub shard_id: u32,
    pub term: TermId,
    pub last_log: RaftId,
    pub uncommitted_index: LogIndex,
    pub state: State,
    pub peers: Vec<Peer>,
    pub core: JMAPServer,
}

impl Cluster {
    /// Machine bounds the election arithmetic relies on.
    pub open spec fn wf(self) -> bool {
        &&& self.peers@.len() < 0xffffffff
        &&& self.term < u64::MAX
    }

    /// Whether some reachable shard peer's log is strictly more advanced
    /// than ours.
    pub open spec fn spec_has_more_advanced_peer(self) -> bool {
        exists|j: int|
            0 <= j < self.peers@.len() && (#[trigger] self.peers@[j]).shard_id == self.shard_id
                && self.peers@[j].online && spec_log_behind(
                self.last_log,
                self.peers@[j].last_log_term,
                self.peers@[j].last_log_index,
            )
    }

    /// Whether enough shard members are reachable for an election:
    /// a strict majority of the configured member count, this node
    /// included on both sides.
    pub open spec fn spec_has_quorum(self) -> bool {
        1 + count_online(self.peers@, self.shard_id, self.peers@.len() as int) >= (2 + count_shard(
            self.peers@,
            self.shard_id,
            self.peers@.len() as int,
        )) / 2
    }

    pub fn has_election_quorum(&self) -> (r: bool)
        requires
            self.wf(),
        ensures
            r == self.spec_has_quorum(),
    {
        let mut total: u32 = 0;
        let mut healthy: u32 = 0;
        let mut i: usize = 0;
        while i < self.peers.len()
            invariant
                0 <= i <= self.peers@.len(),
                self.peers@.len() < 0xffffffff,
                total == count_shard(self.peers@, self.shard_id, i as int),
                healthy == count_online(self.peers@, self.shard_id, i as int),
                total <= i,
                healthy <= i,
            decreases self.peers@.len() - i,
        {
            if self.peers[i].is_in_shard(self.shard_id) {
                total = total + 1;
                if !self.peers[i].is_offline() {
                    healthy = healthy + 1;
                }
            }
            i = i + 1;
        }
        (healthy as u64) + 1 >= ((total as u64) + 2) / 2
    }

    pub fn is_election_due(&self, now_ms: u64) -> (r: bool)
        ensures
            r == match self.state {
                State::Candidate { election_due } => election_due < now_ms,
                State::Wait { election_due } => election_due < now_ms,
                State::VotedFor { election_due, .. } => election_due < now_ms,
                _ => true,
            },
    {
        match self.state {
            State::Candidate { election_due } => election_due < now_ms,
            State::Wait { election_due } => election_due < now_ms,
            State::VotedFor { election_due, .. } => election_due < now_ms,
            _ => true,
        }
    }

    /// Milliseconds until the election timer fires, if one is running.
    pub fn time_to_next_election(&self, now_ms: u64) -> (r: Option<u64>)
        ensures
            r == match self.state {
                State::Candidate { election_due } => Some(
                    if election_due > now_ms {
                        (election_due - now_ms) as u64
                    } else {
                        0u64
                    },
                ),
                State::Wait { election_due } => Some(
                    if election_due > now_ms {
                        (election_due - now_ms) as u64
                    } else {
                        0u64
                    },
                ),
                State::VotedFor { election_due, .. } => Some(
                    if election_due > now_ms {
                        (election_due - now_ms) as u64
                    } else {
                        0u64
                    },
                ),
                _ => None,
            },
    {
        match self.state {
            State::Candidate { election_due } | State::Wait { election_due }
            | State::VotedFor { election_due, .. } => Some(
                if election_due > now_ms {
                    election_due - now_ms
                } else {
                    0
                },
            ),
            _ => None,
        }
    }

    pub fn log_is_behind_or_eq(&self, last_log_term: TermId, last_log_index: LogIndex) -> (r: bool)
        ensures
            r == spec_log_behind_or_eq(self.last_log, last_log_term, last_log_index),
    {
        let wi = if last_log_index == u64::MAX {
            0
        } else {
            last_log_index + 1
        };
        let wl = if self.last_log.index == u64::MAX {
            0
        } else {
            self.last_log.index + 1
        };
        last_log_term > self.last_log.term || (last_log_term == self.last_log.term && wi >= wl)
    }

    pub fn log_is_behind(&self, last_log_term: TermId, last_log_index: LogIndex) -> (r: bool)
        ensures
            r == spec_log_behind(self.last_log, last_log_term, last_log_index),
    {
        let wi = if last_log_index == u64::MAX {
            0
        } else {
            last_log_index + 1
        };
        let wl = if self.last_log.index == u64::MAX {
            0
        } else {
            self.last_log.index + 1
        };
        last_log_term > self.last_log.term || (last_log_term == self.last_log.term && wi > wl)
    }

    pub fn can_grant_vote(&self, candidate_peer_id: PeerId) -> (r: bool)
        ensures
            r == spec_can_grant(self.state, candidate_peer_id),
    {
        match self.state {
            State::Wait { .. } => true,
            State::VotedFor { peer_id, .. } => candidate_peer_id == peer_id,
            _ => false,
        }
    }

    /// The peer this node believes leads, if any: itself when leading.
    pub fn leader_peer_id(&self) -> (r: Option<PeerId>)
        ensures
            r == match self.state {
                State::Leader => Some(self.peer_id),
                State::Follower { peer_id } => Some(peer_id),
                _ => None::<PeerId>,
            },
    {
        match self.state {
            State::Leader => Some(self.peer_id),
            State::Follower { peer_id } => Some(peer_id),
            _ => None,
        }
    }

    pub fn is_leading(&self) -> (r: bool)
        ensures
            r == (self.state is Leader),
    {
        matches!(self.state, State::Leader)
    }

    pub fn is_candidate(&self) -> (r: bool)
        ensures
            r == (self.state is Candidate),
    {
        matches!(self.state, State::Candidate { .. })
    }

    pub fn is_following(&self) -> (r: bool)
        ensures
            r == (self.state is Follower),
    {
        matches!(self.state, State::Follower { .. })
    }

    pub fn is_following_peer(&self, leader_id: PeerId) -> (r: bool)
        ensures
            r == (self.state matches State::Follower { peer_id } && peer_id == leader_id),
    {
        match self.state {
            State::Follower { peer_id } => peer_id == leader_id,
            _ => false,
        }
    }

    /// Clears every vote this node has collected.
    pub fn reset(&mut self)
        ensures
            final(self).peers@.len() == old(self).peers@.len(),
            forall|j: int|
                0 <= j < final(self).peers@.len() ==> (#[trigger] final(self).peers@[j]) == (Peer {
                    vote_granted: false,
                    ..old(self).peers@[j]
                }),
            *final(self) == (Cluster { peers: final(self).peers, ..*old(self) }),
    {
        let mut i: usize = 0;
        while i < self.peers.len()
            invariant
                0 <= i <= self.peers@.len(),
                self.peers@.len() == old(self).peers@.len(),
                forall|j: int|
                    0 <= j < i ==> (#[trigger] self.peers@[j]) == (Peer {
                        vote_granted: false,
                        ..old(self).peers@[j]
                    }),
                forall|j: int|
                    i <= j < self.peers@.len() ==> (#[trigger] self.peers@[j]) == old(self).peers@[j],
                *self == (Cluster { peers: self.peers, ..*old(self) }),
            decreases self.peers@.len() - i,
        {
            let p = self.peers[i];
            self.peers.set(i, Peer { vote_granted: false, ..p });
            i = i + 1;
        }
    }

    /// Starts (or restarts) the election wait timer and demotes to
    /// follower status.
    pub fn start_election_timer(&mut self, now: bool, now_ms: u64)
        requires
            now_ms <= u64::MAX - 1300,
        ensures
            (final(self).state matches State::Wait { election_due } && now_ms + (if now {
                0
            } else {
                ELECTION_TIMEOUT
            }) + ELECTION_TIMEOUT_RAND_FROM <= election_due < now_ms + (if now {
                0
            } else {
                ELECTION_TIMEOUT
            }) + ELECTION_TIMEOUT_RAND_TO),
            final(self).core == (JMAPServer {
                leader: false,
                up_to_date: false,
                ..old(self).core
            }),
            final(self).term == old(self).term,
            final(self).last_log == old(self).last_log,
            final(self).peer_id == old(self).peer_id,
            final(self).shard_id == old(self).shard_id,
            final(self).peers@.len() == old(self).peers@.len(),
            forall|j: int|
                0 <= j < final(self).peers@.len() ==> (#[trigger] final(self).peers@[j]) == (Peer {
                    vote_granted: false,
                    ..old(self).peers@[j]
                }),
    {
        self.state = State::Wait { election_due: election_timeout(now, now_ms) };
        self.core.set_follower();
        self.reset();
    }

    /// Observes a higher term: forgets leadership and votes, keeps an
    /// already-overdue timer so the next election is not delayed.
    pub fn step_down(&mut self, term: TermId, now_ms: u64)
        requires
            now_ms <= u64::MAX - 1300,
        ensures
            final(self).term == term,
            (final(self).state matches State::Wait { election_due } && (match spec_due_of(
                old(self).state,
            ) {
                Some(due) => if due < now_ms {
                    election_due == due
                } else {
                    now_ms + ELECTION_TIMEOUT + ELECTION_TIMEOUT_RAND_FROM <= election_due < now_ms
                        + ELECTION_TIMEOUT + ELECTION_TIMEOUT_RAND_TO
                },
                None => now_ms + ELECTION_TIMEOUT + ELECTION_TIMEOUT_RAND_FROM <= election_due
                    < now_ms + ELECTION_TIMEOUT + ELECTION_TIMEOUT_RAND_TO,
            })),
            final(self).core == (JMAPServer {
                leader: false,
                up_to_date: false,
                ..old(self).core
            }),
            final(self).last_log == old(self).last_log,
            final(self).peer_id == old(self).peer_id,
            final(self).shard_id == old(self).shard_id,
            final(self).peers@.len() == old(self).peers@.len(),
            forall|j: int|
                0 <= j < final(self).peers@.len() ==> (#[trigger] final(self).peers@[j]) == (Peer {
                    vote_granted: false,
                    ..old(self).peers@[j]
                }),
    {
        self.reset();
        self.core.set_follower();
        self.term = term;
        let due_kept = match self.state {
            State::Wait { election_due } => {
                if election_due < now_ms {
                    Some(election_due)
                } else {
                    None
                }
            },
            State::Candidate { election_due } => {
                if election_due < now_ms {
                    Some(election_due)
                } else {
                    None
                }
            },
            State::VotedFor { election_due, .. } => {
                if election_due < now_ms {
                    Some(election_due)
                } else {
                    None
                }
            },
            _ => None,
        };
        self.state = State::Wait {
            election_due: match due_kept {
                Some(due) => due,
                None => election_timeout(false, now_ms),
            },
        };
    }

    /// Votes for `peer_id` and restarts the wait timer.
    pub fn vote_for(&mut self, peer_id: PeerId, now_ms: u64)
        requires
            now_ms <= u64::MAX - 1300,
        ensures
            (final(self).state matches State::VotedFor { peer_id: p, election_due } && p == peer_id
                && now_ms + ELECTION_TIMEOUT + ELECTION_TIMEOUT_RAND_FROM <= election_due < now_ms
                + ELECTION_TIMEOUT + ELECTION_TIMEOUT_RAND_TO),
            final(self).core == (JMAPServer {
                leader: false,
                up_to_date: false,
                ..old(self).core
            }),
            final(self).term == old(self).term,
            final(self).last_log == old(self).last_log,
            final(self).peers@.len() == old(self).peers@.len(),
            forall|j: int|
                0 <= j < final(self).peers@.len() ==> (#[trigger] final(self).peers@[j]) == (Peer {
                    vote_granted: false,
                    ..old(self).peers@[j]
                }),
    {
        self.state = State::VotedFor { peer_id, election_due: election_timeout(false, now_ms) };
        self.core.set_follower();
        self.reset();
    }

    /// Follows `peer_id` as the leader of the current term.
    pub fn follow_leader(&mut self, peer_id: PeerId)
        ensures
            final(self).state == (State::Follower { peer_id }),
            final(self).core == (JMAPServer {
                leader: false,
                up_to_date: false,
                ..old(self).core
            }),
            final(self).term == old(self).term,
            final(self).last_log == old(self).last_log,
            final(self).peers@.len() == old(self).peers@.len(),
            forall|j: int|
                0 <= j < final(self).peers@.len() ==> (#[trigger] final(self).peers@[j]) == (Peer {
                    vote_granted: false,
                    ..old(self).peers@[j]
                }),
    {
        self.state = State::Follower { peer_id };
        self.core.set_follower();
        self.reset();
    }

    /// The log index the leader would broadcast to its replication
    /// drivers; nothing to send when not leading.
    pub fn send_append_entries(&self) -> (r: Option<LogIndex>)
        ensures
            r == if self.state is Leader {
                Some(self.last_log.index)
            } else {
                None::<LogIndex>
            },
    {
        if matches!(self.state, State::Leader) {
            Some(self.last_log.index)
        } else {
            None
        }
    }

    /// Becomes a candidate for the next term.
    pub fn run_for_election(&mut self, now: bool, now_ms: u64)
        requires
            old(self).wf(),
            now_ms <= u64::MAX - 1300,
        ensures
            (final(self).state matches State::Candidate { election_due } && now_ms + (if now {
                0
            } else {
                ELECTION_TIMEOUT
            }) + ELECTION_TIMEOUT_RAND_FROM <= election_due < now_ms + (if now {
                0
            } else {
                ELECTION_TIMEOUT
            }) + ELECTION_TIMEOUT_RAND_TO),
            final(self).term == old(self).term + 1,
            final(self).core == (JMAPServer {
                leader: false,
                up_to_date: false,
                ..old(self).core
            }),
            final(self).last_log == old(self).last_log,
            final(self).shard_id == old(self).shard_id,
            final(self).peers@.len() == old(self).peers@.len(),
            forall|j: int|
                0 <= j < final(self).peers@.len() ==> (#[trigger] final(self).peers@[j]) == (Peer {
                    vote_granted: false,
                    ..old(self).peers@[j]
                }),
    {
        self.state = State::Candidate { election_due: election_timeout(now, now_ms) };
        self.term = self.term + 1;
        self.core.set_follower();
        self.reset();
    }

    /// Takes leadership: one replication driver is to be spawned for every
    /// peer of this shard; the returned ids say which.
    pub fn become_leader(&mut self) -> (r: Vec<PeerId>)
        ensures
            final(self).state is Leader,
            final(self).core == (JMAPServer {
                leader: true,
                up_to_date: true,
                log_term: old(self).term,
                ..old(self).core
            }),
            final(self).term == old(self).term,
            final(self).last_log == old(self).last_log,
            r@ == shard_ids(old(self).peers@, old(self).shard_id, old(self).peers@.len() as int),
            final(self).peers@.len() == old(self).peers@.len(),
            forall|j: int|
                0 <= j < final(self).peers@.len() ==> (#[trigger] final(self).peers@[j]) == (Peer {
                    vote_granted: false,
                    ..old(self).peers@[j]
                }),
    {
        let mut r: Vec<PeerId> = Vec::new();
        let mut i: usize = 0;
        while i < self.peers.len()
            invariant
                0 <= i <= self.peers@.len(),
                self == old(self),
                r@ == shard_ids(self.peers@, self.shard_id, i as int),
            decreases self.peers@.len() - i,
        {
            if self.peers[i].is_in_shard(self.shard_id) {
                r.push(self.peers[i].peer_id);
            }
            i = i + 1;
        }
        self.state = State::Leader;
        let term = self.term;
        self.core.set_leader(term);
        self.reset();
        r
    }

    /// Whether a replication driver should be spawned for a peer that
    /// joined while this node leads.
    pub fn add_follower(&self, peer_id: PeerId) -> (r: bool)
        ensures
            r == (self.state is Leader && exists|j: int|
                0 <= j < self.peers@.len() && (#[trigger] self.peers@[j]).peer_id == peer_id),
    {
        if !matches!(self.state, State::Leader) {
            return false;
        }
        let mut i: usize = 0;
        while i < self.peers.len()
            invariant
                0 <= i <= self.peers@.len(),
                self.state is Leader,
                forall|j: int| 0 <= j < i ==> (#[trigger] self.peers@[j]).peer_id != peer_id,
            decreases self.peers@.len() - i,
        {
            if self.peers[i].peer_id == peer_id {
                proof {
                    assert((#[trigger] self.peers@[i as int]).peer_id == peer_id);
                }
                return true;
            }
            i = i + 1;
        }
        false
    }

    /// Records the vote of `peer_id` and reports whether the votes now
    /// reach a strict majority of the shard, this node's own vote
    /// included.
    pub fn count_vote(&mut self, peer_id: PeerId) -> (r: bool)
        requires
            old(self).wf(),
        ensures
            final(self).peers@.len() == old(self).peers@.len(),
            forall|j: int|
                0 <= j < final(self).peers@.len() ==> (#[trigger] final(self).peers@[j]) == if old(self).peers@[j].shard_id == old(self).shard_id && old(self).peers@[j].peer_id
                    == peer_id {
                    Peer { vote_granted: true, ..old(self).peers@[j] }
                } else {
                    old(self).peers@[j]
                },
            *final(self) == (Cluster { peers: final(self).peers, ..*old(self) }),
            r == (1 + count_granted(
                final(self).peers@,
                old(self).shard_id,
                final(self).peers@.len() as int,
            ) > (1 + count_shard(old(self).peers@, old(self).shard_id, old(self).peers@.len() as int))
                / 2),
    {
        let ghost peers0 = self.peers@;
        let mut total: u32 = 0;
        let mut votes: u32 = 1;
        let shard_id = self.shard_id;
        let mut i: usize = 0;
        while i < self.peers.len()
            invariant
                0 <= i <= self.peers@.len(),
                self.peers@.len() == peers0.len(),
                peers0.len() < 0xffffffff,
                shard_id == old(self).shard_id,
                *self == (Cluster { peers: self.peers, ..*old(self) }),
                forall|j: int|
                    0 <= j < i ==> (#[trigger] self.peers@[j]) == if peers0[j].shard_id == shard_id
                        && peers0[j].peer_id == peer_id {
                        Peer { vote_granted: true, ..peers0[j] }
                    } else {
                        peers0[j]
                    },
                forall|j: int| i <= j < self.peers@.len() ==> (#[trigger] self.peers@[j]) == peers0[j],
                total == count_shard(self.peers@, shard_id, i as int),
                votes == 1 + count_granted(self.peers@, shard_id, i as int),
                total <= i,
                votes <= i + 1,
                peers0 == old(self).peers@,
            decreases self.peers@.len() - i,
        {
            let ghost pre = self.peers@;
            let p = self.peers[i];
            if p.is_in_shard(shard_id) {
                total = total + 1;
                if p.peer_id == peer_id {
                    self.peers.set(i, Peer { vote_granted: true, ..p });
                    votes = votes + 1;
                } else if p.vote_granted {
                    votes = votes + 1;
                }
            }
            proof {
                lemma_count_prefix_stable(pre, self.peers@, shard_id, i as int);
            }
            i = i + 1;
        }
        proof {
            assert(count_shard(self.peers@, shard_id, self.peers@.len() as int) == count_shard(
                peers0,
                shard_id,
                peers0.len() as int,
            )) by {
                lemma_count_shard_same_shards(peers0, self.peers@, shard_id, peers0.len() as int);
            }
        }
        (votes as u64) > ((total as u64) + 1) / 2
    }

    /// Answers a vote request: steps down on a newer term, grants iff the
    /// terms agree, this node has not yet promised its vote elsewhere, and
    /// the candidate's log is at least as advanced.
    pub fn handle_vote_request(
        &mut self,
        peer_id: PeerId,
        term: TermId,
        last: RaftId,
        now_ms: u64,
    ) -> (r: Response)
        requires
            now_ms <= u64::MAX - 1300,
        ensures
            ({
                let stepped = old(self).term < term;
                let t1 = if stepped {
                    term
                } else {
                    old(self).term
                };
                let granted = t1 == term && (if stepped {
                    true
                } else {
                    spec_can_grant(old(self).state, peer_id)
                }) && spec_log_behind_or_eq(old(self).last_log, last.term, last.index);
                &&& r == (Response::Vote { term: t1, vote_granted: granted })
                &&& final(self).term == t1
                &&& granted ==> (final(self).state matches State::VotedFor { peer_id: p, .. }
                    && p == peer_id)
                &&& final(self).last_log == old(self).last_log
            }),
    {
        if self.term < term {
            self.step_down(term, now_ms);
        }
        let granted = if self.term == term && self.can_grant_vote(peer_id)
            && self.log_is_behind_or_eq(last.term, last.index) {
            self.vote_for(peer_id, now_ms);
            true
        } else {
            false
        };
        Response::Vote { term: self.term, vote_granted: granted }
    }

    /// Handles a vote response while campaigning: counts the vote and, on
    /// reaching a majority, takes leadership, returning the shard peers a
    /// replication driver must be spawned for.
    pub fn handle_vote_response(
        &mut self,
        peer_id: PeerId,
        term: TermId,
        vote_granted: bool,
        now_ms: u64,
    ) -> (r: Option<Vec<PeerId>>)
        requires
            old(self).wf(),
            now_ms <= u64::MAX - 1300,
        ensures
            old(self).term < term ==> r is None && final(self).term == term && (final(self).state
                matches State::Wait { .. }) && final(self).core == (JMAPServer {
                leader: false,
                up_to_date: false,
                ..old(self).core
            }) && final(self).last_log == old(self).last_log,
            old(self).term >= term && !(old(self).state is Candidate && vote_granted && old(
                self,
            ).term == term) ==> r is None && *final(self) == *old(self),
            old(self).term >= term && (old(self).state is Candidate && vote_granted && old(
                self,
            ).term == term) ==> ({
                let counted = vote_recorded(old(self).peers@, old(self).shard_id, peer_id);
                let winning = 1 + count_granted(
                    counted,
                    old(self).shard_id,
                    counted.len() as int,
                ) > (1 + count_shard(
                    old(self).peers@,
                    old(self).shard_id,
                    old(self).peers@.len() as int,
                )) / 2;
                &&& final(self).term == old(self).term
                &&& final(self).last_log == old(self).last_log
                &&& (!winning ==> r is None && final(self).peers@ == counted && final(self).state
                    == old(self).state && final(self).core == old(self).core)
                &&& (winning ==> (r matches Some(ids) && ids@ == shard_ids(
                    old(self).peers@,
                    old(self).shard_id,
                    old(self).peers@.len() as int,
                )) && final(self).state is Leader && final(self).core == (JMAPServer {
                    leader: true,
                    up_to_date: true,
                    log_term: old(self).term,
                    ..old(self).core
                }))
            }),
    {
        if self.term < term {
            self.step_down(term, now_ms);
            return None;
        }
        if !self.is_candidate() || !vote_granted || self.term != term {
            return None;
        }
        let ghost counted = vote_recorded(old(self).peers@, old(self).shard_id, peer_id);
        let won = self.count_vote(peer_id);
        proof {
            assert(self.peers@ =~= counted);
        }
        if won {
            let ids = self.become_leader();
            proof {
                lemma_shard_ids_same_identity(
                    counted,
                    old(self).peers@,
                    old(self).shard_id,
                    counted.len() as int,
                );
            }
            Some(ids)
        } else {
            None
        }
    }

    /// Starts an election round: with quorum and no reachable shard peer
    /// strictly more advanced, campaign and return the reachable shard
    /// peers to solicit votes from; otherwise arm a wait timer, hoping a
    /// more advanced peer wins.
    pub fn start_election(&mut self, now: bool, now_ms: u64) -> (r: Vec<PeerId>)
        requires
            old(self).wf(),
            now_ms <= u64::MAX - 1300,
        ensures
            old(self).spec_has_quorum() && !old(self).spec_has_more_advanced_peer() ==> {
                &&& final(self).state matches State::Candidate { .. }
                &&& final(self).term == old(self).term + 1
                &&& r@ == shard_online_ids(
                    old(self).peers@,
                    old(self).shard_id,
                    old(self).peers@.len() as int,
                )
            },
            !(old(self).spec_has_quorum() && !old(self).spec_has_more_advanced_peer())
                ==> (final(self).state matches State::Wait { .. }) && r@.len() == 0 && final(self).term == old(self).term,
            final(self).last_log == old(self).last_log,
    {
        if self.has_election_quorum() {
            let mut any_better = false;
            let mut i: usize = 0;
            while i < self.peers.len()
                invariant
                    0 <= i <= self.peers@.len(),
                    self == old(self),
                    any_better == exists|j: int|
                        0 <= j < i && (#[trigger] self.peers@[j]).shard_id == self.shard_id
                            && self.peers@[j].online && spec_log_behind(
                            self.last_log,
                            self.peers@[j].last_log_term,
                            self.peers@[j].last_log_index,
                        ),
                decreases self.peers@.len() - i,
            {
                let p = self.peers[i];
                if p.is_in_shard(self.shard_id) && !p.is_offline() && self.log_is_behind(
                    p.last_log_term,
                    p.last_log_index,
                ) {
                    any_better = true;
                }
                i = i + 1;
            }
            if !any_better {
                self.run_for_election(now, now_ms);
                let mut r: Vec<PeerId> = Vec::new();
                let mut k: usize = 0;
                while k < self.peers.len()
                    invariant
                        0 <= k <= self.peers@.len(),
                        r@ == shard_online_ids(self.peers@, self.shard_id, k as int),
                        self.shard_id == old(self).shard_id,
                        self.peers@.len() == old(self).peers@.len(),
                        forall|j: int|
                            0 <= j < self.peers@.len() ==> (#[trigger] self.peers@[j]) == (Peer {
                                vote_granted: false,
                                ..old(self).peers@[j]
                            }),
                        self.state matches State::Candidate { .. },
                        self.term == old(self).term + 1,
                        self.last_log == old(self).last_log,
                    decreases self.peers@.len() - k,
                {
                    let p = self.peers[k];
                    if p.is_in_shard(self.shard_id) && !p.is_offline() {
                        r.push(p.peer_id);
                    }
                    k = k + 1;
                }
                proof {
                    lemma_shard_online_ids_granted_irrelevant(
                        old(self).peers@,
                        self.peers@,
                        self.shard_id,
                        self.peers@.len() as int,
                    );
                }
                return r;
            } else {
                self.start_election_timer(now, now_ms);
                return Vec::new();
            }
        } else {
            self.start_election_timer(false, now_ms);
            return Vec::new();
        }
    }
}

/// Prefix counts only look at the prefix: equal prefixes count alike.
proof fn lemma_count_prefix_stable(a: Seq<Peer>, b: Seq<Peer>, shard: u32, n: int)
    requires
        0 <= n <= a.len(),
        n <= b.len(),
        forall|j: int| 0 <= j < n ==> a[j] == b[j],
    ensures
        count_shard(a, shard, n) == count_shard(b, shard, n),
        count_granted(a, shard, n) == count_granted(b, shard, n),
        count_online(a, shard, n) == count_online(b, shard, n),
    decreases n,
{
    if n > 0 {
        lemma_count_prefix_stable(a, b, shard, n - 1);
    }
}

/// Shard membership counts ignore the vote and reachability flags.
proof fn lemma_count_shard_same_shards(a: Seq<Peer>, b: Seq<Peer>, shard: u32, n: int)
    requires
        0 <= n <= a.len(),
        n <= b.len(),
        forall|j: int| 0 <= j < n ==> (#[trigger] a[j]).shard_id == b[j].shard_id,
    ensures
        count_shard(a, shard, n) == count_shard(b, shard, n),
    decreases n,
{
    if n > 0 {
        lemma_count_shard_same_shards(a, b, shard, n - 1);
    }
}

/// The reachable-shard-peer id list ignores the vote flag.
proof fn lemma_shard_online_ids_granted_irrelevant(a: Seq<Peer>, b: Seq<Peer>, shard: u32, n: int)
    requires
        0 <= n <= a.len(),
        n <= b.len(),
        forall|j: int|
            0 <= j < n ==> (#[trigger] b[j]) == (Peer { vote_granted: false, ..a[j] }),
    ensures
        shard_online_ids(a, shard, n) == shard_online_ids(b, shard, n),
    decreases n,
{
    if n > 0 {
        lemma_shard_online_ids_granted_irrelevant(a, b, shard, n - 1);
    }
}

/// The log order is reflexive, and two positions each at least as advanced
/// as the other are the same position.
pub proof fn lemma_log_behind_or_eq_order(a: RaftId, b: RaftId)
    ensures
        spec_log_behind_or_eq(a, a.term, a.index),
        (spec_log_behind_or_eq(a, b.term, b.index) && spec_log_behind_or_eq(b, a.term, a.index))
            <==> (a.term == b.term && a.index == b.index),
{
}

/// A strict majority is reached when every shard peer granted its vote:
/// the candidate's own vote tips `total` granted votes over the bar
/// `(total + 2) / 2`.
pub proof fn lemma_unanimous_election(peers: Seq<Peer>, shard: u32, n: int)
    requires
        0 <= n <= peers.len(),
        forall|j: int|
            0 <= j < n && (#[trigger] peers[j]).shard_id == shard ==> peers[j].vote_granted,
    ensures
        count_granted(peers, shard, n) == count_shard(peers, shard, n),
        1 + count_granted(peers, shard, n) > (1 + count_shard(peers, shard, n)) / 2,
    decreases n,
{
    if n > 0 {
        lemma_unanimous_election(peers, shard, n - 1);
    } else {
    }
    lemma_count_nonneg(peers, shard, n);
}

/// Counts are never negative.
proof fn lemma_count_nonneg(peers: Seq<Peer>, shard: u32, n: int)
    requires
        n <= peers.len(),
    ensures
        count_shard(peers, shard, n) >= 0,
        count_granted(peers, shard, n) >= 0,
    decreases n,
{
    if n > 0 {
        lemma_count_nonneg(peers, shard, n - 1);
    }
}

} // verus!
