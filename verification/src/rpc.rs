//! The request/response envelope exchanged between peers.

use vstd::prelude::*;

use crate::document::{AccountId, BlobId};
use crate::log_store::{LogIndex, PeerId, RaftId, TermId, Update};

verus! {

/// Sub-requests of an `AppendEntries` exchange.
pub enum AppendEntriesRequest {
    Synchronize { match_terms: Vec<RaftId> },
    Merge { matched_log: RaftId },
    Update { commit_index: LogIndex, updates: Vec<Update> },
    AdvanceCommitIndex { commit_index: LogIndex },
}

/// Identity and placement of one peer, as exchanged in peer updates.
pub struct PeerInfo {
    pub peer_id: PeerId,
    pub shard_id: u32,
    pub last_log_index: LogIndex,
    pub last_log_term: TermId,
}

/// Requests a peer can receive.
pub enum Request {
    BecomeFollower { term: TermId, last_log: RaftId },
    AppendEntries { term: TermId, request: AppendEntriesRequest },
    Vote { term: TermId, last: RaftId },
    UpdatePeers { peers: Vec<PeerInfo> },
    Ping,
}

/// Follower answers within an `AppendEntries` exchange.
pub enum AppendEntriesResponse {
    Match { match_log: RaftId },
    Synchronize { match_indexes: Vec<u8> },
    Continue,
    Done { up_to_index: LogIndex },
    Update { account_id: AccountId, collection: u8, changes: Vec<u8>, is_rollback: bool },
    FetchBlobs { blob_ids: Vec<BlobId> },
}

/// Responses a peer can send back; `NoReply` is the synthetic value for
/// "no answer came", never mistaken for an empty success.
pub enum Response {
    StepDown { term: TermId },
    UpdatePeers { peers: Vec<PeerInfo> },
    Vote { term: TermId, vote_granted: bool },
    AppendEntries { response: AppendEntriesResponse },
    UnregisteredPeer,
    Pong,
    NoReply,
}

/// Events a replication driver raises toward the cluster coordinator.
pub enum Event {
    StoreChanged,
    AdvanceCommitIndex { peer_id: PeerId, commit_index: LogIndex },
    StepDown { term: TermId },
}

} // verus!
