use jmap_cluster::changes_merge::MergedChanges;
use jmap_cluster::leader::{DriverOutcome, DriverStep, LeaderDriver, LeaderState};
use jmap_cluster::log_store::{LogEntry, LogStore, RaftId, Update};
use jmap_cluster::rpc::{AppendEntriesRequest, AppendEntriesResponse, Request, Response};
use roaring::RoaringTreemap;

fn snapshot(term: u64, index: u64) -> (RaftId, LogEntry) {
    let id = RaftId { term, index };
    (id, LogEntry::Snapshot { raft_id: id })
}

fn store_with(entries: &[(u64, u64)]) -> LogStore {
    let mut log = LogStore::new();
    for (term, index) in entries {
        let (id, e) = snapshot(*term, *index);
        log.append(id, e);
    }
    log
}

#[test]
fn log_queries() {
    let log = store_with(&[(1, 0), (1, 1), (2, 5), (3, 8)]);
    assert_eq!(log.last_log(), Some(RaftId { term: 3, index: 8 }));
    assert_eq!(
        log.get_prev_raft_id(RaftId { term: 2, index: 6 }),
        Some(RaftId { term: 2, index: 5 })
    );
    assert_eq!(
        log.get_next_raft_id(RaftId { term: 2, index: 6 }),
        Some(RaftId { term: 3, index: 8 })
    );
    assert_eq!(log.get_next_raft_id(RaftId { term: 9, index: 9 }), None);
    let terms = log.get_match_terms();
    let ids: Vec<(u64, u64)> = terms.iter().map(|r| (r.term, r.index)).collect();
    assert_eq!(ids, vec![(1, 0), (2, 5), (3, 8)]);
    let (term, indexes) = log.get_match_indexes(0);
    assert_eq!(term, 1);
    assert!(indexes.contains(0) && indexes.contains(1));
    assert_eq!(indexes.len(), 2);
}

#[test]
fn synchronize_finds_the_greatest_common_entry() {
    // the follower's term vector intersects ours under term 1 at index 0
    let log = store_with(&[(1, 0), (2, 5), (3, 8)]);
    let mut driver = LeaderDriver::new(9, 3, RaftId { term: 3, index: 8 }, 8);
    driver.state = LeaderState::Synchronize;
    let mut follower = RoaringTreemap::new();
    follower.insert(0);
    follower.insert(7);
    let mut bytes = Vec::new();
    follower.serialize_into(&mut bytes).unwrap();
    let outcome = driver.handle_response(
        Response::AppendEntries {
            response: AppendEntriesResponse::Synchronize { match_indexes: bytes },
        },
        &log,
    );
    assert!(matches!(outcome, DriverOutcome::Continue));
    match driver.state {
        LeaderState::Merge { matched_log } => {
            assert_eq!(matched_log, RaftId { term: 1, index: 0 });
        }
        _ => panic!("expected the driver to move to the merge step"),
    }
    assert_eq!(driver.follower_last_index, 0);
}

#[test]
fn empty_synchronize_answer_means_no_common_entry() {
    let log = store_with(&[(1, 0)]);
    let mut driver = LeaderDriver::new(9, 1, RaftId { term: 1, index: 0 }, 0);
    driver.state = LeaderState::Synchronize;
    let outcome = driver.handle_response(
        Response::AppendEntries {
            response: AppendEntriesResponse::Synchronize { match_indexes: Vec::new() },
        },
        &log,
    );
    assert!(matches!(outcome, DriverOutcome::Continue));
    match driver.state {
        LeaderState::Merge { matched_log } => assert!(matched_log.is_none()),
        _ => panic!("expected the driver to move to the merge step"),
    }
}

#[test]
fn shipping_settles_in_wait_once_the_follower_is_caught_up() {
    let log = store_with(&[(1, 1), (1, 2), (1, 3)]);
    let mut driver = LeaderDriver::new(9, 1, RaftId { term: 1, index: 3 }, 3);
    driver.state = LeaderState::AppendLogs { pending_changes: Vec::new() };
    let step = driver.next_step(&log);
    match step {
        DriverStep::Send {
            request: Request::AppendEntries { term, request: AppendEntriesRequest::Update { commit_index, updates } },
        } => {
            assert_eq!(term, 1);
            assert_eq!(commit_index, 3);
            let shipped: Vec<u64> = updates
                .iter()
                .filter_map(|u| match u {
                    Update::Log { raft_id, .. } => Some(raft_id.index),
                    _ => None,
                })
                .collect();
            assert_eq!(shipped, vec![1, 2, 3]);
        }
        _ => panic!("expected a log batch"),
    }
    assert_eq!(driver.follower_last_index, 3);
    // the follower confirms everything: the driver rests
    let outcome = driver.handle_response(
        Response::AppendEntries { response: AppendEntriesResponse::Done { up_to_index: 3 } },
        &log,
    );
    assert!(matches!(outcome, DriverOutcome::Notify { peer_id: 9, commit_index: 3 }));
    assert!(matches!(driver.state, LeaderState::Wait));
    // nothing to ship: the next step only advances the commit index
    driver.handle_log_index_update(4, 4);
    assert!(matches!(driver.state, LeaderState::AppendLogs { .. }));
    let step2 = driver.next_step(&log);
    match step2 {
        DriverStep::Send {
            request: Request::AppendEntries { request: AppendEntriesRequest::Update { .. }, .. },
        } => {}
        _ => panic!("expected another batch attempt for the new index"),
    }
}

#[test]
fn rollback_turns_deletions_into_insertions() {
    // a follower asking to restore documents it deleted gets them back as
    // insertions
    let log = store_with(&[(1, 1)]);
    let mut driver = LeaderDriver::new(9, 1, RaftId { term: 1, index: 1 }, 1);
    let mut mc = MergedChanges::new();
    mc.deletes.insert(7);
    mc.deletes.insert(9);
    let bytes = mc.to_bytes();
    let outcome = driver.handle_response(
        Response::AppendEntries {
            response: AppendEntriesResponse::Update {
                account_id: 4,
                collection: 6,
                changes: bytes,
                is_rollback: true,
            },
        },
        &log,
    );
    assert!(matches!(outcome, DriverOutcome::Continue));
    let step = driver.next_step(&log);
    match step {
        DriverStep::SendChanges { account_id, bytes, .. } => {
            assert_eq!(account_id, 4);
            let decoded = MergedChanges::from_bytes(&bytes).unwrap();
            assert!(decoded.inserts.contains(7) && decoded.inserts.contains(9));
            assert_eq!(decoded.inserts.len(), 2);
            assert!(decoded.deletes.is_empty());
            assert!(decoded.updates.is_empty());
        }
        _ => panic!("expected the changes to be shipped"),
    }
}

#[test]
fn driver_edges() {
    let log = store_with(&[(1, 1)]);
    let mut driver = LeaderDriver::new(9, 1, RaftId { term: 1, index: 1 }, 1);
    // the handshake announces leadership
    match driver.next_step(&log) {
        DriverStep::Send { request: Request::BecomeFollower { term, last_log } } => {
            assert_eq!(term, 1);
            assert_eq!(last_log, RaftId { term: 1, index: 1 });
        }
        _ => panic!("expected the handshake"),
    }
    // a dead channel sends the driver into the online wait
    let outcome = driver.handle_response(Response::NoReply, &log);
    assert!(matches!(outcome, DriverOutcome::WaitOnline));
    driver.handle_online();
    assert!(matches!(driver.state, LeaderState::BecomeLeader));
    // an unknown peer restarts the handshake
    driver.state = LeaderState::Wait;
    let outcome2 = driver.handle_response(Response::UnregisteredPeer, &log);
    assert!(matches!(outcome2, DriverOutcome::Continue));
    assert!(matches!(driver.state, LeaderState::BecomeLeader));
    // a step-down request ends the driver
    let outcome3 = driver.handle_response(Response::StepDown { term: 9 }, &log);
    assert!(matches!(outcome3, DriverOutcome::StepDownExit { term: 9 }));
    // asking for blobs twice with nothing left aborts
    driver.state = LeaderState::AppendBlobs { pending_blob_ids: Vec::new() };
    assert!(matches!(driver.next_step(&log), DriverStep::Abort));
    driver.state = LeaderState::AppendBlobs { pending_blob_ids: vec![42] };
    match driver.next_step(&log) {
        DriverStep::SendBlobs { blob_ids, .. } => assert_eq!(blob_ids, vec![42]),
        _ => panic!("expected the blobs to be shipped"),
    }
}

#[test]
fn log_neighbors_at_the_edges() {
    let log = store_with(&[(1, 5), (2, 9)]);
    assert_eq!(log.get_prev_raft_id(RaftId { term: 0, index: 2 }), None);
    assert_eq!(
        log.get_prev_raft_id(RaftId { term: 9, index: 100 }),
        Some(RaftId { term: 2, index: 9 })
    );
    assert_eq!(
        log.get_next_raft_id(RaftId { term: 0, index: 0 }),
        Some(RaftId { term: 1, index: 5 })
    );
    let empty = LogStore::new();
    assert_eq!(empty.last_log(), None);
    assert_eq!(empty.get_match_terms().len(), 0);
}

#[test]
fn plain_update_answer_keeps_deletions() {
    // without a rollback flag the decoded change sets pass through as-is
    let log = store_with(&[(1, 1)]);
    let mut driver = LeaderDriver::new(9, 1, RaftId { term: 1, index: 1 }, 1);
    let mut mc = MergedChanges::new();
    mc.inserts.insert(1);
    mc.deletes.insert(7);
    let bytes = mc.to_bytes();
    let outcome = driver.handle_response(
        Response::AppendEntries {
            response: AppendEntriesResponse::Update {
                account_id: 4,
                collection: 6,
                changes: bytes,
                is_rollback: false,
            },
        },
        &log,
    );
    assert!(matches!(outcome, DriverOutcome::Continue));
    match driver.next_step(&log) {
        DriverStep::SendChanges { bytes, .. } => {
            let decoded = MergedChanges::from_bytes(&bytes).unwrap();
            assert!(decoded.inserts.contains(1));
            assert!(decoded.deletes.contains(7));
        }
        _ => panic!("expected the changes to be shipped"),
    }
    // a vote answer that is not being campaigned for changes nothing
    let outcome2 = driver.handle_response(Response::Vote { term: 1, vote_granted: true }, &log);
    assert!(matches!(outcome2, DriverOutcome::Continue));
}
