use jmap_cluster::log_store::RaftId;
use jmap_cluster::raft::{election_timeout, Cluster, Peer, State};
use jmap_cluster::rpc::Response;
use jmap_cluster::server::JMAPServer;

fn peer(id: u32, shard: u32, term: u64, index: u64, online: bool) -> Peer {
    Peer {
        peer_id: id,
        shard_id: shard,
        last_log_index: index,
        last_log_term: term,
        vote_granted: false,
        online,
    }
}

fn cluster(peers: Vec<Peer>) -> Cluster {
    Cluster {
        peer_id: 1,
        shard_id: 0,
        term: 1,
        last_log: RaftId { term: 1, index: 5 },
        uncommitted_index: 5,
        state: State::Wait { election_due: 0 },
        peers,
        core: JMAPServer::new(),
    }
}

#[test]
fn quorum_needs_a_majority_of_the_shard() {
    let c = cluster(vec![peer(2, 0, 1, 5, true), peer(3, 0, 1, 5, true)]);
    assert!(c.has_election_quorum());
    let c2 = cluster(vec![peer(2, 0, 1, 5, false), peer(3, 0, 1, 5, false)]);
    assert!(!c2.has_election_quorum());
    // one of two peers reachable: two of three nodes, still a majority
    let c3 = cluster(vec![peer(2, 0, 1, 5, true), peer(3, 0, 1, 5, false)]);
    assert!(c3.has_election_quorum());
}

#[test]
fn log_order_is_reflexive_and_antisymmetric() {
    let c = cluster(vec![]);
    assert!(c.log_is_behind_or_eq(1, 5));
    assert!(!c.log_is_behind(1, 5));
    assert!(c.log_is_behind(2, 0));
    assert!(c.log_is_behind(1, 6));
    assert!(!c.log_is_behind_or_eq(1, 4));
    // the sentinel index compares as the smallest within a term
    assert!(!c.log_is_behind_or_eq(1, u64::MAX));
}

#[test]
fn most_up_to_date_candidate_wins_the_round() {
    // this node's log is ahead of both reachable shard peers: it
    // campaigns, both grant, and one response already tips the majority
    let mut c = cluster(vec![peer(2, 0, 1, 4, true), peer(3, 0, 1, 3, true)]);
    let solicit = c.start_election(true, 10_000);
    assert_eq!(solicit, vec![2, 3]);
    assert!(matches!(c.state, State::Candidate { .. }));
    assert_eq!(c.term, 2);
    let r = c.handle_vote_response(2, 2, true, 10_100);
    let spawned = r.expect("two of three votes are a majority");
    assert_eq!(spawned, vec![2, 3]);
    assert!(c.is_leading());
    assert!(c.core.is_leader());
    assert!(c.core.is_up_to_date());
}

#[test]
fn behind_candidate_waits_for_a_better_peer() {
    let mut c = cluster(vec![peer(2, 0, 2, 9, true), peer(3, 0, 1, 3, true)]);
    let solicit = c.start_election(true, 10_000);
    assert!(solicit.is_empty());
    assert!(matches!(c.state, State::Wait { .. }));
    assert_eq!(c.term, 1);
}

#[test]
fn vote_granted_only_to_an_up_to_date_candidate_once() {
    let mut c = cluster(vec![peer(2, 0, 1, 5, true)]);
    c.term = 2;
    let r = c.handle_vote_request(2, 2, RaftId { term: 2, index: 7 }, 10_000);
    match r {
        Response::Vote { term, vote_granted } => {
            assert_eq!(term, 2);
            assert!(vote_granted);
        }
        _ => panic!("expected a vote response"),
    }
    // a second candidate of the same term is refused: the vote is spent
    let r2 = c.handle_vote_request(3, 2, RaftId { term: 2, index: 9 }, 10_000);
    assert!(matches!(r2, Response::Vote { vote_granted: false, .. }));
    // a candidate with an older log is refused even on a fresh term ...
    let r3 = c.handle_vote_request(3, 3, RaftId { term: 1, index: 1 }, 10_000);
    assert!(matches!(r3, Response::Vote { vote_granted: false, .. }));
    assert_eq!(c.term, 3);
}

#[test]
fn step_down_clears_votes_and_flags() {
    let mut c = cluster(vec![peer(2, 0, 1, 5, true)]);
    c.peers[0].vote_granted = true;
    c.core.set_leader(1);
    c.step_down(5, 10_000);
    assert_eq!(c.term, 5);
    assert!(matches!(c.state, State::Wait { .. }));
    assert!(!c.peers[0].vote_granted);
    assert!(!c.core.is_leader());
    assert!(!c.core.is_up_to_date());
}

#[test]
fn election_timer_spread_stays_in_range() {
    for _ in 0..50 {
        let due = election_timeout(false, 1_000);
        assert!((1_000 + 1000 + 150..1_000 + 1000 + 300).contains(&due));
        let now_due = election_timeout(true, 1_000);
        assert!((1_000 + 150..1_000 + 300).contains(&now_due));
    }
}

#[test]
fn follower_and_leader_bookkeeping() {
    let mut c = cluster(vec![peer(2, 0, 1, 5, true)]);
    c.follow_leader(2);
    assert!(c.is_following());
    assert!(c.is_following_peer(2));
    assert!(!c.is_following_peer(3));
    assert_eq!(c.leader_peer_id(), Some(2));
    assert_eq!(c.send_append_entries(), None);
    let spawned = c.become_leader();
    assert_eq!(spawned, vec![2]);
    assert_eq!(c.leader_peer_id(), Some(1));
    assert_eq!(c.send_append_entries(), Some(5));
    assert!(c.add_follower(2));
    assert!(!c.add_follower(9));
    // a leader runs no election timer: the question reads as due
    assert!(c.is_election_due(0));
    c.start_election_timer(true, 2_000);
    assert!(matches!(c.state, State::Wait { .. }));
    assert!(c.time_to_next_election(1_000_000) == Some(0));
}

#[test]
fn ignored_vote_changes_nothing() {
    // a denied vote, a stale term, or a vote while not campaigning leaves
    // the node exactly as it was
    let mut c = cluster(vec![peer(2, 0, 1, 4, true), peer(3, 0, 1, 3, true)]);
    let _ = c.start_election(true, 10_000);
    assert!(matches!(c.state, State::Candidate { .. }));
    assert!(c.handle_vote_response(2, 2, false, 10_050).is_none(), "a denied vote counts nothing");
    assert!(!c.peers[0].vote_granted);
    assert!(c.handle_vote_response(2, 1, true, 10_060).is_none(), "a stale-term vote is ignored");
    assert!(!c.is_leading());
    // the first granted vote of the current term wins two of three
    assert!(c.handle_vote_response(3, 2, true, 10_070).is_some());
    assert!(c.is_leading());
}
