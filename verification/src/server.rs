//! Hot node-level flags and counters, written only under the
//! coordinator's serialization.

use vstd::prelude::*;

use crate::log_store::{LogIndex, RaftId, TermId};

verus! {

/// Per-node replication status: leadership, freshness, and the persisted
/// position of the local log.
#[derive(Debug, Clone, Copy, PartialEq, Eq, Structural)]
pub struct JMAPServer {
    pub leader: bool,
    pub up_to_date: bool,
    pub log_index: LogIndex,
    pub log_term: TermId,
}

impl JMAPServer {
    pub fn new() -> (r: JMAPServer)
        ensures
            r == (JMAPServer { leader: false, up_to_date: false, log_index: 0, log_term: 0 }),
    {
        JMAPServer { leader: false, up_to_date: false, log_index: 0, log_term: 0 }
    }

    /// Marks this node leader for `term`: it is by definition up to date.
    pub fn set_leader(&mut self, term: TermId)
        ensures
            *final(self) == (JMAPServer {
                leader: true,
                up_to_date: true,
                log_term: term,
                ..*old(self)
            }),
    {
        self.leader = true;
        self.up_to_date = true;
        self.log_term = term;
    }

    /// Marks this node a follower; freshness must be re-earned.
    pub fn set_follower(&mut self)
        ensures
            *final(self) == (JMAPServer { leader: false, up_to_date: false, ..*old(self) }),
    {
        self.leader = false;
        self.up_to_date = false;
    }

    /// Records the newest local log position.
    pub fn update_last_log(&mut self, last_log: RaftId)
        ensures
            *final(self) == (JMAPServer {
                log_index: last_log.index,
                log_term: last_log.term,
                ..*old(self)
            }),
    {
        self.log_index = last_log.index;
        self.log_term = last_log.term;
    }

    pub fn is_leader(&self) -> (r: bool)
        ensures
            r == self.leader,
    {
        self.leader
    }

    pub fn is_up_to_date(&self) -> (r: bool)
        ensures
            r == self.up_to_date,
    {
        self.up_to_date
    }

    pub fn set_up_to_date(&mut self, val: bool)
        ensures
            *final(self) == (JMAPServer { up_to_date: val, ..*old(self) }),
    {
        self.up_to_date = val;
    }

    pub fn last_log_index(&self) -> (r: LogIndex)
        ensures
            r == self.log_index,
    {
        self.log_index
    }

    pub fn last_log_term(&self) -> (r: TermId)
        ensures
            r == self.log_term,
    {
        self.log_term
    }
}

} // verus!
