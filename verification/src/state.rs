//! Node state management: RaftNode combining all state components.

use vstd::prelude::*;

use crate::commit::CommitTracker;
use crate::election::{initial_election, ElectionState, NodeRole};
use crate::log::{appended, EntryView, LogStore};

verus! {

/// Identifier of a node in the cluster.
pub type NodeId = u64;

/// A Raft term number.
pub type Term = u64;

/// Complete Raft node state.
#[derive(Debug)]
pub struct RaftNode {
    pub id: NodeId,
    pub election: ElectionState,
    pub log: LogStore,
    pub commit: CommitTracker,
}

impl RaftNode {
    pub fn new(id: NodeId, election_timeout_ms: u64) -> (r: Self)
        ensures
            r.id == id,
            r.election@ == initial_election(id, election_timeout_ms),
            r.log@ == Seq::<EntryView>::empty(),
            r.log.well_formed(),
            r.commit.commit_index == 0,
            r.commit.last_applied == 0,
    {
        Self {
            id,
            election: ElectionState::new(id, election_timeout_ms),
            log: LogStore::new(),
            commit: CommitTracker::new(),
        }
    }

    /// Current term of this node.
    pub fn current_term(&self) -> (r: Term)
        ensures
            r == self.election.current_term,
    {
        self.election.current_term
    }

    /// Is this node the leader?
    pub fn is_leader(&self) -> (r: bool)
        ensures
            r == (self.election.role == NodeRole::Leader),
    {
        self.election.role == NodeRole::Leader
    }

    /// Append a command to the log (leader only in real Raft).
    pub fn append_entry(&mut self, command: Vec<u8>) -> (index: u64)
        requires
            old(self).log@.len() < u64::MAX,
        ensures
            index == old(self).log@.len() + 1,
            final(self).log@ == appended(old(self).log@, old(self).election.current_term, command@),
            old(self).log.well_formed() ==> final(self).log.well_formed(),
            final(self).id == old(self).id,
            final(self).election@ == old(self).election@,
            final(self).commit == old(self).commit,
    {
        self.log.append(self.election.current_term, command)
    }
}

} // verus!
