//! A Raft consensus core: leader election, a replicated log, commit
//! tracking, joint-consensus membership changes and the node state that
//! ties them together.

pub mod commit;
pub mod election;
pub mod log;
pub mod membership;
pub mod state;

pub use commit::{advance_commit_index, CommitTracker};
pub use election::{request_vote, start_election, ElectionState, NodeRole};
pub use log::{EntryView, LogEntry, LogIndex, LogOp, LogStore, LogTerm};
pub use membership::{ConsensusPhase, JointConsensus, MembershipConfig};
pub use state::{NodeId, RaftNode, Term};
