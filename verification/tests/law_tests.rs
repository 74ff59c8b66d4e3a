use consensus_raft::commit::{advance_commit_index, CommitTracker};
use consensus_raft::election::{receive_heartbeat, request_vote, start_election, ElectionState, NodeRole};
use consensus_raft::log::LogStore;
use consensus_raft::membership::{JointConsensus, MembershipConfig};
use consensus_raft::state::RaftNode;

#[test]
fn append_then_get_reads_back_and_keeps_earlier_entries() {
    let mut log = LogStore::new();
    log.append(1, vec![7]);
    let idx = log.append(4, vec![8, 9]);
    assert_eq!(idx, 2);
    let e = log.get(2).unwrap();
    assert_eq!((e.index, e.term, e.command.clone()), (2, 4, vec![8, 9]));
    let first = log.get(1).unwrap();
    assert_eq!((first.index, first.term, first.command.clone()), (1, 1, vec![7]));
}

#[test]
fn get_outside_the_log_is_none() {
    let mut log = LogStore::new();
    assert!(log.get(0).is_none());
    assert!(log.get(1).is_none());
    log.append(1, vec![]);
    assert!(log.get(0).is_none());
    assert!(log.get(2).is_none());
    assert!(log.get(u64::MAX).is_none());
}

#[test]
fn truncate_keeps_prefix_and_drops_rest() {
    let mut log = LogStore::new();
    log.append(1, vec![1]);
    log.append(2, vec![2]);
    log.append(3, vec![3]);
    log.truncate_from(2);
    assert_eq!(log.len(), 1);
    assert_eq!(log.get(1).unwrap().command, vec![1]);
    assert!(log.get(2).is_none());
    // indices restart after the kept prefix
    assert_eq!(log.append(5, vec![4]), 2);
    assert_eq!(log.get(2).unwrap().index, 2);
}

#[test]
fn truncate_edge_cases() {
    let mut log = LogStore::new();
    log.append(1, vec![]);
    log.append(1, vec![]);
    log.truncate_from(10);
    assert_eq!(log.len(), 2);
    log.truncate_from(3);
    assert_eq!(log.len(), 2);
    log.truncate_from(0);
    assert!(log.is_empty());
    assert_eq!(log.last_index(), 0);
}

#[test]
fn up_to_date_is_reflexive_and_total() {
    let mut log = LogStore::new();
    log.append(2, vec![]);
    log.append(3, vec![]);
    assert!(log.is_up_to_date(log.last_index(), log.last_term()));
    // same term, shorter other log
    assert!(!log.is_up_to_date(1, 3));
    // lower term wins nothing even with a longer log
    assert!(!log.is_up_to_date(100, 2));
    let empty = LogStore::new();
    assert!(empty.is_up_to_date(0, 0));
}

#[test]
fn log_is_consistent_with_its_own_tail() {
    let mut log = LogStore::new();
    log.append(1, vec![]);
    log.append(4, vec![]);
    assert!(log.is_consistent(log.last_index(), log.last_term()));
    assert!(log.is_consistent(0, 99));
    assert!(!log.is_consistent(3, 4));
}

#[test]
fn get_range_edges() {
    let mut log = LogStore::new();
    log.append(1, vec![1]);
    log.append(1, vec![2]);
    log.append(2, vec![3]);
    let all = log.get_range(1, log.last_index());
    assert_eq!(all.len(), 3);
    assert_eq!(all[2].command, vec![3]);
    let from_zero = log.get_range(0, 100);
    assert_eq!(from_zero.len(), 3);
    assert_eq!(from_zero[0].index, 1);
    assert!(log.get_range(3, 2).is_empty());
    assert!(log.get_range(4, 9).is_empty());
    let tail = log.get_range(3, u64::MAX);
    assert_eq!(tail.len(), 1);
    assert_eq!((tail[0].index, tail[0].term), (3, 2));
}

#[test]
fn default_log_and_tracker_are_empty() {
    let log = LogStore::default();
    assert!(log.is_empty());
    let tracker = CommitTracker::default();
    assert_eq!((tracker.commit_index, tracker.last_applied), (0, 0));
}

#[test]
fn one_vote_per_term() {
    let mut state = ElectionState::new(1, 150);
    assert!(request_vote(&mut state, 2, 3));
    assert!(!request_vote(&mut state, 4, 3));
    assert_eq!(state.voted_for, Some(2));
    // repeating the granted request is still granted
    assert!(request_vote(&mut state, 2, 3));
    // a newer term opens a new vote
    assert!(request_vote(&mut state, 4, 4));
    assert_eq!(state.current_term, 4);
}

#[test]
fn heartbeat_in_same_term_clears_the_vote() {
    let mut state = ElectionState::new(1, 150);
    assert!(request_vote(&mut state, 2, 3));
    assert!(receive_heartbeat(&mut state, 5, 3));
    assert_eq!(state.voted_for, None);
    assert!(request_vote(&mut state, 4, 3));
}

#[test]
fn terms_never_decrease() {
    let mut state = ElectionState::new(1, 150);
    state.step_down(7, None);
    assert_eq!(state.current_term, 7);
    state.step_down(3, Some(2));
    assert_eq!(state.current_term, 7);
    assert_eq!(state.leader_id, Some(2));
    assert!(!request_vote(&mut state, 2, 6));
    assert_eq!(state.current_term, 7);
    assert!(!receive_heartbeat(&mut state, 2, 6));
    assert_eq!(start_election(&mut state), 8);
}

#[test]
fn votes_only_counted_by_candidates() {
    let mut state = ElectionState::new(1, 150);
    state.receive_vote(2);
    assert!(state.votes_received.is_empty());
    start_election(&mut state);
    state.receive_vote(1);
    assert_eq!(state.votes_received, vec![1]);
    state.become_leader();
    state.receive_vote(3);
    assert_eq!(state.votes_received, vec![1]);
    assert_eq!(state.leader_id, Some(1));
}

#[test]
fn majority_thresholds() {
    let mut state = ElectionState::new(1, 150);
    start_election(&mut state);
    state.receive_vote(2);
    assert!(!state.has_majority(4));
    assert!(state.has_majority(3));
    state.receive_vote(3);
    assert!(state.has_majority(4));
    assert!(state.has_majority(0));
}

#[test]
fn become_candidate_resets_votes_and_leader() {
    let mut state = ElectionState::new(9, 150);
    state.step_down(2, Some(4));
    let t = state.become_candidate();
    assert_eq!(t, 3);
    assert_eq!(state.votes_received, vec![9]);
    assert_eq!(state.leader_id, None);
    assert_eq!(state.role, NodeRole::Candidate);
}

#[test]
fn try_advance_commits_highest_majority_index() {
    let mut log = LogStore::new();
    for _ in 0..5 {
        log.append(1, vec![]);
    }
    let mut tracker = CommitTracker::new();
    assert!(tracker.try_advance(&[5, 5, 4, 0, 0], 5, 1, &log));
    assert_eq!(tracker.commit_index, 4);
    // nothing above the commit index is on a majority now
    assert!(!tracker.try_advance(&[5, 5, 4, 0, 0], 5, 1, &log));
    assert_eq!(tracker.commit_index, 4);
    // never lowers the commit index
    assert!(!tracker.try_advance(&[1, 1, 1, 1, 1], 5, 1, &log));
    assert_eq!(tracker.commit_index, 4);
}

#[test]
fn try_advance_skips_older_terms_and_missing_entries() {
    let mut log = LogStore::new();
    log.append(1, vec![]);
    log.append(2, vec![]);
    log.append(1, vec![]);
    let mut tracker = CommitTracker::new();
    assert!(advance_commit_index(&mut tracker, &[3, 3, 3], 3, 2, &log));
    assert_eq!(tracker.commit_index, 2);
    let mut other = CommitTracker::new();
    // majority reports index 9, but the log has only 3 entries
    assert!(!other.try_advance(&[9, 9, 9], 3, 3, &log));
    assert_eq!(other.commit_index, 0);
    assert!(!other.try_advance(&[], 0, 1, &log));
}

#[test]
fn apply_in_steps_applies_each_command_once() {
    let mut log = LogStore::new();
    log.append(1, vec![1]);
    log.append(1, vec![2]);
    log.append(1, vec![3]);
    let mut tracker = CommitTracker::new();
    tracker.commit_index = 1;
    assert_eq!(tracker.apply_entries(&log), vec![vec![1]]);
    tracker.commit_index = 3;
    assert_eq!(tracker.apply_entries(&log), vec![vec![2], vec![3]]);
    assert!(tracker.apply_entries(&log).is_empty());
    assert_eq!(tracker.last_applied, 3);
}

#[test]
fn apply_past_the_log_end() {
    let mut log = LogStore::new();
    log.append(1, vec![5]);
    let mut tracker = CommitTracker::new();
    tracker.commit_index = 4;
    assert_eq!(tracker.apply_entries(&log), vec![vec![5]]);
    assert_eq!(tracker.last_applied, 4);
    tracker.last_applied = 9;
    assert!(tracker.apply_entries(&log).is_empty());
    assert_eq!(tracker.last_applied, 9);
}

#[test]
fn config_from_list_with_repeats() {
    let config = MembershipConfig::new(vec![3, 1, 3, 2, 1]);
    assert_eq!(config.size(), 3);
    assert_eq!(config.majority(), 2);
    assert!(config.contains(2));
    let empty = MembershipConfig::new(vec![]);
    assert_eq!(empty.size(), 0);
    assert_eq!(empty.majority(), 1);
}

#[test]
fn joint_majority_counts_distinct_member_voters() {
    let old = MembershipConfig::new(vec![1, 2, 3]);
    let new = MembershipConfig::new(vec![3, 4, 5]);
    let jc = JointConsensus::new(old, new);
    // votes from non-members do not count
    assert!(!jc.is_joint_majority(&[1, 2], &[1, 2, 3]));
    assert!(jc.is_joint_majority(&[1, 9, 2], &[4, 5]));
    // a voter listed twice is still one voter
    assert!(!jc.is_joint_majority(&[1, 1], &[4, 4]));
    assert!(!jc.is_joint_majority(&[1, 1], &[3, 4, 5]));
    assert!(jc.is_joint_majority(&[2, 1, 2, 1], &[5, 5, 3]));
}

#[test]
fn two_majorities_of_a_config_share_a_member() {
    let members = vec![1u64, 2, 3, 4, 5];
    let config = MembershipConfig::new(members.clone());
    let a = [1u64, 2, 3];
    let b = [3u64, 4, 5];
    let jc = JointConsensus::new(MembershipConfig::new(members.clone()), MembershipConfig::new(members));
    assert!(jc.is_joint_majority(&a, &b));
    assert!(a.len() >= config.majority() && b.len() >= config.majority());
    assert!(a.iter().any(|x| b.contains(x)));
}

#[test]
fn node_appends_in_its_current_term() {
    let mut node = RaftNode::new(3, 100);
    start_election(&mut node.election);
    start_election(&mut node.election);
    assert_eq!(node.current_term(), 2);
    assert_eq!(node.append_entry(vec![1]), 1);
    assert_eq!(node.append_entry(vec![2]), 2);
    let e = node.log.get(2).unwrap();
    assert_eq!((e.index, e.term), (2, 2));
    assert_eq!(node.commit.commit_index, 0);
}

#[test]
fn cloned_configs_keep_members_version_and_phase() {
    let mut config = MembershipConfig::new(vec![4, 2, 9]);
    config.version = 7;
    let copy = config.clone();
    assert_eq!(copy.size(), 3);
    assert!(copy.contains(4) && copy.contains(2) && copy.contains(9));
    assert!(!copy.contains(1));
    assert_eq!(copy.version, 7);
    let mut jc = JointConsensus::new(config, MembershipConfig::new(vec![1]));
    jc.enter_joint();
    let jc2 = jc.clone();
    assert_eq!(jc2.phase, consensus_raft::membership::ConsensusPhase::Joint);
    assert_eq!(jc2.old_config.size(), 3);
    assert_eq!(jc2.new_config.size(), 1);
}

#[test]
fn each_position_holds_its_latest_surviving_append() {
    let mut log = LogStore::new();
    log.append(1, vec![1]);
    log.append(1, vec![2]);
    log.append(2, vec![3]);
    log.truncate_from(2);
    log.append(3, vec![4]);
    log.truncate_from(9);
    log.append(3, vec![5]);
    let first = log.get(1).unwrap();
    assert_eq!((first.index, first.term, first.command.clone()), (1, 1, vec![1]));
    let second = log.get(2).unwrap();
    assert_eq!((second.index, second.term, second.command.clone()), (2, 3, vec![4]));
    let third = log.get(3).unwrap();
    assert_eq!((third.index, third.term, third.command.clone()), (3, 3, vec![5]));
    assert!(log.get(4).is_none());
}
