use consensus_raft::commit::CommitTracker;
use consensus_raft::log::LogStore;

#[test]
fn test_initial_commit_state() {
    let tracker = CommitTracker::new();
    assert_eq!(tracker.commit_index, 0);
    assert_eq!(tracker.last_applied, 0);
}

#[test]
fn test_advance_with_majority() {
    let mut log = LogStore::new();
    log.append(1, vec![1]);
    log.append(1, vec![2]);
    log.append(1, vec![3]);

    let mut tracker = CommitTracker::new();
    // 5 nodes: leader + 4 followers. match_indices[0] = leader
    let match_indices = vec![3, 3, 2, 0, 0];
    let advanced = tracker.try_advance(&match_indices, 5, 1, &log);
    assert!(advanced);
    assert!(tracker.commit_index >= 2);
}

#[test]
fn test_no_advance_without_majority() {
    let mut log = LogStore::new();
    log.append(1, vec![1]);
    log.append(1, vec![2]);

    let mut tracker = CommitTracker::new();
    let match_indices = vec![2, 1, 0, 0, 0];
    let advanced = tracker.try_advance(&match_indices, 5, 1, &log);
    assert!(!advanced);
}

#[test]
fn test_apply_entries() {
    let mut log = LogStore::new();
    log.append(1, vec![10]);
    log.append(1, vec![20]);

    let mut tracker = CommitTracker::new();
    tracker.commit_index = 2;
    let applied = tracker.apply_entries(&log);
    assert_eq!(applied.len(), 2);
    assert_eq!(applied[0], vec![10]);
    assert_eq!(applied[1], vec![20]);
    assert_eq!(tracker.last_applied, 2);
}

#[test]
fn test_is_committed() {
    let mut tracker = CommitTracker::new();
    tracker.commit_index = 5;
    assert!(tracker.is_committed(3));
    assert!(tracker.is_committed(5));
    assert!(!tracker.is_committed(6));
}

#[test]
fn test_only_commit_current_term() {
    let mut log = LogStore::new();
    log.append(1, vec![1]); // term 1
    log.append(1, vec![2]); // term 1
    log.append(2, vec![3]); // term 2

    let mut tracker = CommitTracker::new();
    let match_indices = vec![3, 3, 3, 3, 3];
    // Current term is 2, so only index 3 (term 2) triggers commit
    let advanced = tracker.try_advance(&match_indices, 5, 2, &log);
    assert!(advanced);
    assert_eq!(tracker.commit_index, 3);
}

#[test]
fn test_incremental_advance() {
    let mut log = LogStore::new();
    for _ in 0..5 {
        log.append(1, vec![]);
    }

    let mut tracker = CommitTracker::new();
    let match_indices = vec![3, 3, 3, 0, 0];
    tracker.try_advance(&match_indices, 5, 1, &log);
    let first = tracker.commit_index;

    let match_indices2 = vec![5, 5, 4, 0, 0];
    tracker.try_advance(&match_indices2, 5, 1, &log);
    assert!(tracker.commit_index > first);
}
