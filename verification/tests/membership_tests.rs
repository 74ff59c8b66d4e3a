use consensus_raft::membership::{ConsensusPhase, JointConsensus, MembershipConfig};

#[test]
fn test_membership_contains() {
    let config = MembershipConfig::new(vec![1, 2, 3]);
    assert!(config.contains(1));
    assert!(!config.contains(4));
}

#[test]
fn test_majority_calculation() {
    let config = MembershipConfig::new(vec![1, 2, 3, 4, 5]);
    assert_eq!(config.majority(), 3);
}

#[test]
fn test_joint_consensus_initial() {
    let old = MembershipConfig::new(vec![1, 2, 3]);
    let new = MembershipConfig::new(vec![1, 2, 3, 4, 5]);
    let jc = JointConsensus::new(old, new);
    assert_eq!(jc.phase, ConsensusPhase::OldOnly);
}

#[test]
fn test_enter_joint_phase() {
    let old = MembershipConfig::new(vec![1, 2, 3]);
    let new = MembershipConfig::new(vec![1, 2, 3, 4, 5]);
    let mut jc = JointConsensus::new(old, new);
    jc.enter_joint();
    assert_eq!(jc.phase, ConsensusPhase::Joint);
}

#[test]
fn test_joint_majority_both_agree() {
    let old = MembershipConfig::new(vec![1, 2, 3]);
    let new = MembershipConfig::new(vec![1, 2, 3, 4, 5]);
    let mut jc = JointConsensus::new(old, new);
    jc.enter_joint();
    let old_votes = vec![1, 2];
    let new_votes = vec![1, 2, 3];
    assert!(jc.is_joint_majority(&old_votes, &new_votes));
}

#[test]
fn test_joint_majority_old_blocks() {
    let old = MembershipConfig::new(vec![1, 2, 3]);
    let new = MembershipConfig::new(vec![1, 2, 3, 4, 5]);
    let mut jc = JointConsensus::new(old, new);
    jc.enter_joint();
    let old_votes = vec![1]; // only 1 of 3 old nodes
    let new_votes = vec![1, 2, 3, 4];
    assert!(!jc.is_joint_majority(&old_votes, &new_votes));
}

#[test]
fn test_complete_transition() {
    let old = MembershipConfig::new(vec![1, 2, 3]);
    let new = MembershipConfig::new(vec![1, 2, 3, 4, 5]);
    let mut jc = JointConsensus::new(old, new);
    jc.enter_joint();
    jc.complete();
    assert_eq!(jc.phase, ConsensusPhase::NewOnly);
    assert_eq!(jc.effective_config().size(), 5);
}

#[test]
fn test_effective_config_old_phase() {
    let old = MembershipConfig::new(vec![1, 2, 3]);
    let new = MembershipConfig::new(vec![1, 2, 3, 4, 5]);
    let jc = JointConsensus::new(old, new);
    assert_eq!(jc.effective_config().size(), 3);
}

#[test]
fn test_membership_version() {
    let mut config = MembershipConfig::new(vec![1, 2, 3]);
    assert_eq!(config.version, 0);
    config.version = 1;
    assert_eq!(config.version, 1);
}
