use consensus_raft::election::start_election;
use consensus_raft::state::RaftNode;

#[test]
fn test_new_node() {
    let node = RaftNode::new(1, 150);
    assert_eq!(node.id, 1);
    assert_eq!(node.current_term(), 0);
    assert!(!node.is_leader());
}

#[test]
fn test_node_election_and_append() {
    let mut node = RaftNode::new(1, 150);
    start_election(&mut node.election);
    node.election.receive_vote(2);
    node.election.receive_vote(3);
    node.election.become_leader();
    assert!(node.is_leader());

    let idx = node.append_entry(vec![42]);
    assert_eq!(idx, 1);
}
