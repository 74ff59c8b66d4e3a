//! Leader election: timeout-based voting, term progression, split vote handling.

use vstd::prelude::*;

use crate::membership::{lemma_majority_votes_overlap, majority_vote, member_voters};
use crate::state::{NodeId, Term};

verus! {

/// Possible roles a Raft node can assume.
#[derive(Debug, Clone, Copy, PartialEq, Eq, Structural)]
pub enum NodeRole {
    Follower,
    Candidate,
    Leader,
}

/// Election state tracking for a node.
#[derive(Debug, Clone)]
pub struct ElectionState {
    pub node_id: NodeId,
    pub current_term: Term,
    pub voted_for: Option<NodeId>,
    pub role: NodeRole,
    pub votes_received: Vec<NodeId>,
    pub election_timeout_ms: u64,
    pub leader_id: Option<NodeId>,
}

/// The mathematical value of an `ElectionState`.
pub struct ElectionView {
    pub node_id: NodeId,
    pub current_term: Term,
    pub voted_for: Option<NodeId>,
    pub role: NodeRole,
    pub votes_received: Seq<NodeId>,
    pub election_timeout_ms: u64,
    pub leader_id: Option<NodeId>,
}

impl View for ElectionState {
    type V = ElectionView;

    open spec fn view(&self) -> ElectionView {
        ElectionView {
            node_id: self.node_id,
            current_term: self.current_term,
            voted_for: self.voted_for,
            role: self.role,
            votes_received: self.votes_received@,
            election_timeout_ms: self.election_timeout_ms,
            leader_id: self.leader_id,
        }
    }
}

/// A fresh follower in term 0 that has voted for nobody.
pub open spec fn initial_election(node_id: NodeId, election_timeout_ms: u64) -> ElectionView {
    ElectionView {
        node_id,
        current_term: 0,
        voted_for: None,
        role: NodeRole::Follower,
        votes_received: Seq::empty(),
        election_timeout_ms,
        leader_id: None,
    }
}

/// Next term, candidate, voting for itself with its own vote counted.
pub open spec fn candidate_of(s: ElectionView) -> ElectionView {
    ElectionView {
        current_term: (s.current_term + 1) as Term,
        role: NodeRole::Candidate,
        voted_for: Some(s.node_id),
        votes_received: seq![s.node_id],
        leader_id: None,
        ..s
    }
}

/// Leader of its current term.
pub open spec fn leader_of(s: ElectionView) -> ElectionView {
    ElectionView { role: NodeRole::Leader, leader_id: Some(s.node_id), ..s }
}

/// Follower of `leader_id`, in `term` if that is newer than the current one.
pub open spec fn stepped_down(s: ElectionView, term: Term, leader_id: Option<NodeId>) -> ElectionView {
    ElectionView {
        current_term: if term > s.current_term { term } else { s.current_term },
        role: NodeRole::Follower,
        voted_for: None,
        votes_received: Seq::empty(),
        leader_id,
        ..s
    }
}

/// A candidate counts each voter once; other roles ignore votes.
pub open spec fn with_vote(s: ElectionView, from: NodeId) -> ElectionView {
    if s.role == NodeRole::Candidate && !s.votes_received.contains(from) {
        ElectionView { votes_received: s.votes_received.push(from), ..s }
    } else {
        s
    }
}

/// Number of votes that make a majority of `cluster_size` nodes.
pub open spec fn majority_of(cluster_size: int) -> int {
    cluster_size / 2 + 1
}

/// State after a vote request from `candidate_id` in `candidate_term`, and
/// whether the vote is granted.
pub open spec fn vote_outcome(s: ElectionView, candidate_id: NodeId, candidate_term: Term) -> (
    ElectionView,
    bool,
) {
    if candidate_term < s.current_term {
        (s, false)
    } else {
        let s1 = if candidate_term > s.current_term {
            stepped_down(s, candidate_term, None)
        } else {
            s
        };
        if s1.voted_for is None || s1.voted_for == Some(candidate_id) {
            (ElectionView { voted_for: Some(candidate_id), ..s1 }, true)
        } else {
            (s1, false)
        }
    }
}

/// State after a heartbeat from `leader_id` in `leader_term`, and whether it is accepted.
pub open spec fn heartbeat_outcome(s: ElectionView, leader_id: NodeId, leader_term: Term) -> (
    ElectionView,
    bool,
) {
    if leader_term < s.current_term {
        (s, false)
    } else {
        (stepped_down(s, leader_term, Some(leader_id)), true)
    }
}

/// One vote per term: once a node has granted its vote to a candidate in
/// some term, a vote request from any other candidate in that same term is
/// refused, and the state stays as it was.
pub proof fn lemma_one_vote_per_term(s: ElectionView, first: NodeId, second: NodeId, term: Term)
    requires
        vote_outcome(s, first, term).1,
        first != second,
    ensures
        !vote_outcome(vote_outcome(s, first, term).0, second, term).1,
        vote_outcome(vote_outcome(s, first, term).0, second, term).0 == vote_outcome(
            s,
            first,
            term,
        ).0,
{
}

/// What a vote request does. A request from an older term is refused and
/// changes nothing. A request from a newer term makes the node a follower of
/// that term with no votes collected and no known leader, and the vote is
/// granted. A request from the current term keeps role, votes and leader,
/// and is granted exactly when the node has not voted for someone else.
pub proof fn lemma_vote_request(s: ElectionView, candidate_id: NodeId, candidate_term: Term)
    ensures
        ({
            let (post, granted) = vote_outcome(s, candidate_id, candidate_term);
            &&& granted == (candidate_term >= s.current_term && (candidate_term > s.current_term
                || s.voted_for is None || s.voted_for == Some(candidate_id)))
            &&& candidate_term < s.current_term ==> post == s
            &&& candidate_term > s.current_term ==> {
                &&& post.current_term == candidate_term
                &&& post.role == NodeRole::Follower
                &&& post.votes_received.len() == 0
                &&& post.leader_id is None
                &&& post.voted_for == Some(candidate_id)
            }
            &&& candidate_term == s.current_term ==> {
                &&& post.current_term == s.current_term
                &&& post.role == s.role
                &&& post.votes_received == s.votes_received
                &&& post.leader_id == s.leader_id
            }
            &&& granted ==> post.voted_for == Some(candidate_id)
            &&& !granted ==> post.voted_for == s.voted_for
            &&& post.node_id == s.node_id
            &&& post.election_timeout_ms == s.election_timeout_ms
        }),
{
}

/// What a heartbeat does: it is accepted exactly when its term is at least
/// the node's current term, whatever the node's role; an accepted heartbeat
/// makes the node a follower of that leader in that term, with no vote cast
/// and no votes collected; a refused one changes nothing.
pub proof fn lemma_heartbeat(s: ElectionView, leader_id: NodeId, leader_term: Term)
    ensures
        ({
            let (post, accepted) = heartbeat_outcome(s, leader_id, leader_term);
            &&& accepted == (leader_term >= s.current_term)
            &&& accepted ==> {
                &&& post.current_term == leader_term
                &&& post.role == NodeRole::Follower
                &&& post.leader_id == Some(leader_id)
                &&& post.voted_for is None
                &&& post.votes_received.len() == 0
                &&& post.node_id == s.node_id
            }
            &&& !accepted ==> post == s
        }),
{
}

/// Starting an election, from any role, moves to the next term as a
/// candidate that has voted for itself and holds exactly its own vote, with
/// no known leader.
pub proof fn lemma_start_election(s: ElectionView)
    requires
        s.current_term < u64::MAX,
    ensures
        candidate_of(s).current_term == s.current_term + 1,
        candidate_of(s).role == NodeRole::Candidate,
        candidate_of(s).votes_received == seq![s.node_id],
        candidate_of(s).votes_received.len() == 1,
        candidate_of(s).voted_for == Some(s.node_id),
        candidate_of(s).leader_id is None,
        candidate_of(s).node_id == s.node_id,
{
}

/// A node never goes back to an older term, whatever it is asked to do.
pub proof fn lemma_terms_never_decrease(
    s: ElectionView,
    peer: NodeId,
    term: Term,
    leader_id: Option<NodeId>,
)
    ensures
        s.current_term < u64::MAX ==> candidate_of(s).current_term > s.current_term,
        leader_of(s).current_term == s.current_term,
        stepped_down(s, term, leader_id).current_term >= s.current_term,
        with_vote(s, peer).current_term == s.current_term,
        vote_outcome(s, peer, term).0.current_term >= s.current_term,
        heartbeat_outcome(s, peer, term).0.current_term >= s.current_term,
{
}

/// Distinct voters who are all members are that many member voters.
proof fn lemma_all_member_voters(votes: Seq<u64>, members: Set<u64>)
    requires
        votes.no_duplicates(),
        forall|i: int| 0 <= i < votes.len() ==> members.contains(#[trigger] votes[i]),
    ensures
        member_voters(votes, members).len() == votes.len(),
{
    assert forall|x: u64| #[trigger] votes.to_set().contains(x) implies members.contains(x) by {
        let k = choose|k: int| 0 <= k < votes.len() && votes[k] == x;
    }
    assert(member_voters(votes, members) =~= votes.to_set());
    votes.unique_seq_to_set();
}

/// No split-brain: two candidates whose vote lists hold distinct members of
/// the same cluster cannot both have a majority without some member having
/// voted for both.
pub proof fn lemma_majorities_share_voter(
    cluster: Set<NodeId>,
    a: ElectionView,
    b: ElectionView,
)
    requires
        cluster.finite(),
        a.votes_received.no_duplicates(),
        b.votes_received.no_duplicates(),
        forall|i: int|
            0 <= i < a.votes_received.len() ==> cluster.contains(#[trigger] a.votes_received[i]),
        forall|i: int|
            0 <= i < b.votes_received.len() ==> cluster.contains(#[trigger] b.votes_received[i]),
        a.votes_received.len() >= majority_of(cluster.len() as int),
        b.votes_received.len() >= majority_of(cluster.len() as int),
    ensures
        exists|x: NodeId| a.votes_received.contains(x) && b.votes_received.contains(x),
{
    lemma_all_member_voters(a.votes_received, cluster);
    lemma_all_member_voters(b.votes_received, cluster);
    assert(majority_vote(a.votes_received, cluster));
    assert(majority_vote(b.votes_received, cluster));
    lemma_majority_votes_overlap(cluster, a.votes_received, b.votes_received);
}

impl ElectionState {
    pub fn new(node_id: NodeId, election_timeout_ms: u64) -> (r: Self)
        ensures
            r@ == initial_election(node_id, election_timeout_ms),
    {
        let r = Self {
            node_id,
            current_term: 0,
            voted_for: None,
            role: NodeRole::Follower,
            votes_received: Vec::new(),
            election_timeout_ms,
            leader_id: None,
        };
        assert(r@.votes_received =~= Seq::<NodeId>::empty());
        r
    }

    /// Increment term, become candidate, vote for self.
    pub fn become_candidate(&mut self) -> (term: Term)
        requires
            old(self).current_term < u64::MAX,
        ensures
            final(self)@ == candidate_of(old(self)@),
            term == final(self).current_term,
            term == old(self).current_term + 1,
            final(self).role == NodeRole::Candidate,
            final(self).votes_received@ == seq![old(self).node_id],
            final(self).voted_for == Some(old(self).node_id),
            final(self).leader_id is None,
    {
        self.current_term = self.current_term + 1;
        self.role = NodeRole::Candidate;
        self.voted_for = Some(self.node_id);
        let mut votes: Vec<NodeId> = Vec::new();
        votes.push(self.node_id);
        self.votes_received = votes;
        self.leader_id = None;
        assert(self@.votes_received =~= seq![self.node_id]);
        self.current_term
    }

    /// Become leader (after winning election).
    pub fn become_leader(&mut self)
        ensures
            final(self)@ == leader_of(old(self)@),
    {
        self.role = NodeRole::Leader;
        self.leader_id = Some(self.node_id);
    }

    /// Step down to follower for a given term.
    pub fn step_down(&mut self, term: Term, leader_id: Option<NodeId>)
        ensures
            final(self)@ == stepped_down(old(self)@, term, leader_id),
            final(self).current_term >= old(self).current_term,
    {
        if term > self.current_term {
            self.current_term = term;
        }
        self.role = NodeRole::Follower;
        self.voted_for = None;
        self.votes_received.clear();
        self.leader_id = leader_id;
        assert(self@.votes_received =~= Seq::<NodeId>::empty());
    }

    /// Record a vote received from another node.
    pub fn receive_vote(&mut self, from: NodeId)
        ensures
            final(self)@ == with_vote(old(self)@, from),
            old(self).votes_received@.no_duplicates()
                ==> final(self).votes_received@.no_duplicates(),
    {
        if self.role == NodeRole::Candidate {
            let mut seen = false;
            let mut i: usize = 0;
            while i < self.votes_received.len()
                invariant
                    i <= self.votes_received@.len(),
                    seen == exists|k: int| 0 <= k < i && self.votes_received@[k] == from,
                decreases self.votes_received@.len() - i,
            {
                if self.votes_received[i] == from {
                    seen = true;
                }
                i = i + 1;
            }
            if !seen {
                self.votes_received.push(from);
                assert(forall|k: int| 0 <= k < old(self).votes_received@.len()
                    ==> old(self).votes_received@[k] != from);
            }
        }
    }

    /// Check if we have a majority of votes.
    pub fn has_majority(&self, cluster_size: usize) -> (r: bool)
        ensures
            r == (self.votes_received@.len() >= majority_of(cluster_size as int)),
    {
        let majority = cluster_size / 2 + 1;
        self.votes_received.len() >= majority
    }
}

/// Start a new election: increment term, become candidate, vote for self.
pub fn start_election(state: &mut ElectionState) -> (term: Term)
    requires
        old(state).current_term < u64::MAX,
    ensures
        final(state)@ == candidate_of(old(state)@),
        term == final(state).current_term,
        term == old(state).current_term + 1,
        final(state).role == NodeRole::Candidate,
        final(state).votes_received@ == seq![old(state).node_id],
        final(state).voted_for == Some(old(state).node_id),
        final(state).leader_id is None,
{
    state.become_candidate()
}

/// Process a vote request from a candidate. Returns true if vote is granted.
pub fn request_vote(state: &mut ElectionState, candidate_id: NodeId, candidate_term: Term) -> (granted: bool)
    ensures
        (final(state)@, granted) == vote_outcome(old(state)@, candidate_id, candidate_term),
        final(state).current_term >= old(state).current_term,
        granted ==> final(state).current_term == candidate_term
            && final(state).voted_for == Some(candidate_id),
        granted == (candidate_term >= old(state).current_term && (candidate_term
            > old(state).current_term || old(state).voted_for is None || old(state).voted_for
            == Some(candidate_id))),
        candidate_term < old(state).current_term ==> final(state)@ == old(state)@,
        candidate_term > old(state).current_term ==> {
            &&& final(state).current_term == candidate_term
            &&& final(state).role == NodeRole::Follower
            &&& final(state).votes_received@.len() == 0
            &&& final(state).leader_id is None
        },
        candidate_term == old(state).current_term ==> {
            &&& final(state).current_term == old(state).current_term
            &&& final(state).role == old(state).role
            &&& final(state).votes_received@ == old(state).votes_received@
            &&& final(state).leader_id == old(state).leader_id
        },
        !granted ==> final(state).voted_for == old(state).voted_for,
{
    if candidate_term < state.current_term {
        return false;
    }
    if candidate_term > state.current_term {
        state.step_down(candidate_term, None);
    }
    // Can vote if we haven't voted yet, or already voted for this candidate
    let can_vote = match state.voted_for {
        None => true,
        Some(v) => v == candidate_id,
    };
    if can_vote {
        state.voted_for = Some(candidate_id);
        return true;
    }
    false
}

/// Process an append entries (heartbeat) from a leader.
pub fn receive_heartbeat(state: &mut ElectionState, leader_id: NodeId, leader_term: Term) -> (accepted: bool)
    ensures
        (final(state)@, accepted) == heartbeat_outcome(old(state)@, leader_id, leader_term),
        final(state).current_term >= old(state).current_term,
        accepted ==> final(state).current_term == leader_term
            && final(state).role == NodeRole::Follower
            && final(state).leader_id == Some(leader_id),
        accepted == (leader_term >= old(state).current_term),
        accepted ==> final(state).voted_for is None && final(state).votes_received@.len() == 0,
        !accepted ==> final(state)@ == old(state)@,
{
    if leader_term < state.current_term {
        return false;
    }
    state.step_down(leader_term, Some(leader_id));
    true
}

} // verus!
