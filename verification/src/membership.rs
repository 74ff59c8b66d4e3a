//! Membership changes: joint consensus (C_old, C_new) transitions.

use std::collections::HashSet;

use vstd::prelude::*;

use crate::election::majority_of;

verus! {

broadcast use vstd::std_specs::hash::group_hash_axioms;

/// Cluster membership configuration.
#[derive(Debug)]
pub struct MembershipConfig {
    pub nodes: HashSet<u64>,
    pub version: u64,
}

/// Phase of a membership transition.
#[derive(Debug, Clone, Copy, PartialEq, Eq, Structural)]
pub enum ConsensusPhase {
    /// Only C_old is active
    OldOnly,
    /// Both C_old and C_new must agree (joint consensus)
    Joint,
    /// Transition complete, only C_new is active
    NewOnly,
}

/// Joint consensus state for membership transitions.
#[derive(Debug)]
pub struct JointConsensus {
    pub old_config: MembershipConfig,
    pub new_config: MembershipConfig,
    pub phase: ConsensusPhase,
}

/// The members of a configuration among the listed voters; a voter listed
/// more than once is still one voter.
pub open spec fn member_voters(votes: Seq<u64>, members: Set<u64>) -> Set<u64> {
    votes.to_set().intersect(members)
}

/// The listed voters include a majority of the members.
pub open spec fn majority_vote(votes: Seq<u64>, members: Set<u64>) -> bool {
    member_voters(votes, members).len() >= majority_of(members.len() as int)
}

/// Listing one more voter adds that voter to the set of voters.
proof fn lemma_push_to_set(s: Seq<u64>, x: u64)
    ensures
        s.push(x).to_set() == s.to_set().insert(x),
{
    let after = s.push(x);
    assert forall|a: u64| #[trigger] after.to_set().contains(a) == s.to_set().insert(x).contains(
        a,
    ) by {
        if s.contains(a) {
            let k = choose|k: int| 0 <= k < s.len() && s[k] == a;
            assert(after[k] == a);
        }
        if a == x {
            assert(after[s.len() as int] == a);
        }
        if after.contains(a) {
            let k = choose|k: int| 0 <= k < after.len() && after[k] == a;
            if k < s.len() {
                assert(s[k] == a);
            }
        }
    }
    assert(after.to_set() =~= s.to_set().insert(x));
}

/// Quorum intersection: two groups of members that are each a majority of
/// the same finite configuration have a member in common.
pub proof fn lemma_majorities_intersect(members: Set<u64>, a: Set<u64>, b: Set<u64>)
    requires
        members.finite(),
        a.subset_of(members),
        b.subset_of(members),
        a.len() >= majority_of(members.len() as int),
        b.len() >= majority_of(members.len() as int),
    ensures
        exists|x: u64| a.contains(x) && b.contains(x),
{
    vstd::set_lib::lemma_len_subset(a, members);
    vstd::set_lib::lemma_len_subset(b, members);
    vstd::set_lib::lemma_set_intersect_union_lens(a, b);
    assert((a + b).subset_of(members));
    vstd::set_lib::lemma_len_subset(a + b, members);
    if !(exists|x: u64| a.contains(x) && b.contains(x)) {
        assert(a.intersect(b) =~= Set::<u64>::empty());
    }
}

/// Two vote lists that both reach a majority of the same finite
/// configuration share a member who voted in both.
pub proof fn lemma_majority_votes_overlap(members: Set<u64>, votes_a: Seq<u64>, votes_b: Seq<u64>)
    requires
        members.finite(),
        majority_vote(votes_a, members),
        majority_vote(votes_b, members),
    ensures
        exists|x: u64| members.contains(x) && votes_a.contains(x) && votes_b.contains(x),
{
    let a = member_voters(votes_a, members);
    let b = member_voters(votes_b, members);
    lemma_majorities_intersect(members, a, b);
    let x = choose|x: u64| a.contains(x) && b.contains(x);
    assert(members.contains(x) && votes_a.contains(x) && votes_b.contains(x));
}

/// During a membership change, any two joint majorities overlap in the old
/// configuration and in the new one, so no two disjoint groups can both
/// decide.
pub proof fn lemma_joint_majorities_overlap(
    jc: JointConsensus,
    old_a: Seq<u64>,
    new_a: Seq<u64>,
    old_b: Seq<u64>,
    new_b: Seq<u64>,
)
    requires
        jc.old_config.nodes@.finite(),
        jc.new_config.nodes@.finite(),
        majority_vote(old_a, jc.old_config.nodes@) && majority_vote(new_a, jc.new_config.nodes@),
        majority_vote(old_b, jc.old_config.nodes@) && majority_vote(new_b, jc.new_config.nodes@),
    ensures
        exists|x: u64| jc.old_config.nodes@.contains(x) && old_a.contains(x) && old_b.contains(x),
        exists|y: u64| jc.new_config.nodes@.contains(y) && new_a.contains(y) && new_b.contains(y),
{
    lemma_majority_votes_overlap(jc.old_config.nodes@, old_a, old_b);
    lemma_majority_votes_overlap(jc.new_config.nodes@, new_a, new_b);
}

impl MembershipConfig {
    pub fn new(nodes: Vec<u64>) -> (r: Self)
        ensures
            r.nodes@ == nodes@.to_set(),
            r.version == 0,
    {
        let mut set: HashSet<u64> = HashSet::new();
        let mut i: usize = 0;
        while i < nodes.len()
            invariant
                i <= nodes@.len(),
                set@ == nodes@.take(i as int).to_set(),
            decreases nodes@.len() - i,
        {
            set.insert(nodes[i]);
            proof {
                assert(nodes@.take(i + 1) =~= nodes@.take(i as int).push(nodes@[i as int]));
                lemma_push_to_set(nodes@.take(i as int), nodes@[i as int]);
            }
            i = i + 1;
        }
        assert(nodes@.take(nodes@.len() as int) =~= nodes@);
        Self { nodes: set, version: 0 }
    }

    pub fn contains(&self, node_id: u64) -> (r: bool)
        ensures
            r == self.nodes@.contains(node_id),
    {
        self.nodes.contains(&node_id)
    }

    pub fn size(&self) -> (r: usize)
        ensures
            r == self.nodes@.len(),
    {
        self.nodes.len()
    }

    pub fn majority(&self) -> (r: usize)
        ensures
            r == majority_of(self.nodes@.len() as int),
    {
        self.size() / 2 + 1
    }

    /// Count the members of this configuration among the listed voters,
    /// each member once however often it is listed.
    fn count_member_voters(&self, votes: &[u64]) -> (r: usize)
        ensures
            r == member_voters(votes@, self.nodes@).len(),
    {
        broadcast use vstd::seq_lib::seq_to_set_is_finite;

        let mut count: usize = 0;
        let mut i: usize = 0;
        assert(member_voters(votes@.take(0), self.nodes@) =~= Set::<u64>::empty());
        while i < votes.len()
            invariant
                i <= votes@.len(),
                count == member_voters(votes@.take(i as int), self.nodes@).len(),
                count <= i,
            decreases votes@.len() - i,
        {
            let v = votes[i];
            let mut seen = false;
            let mut j: usize = 0;
            while j < i
                invariant
                    j <= i < votes@.len(),
                    v == votes@[i as int],
                    seen == exists|k: int| 0 <= k < j && votes@[k] == v,
                decreases i - j,
            {
                if votes[j] == v {
                    seen = true;
                }
                j = j + 1;
            }
            proof {
                let before = votes@.take(i as int);
                assert(votes@.take(i + 1) =~= before.push(v));
                lemma_push_to_set(before, v);
                let voters = member_voters(before, self.nodes@);
                if seen {
                    let k = choose|k: int| 0 <= k < i && votes@[k] == v;
                    assert(before[k] == v);
                    assert(member_voters(votes@.take(i + 1), self.nodes@) =~= voters);
                } else {
                    assert(!before.to_set().contains(v)) by {
                        if before.contains(v) {
                            let k = choose|k: int| 0 <= k < before.len() && before[k] == v;
                            assert(votes@[k] == v);
                        }
                    }
                    if self.nodes@.contains(v) {
                        assert(member_voters(votes@.take(i + 1), self.nodes@) =~= voters.insert(v));
                    } else {
                        assert(member_voters(votes@.take(i + 1), self.nodes@) =~= voters);
                    }
                }
            }
            if !seen && self.contains(v) {
                count = count + 1;
            }
            i = i + 1;
        }
        assert(votes@.take(votes@.len() as int) =~= votes@);
        count
    }
}

impl Clone for MembershipConfig {
    /// A copy with the same members and version.
    fn clone(&self) -> (r: Self)
        ensures
            r.nodes@ == self.nodes@,
            r.version == self.version,
    {
        let mut nodes: HashSet<u64> = HashSet::new();
        let ghost keys = vstd::std_specs::iter::IteratorSpec::remaining(
            &vstd::std_specs::hash::spec_hash_keys_iter(&self.nodes),
        );
        for x in it: self.nodes.iter()
            invariant
                it.seq() == keys,
                forall|k: u64|
                    nodes@.contains(k) <==> exists|j: int|
                        0 <= j < it.index() && *#[trigger] keys[j] == k,
        {
            nodes.insert(*x);
        }
        proof {
            assert forall|k: u64| nodes@.contains(k) == self.nodes@.contains(k) by {
                assert(keys.unref().to_set() == self.nodes@);
                if self.nodes@.contains(k) {
                    assert(keys.unref().contains(k));
                    let j = choose|j: int| 0 <= j < keys.unref().len() && keys.unref()[j] == k;
                    assert(*keys[j] == k);
                }
                if nodes@.contains(k) {
                    let j = choose|j: int| 0 <= j < keys.len() && *#[trigger] keys[j] == k;
                    assert(keys.unref()[j] == k);
                }
            }
            assert(nodes@ =~= self.nodes@);
        }
        Self { nodes, version: self.version }
    }
}

impl Clone for JointConsensus {
    /// A copy with the same configurations and phase.
    fn clone(&self) -> (r: Self)
        ensures
            r.old_config.nodes@ == self.old_config.nodes@,
            r.old_config.version == self.old_config.version,
            r.new_config.nodes@ == self.new_config.nodes@,
            r.new_config.version == self.new_config.version,
            r.phase == self.phase,
    {
        Self {
            old_config: self.old_config.clone(),
            new_config: self.new_config.clone(),
            phase: self.phase,
        }
    }
}

impl JointConsensus {
    pub fn new(old_config: MembershipConfig, new_config: MembershipConfig) -> (r: Self)
        ensures
            r.old_config == old_config,
            r.new_config == new_config,
            r.phase == ConsensusPhase::OldOnly,
    {
        Self { old_config, new_config, phase: ConsensusPhase::OldOnly }
    }

    /// Enter joint consensus phase.
    pub fn enter_joint(&mut self)
        ensures
            final(self).phase == ConsensusPhase::Joint,
            final(self).old_config == old(self).old_config,
            final(self).new_config == old(self).new_config,
    {
        self.phase = ConsensusPhase::Joint;
    }

    /// Complete transition to new config.
    pub fn complete(&mut self)
        ensures
            final(self).phase == ConsensusPhase::NewOnly,
            final(self).old_config == old(self).old_config,
            final(self).new_config == old(self).new_config,
    {
        self.phase = ConsensusPhase::NewOnly;
    }

    /// Check if a majority in both configs agree (during joint phase).
    pub fn is_joint_majority(&self, old_votes: &[u64], new_votes: &[u64]) -> (r: bool)
        ensures
            r == (majority_vote(old_votes@, self.old_config.nodes@) && majority_vote(
                new_votes@,
                self.new_config.nodes@,
            )),
    {
        let old_count = self.old_config.count_member_voters(old_votes);
        let new_count = self.new_config.count_member_voters(new_votes);
        old_count >= self.old_config.majority() && new_count >= self.new_config.majority()
    }

    /// Get the effective configuration based on phase.
    pub fn effective_config(&self) -> (r: &MembershipConfig)
        ensures
            r == (if self.phase == ConsensusPhase::NewOnly {
                &self.new_config
            } else {
                &self.old_config
            }),
    {
        match self.phase {
            ConsensusPhase::NewOnly => &self.new_config,
            _ => &self.old_config,
        }
    }
}

} // verus!
