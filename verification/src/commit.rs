//! Commit tracking: commit index advancement, safety checks.

use vstd::prelude::*;

use crate::election::majority_of;
use crate::log::{entry_at, EntryView, LogStore};
use crate::state::Term;

verus! {

/// Tracks commit index across the cluster.
#[derive(Debug, Clone)]
pub struct CommitTracker {
    pub commit_index: u64,
    pub last_applied: u64,
}

/// How many servers report a match index of at least `n`.
pub open spec fn replicated_count(match_indices: Seq<u64>, n: int) -> nat
    decreases match_indices.len(),
{
    if match_indices.len() == 0 {
        0
    } else {
        replicated_count(match_indices.drop_last(), n) + if match_indices.last() >= n {
            1nat
        } else {
            0nat
        }
    }
}

/// Index `n` may be committed: a majority of the cluster stores it, and the
/// entry there was written in the current term.
pub open spec fn committable(
    match_indices: Seq<u64>,
    cluster_size: usize,
    current_term: Term,
    log: Seq<EntryView>,
    n: int,
) -> bool {
    &&& replicated_count(match_indices, n) >= majority_of(cluster_size as int)
    &&& 1 <= n <= log.len()
    &&& log[n - 1].term == current_term
}

/// What `try_advance` does: if some index above the commit index is
/// committable, the commit index moves to the highest such index and the
/// result is true; otherwise nothing changes and the result is false.
pub open spec fn advance_outcome(
    pre: CommitTracker,
    post: CommitTracker,
    advanced: bool,
    match_indices: Seq<u64>,
    cluster_size: usize,
    current_term: Term,
    log: Seq<EntryView>,
) -> bool {
    &&& post.last_applied == pre.last_applied
    &&& advanced == exists|n: int|
        pre.commit_index < n && #[trigger] committable(
            match_indices,
            cluster_size,
            current_term,
            log,
            n,
        )
    &&& advanced ==> {
        &&& pre.commit_index < post.commit_index
        &&& committable(match_indices, cluster_size, current_term, log, post.commit_index as int)
        &&& forall|m: int|
            post.commit_index < m ==> !#[trigger] committable(
                match_indices,
                cluster_size,
                current_term,
                log,
                m,
            )
    }
    &&& !advanced ==> post.commit_index == pre.commit_index
}

/// The commands of the entries whose 1-based index lies in `(lo, hi]`.
pub open spec fn commands_between(log: Seq<EntryView>, lo: int, hi: int) -> Seq<Seq<u8>> {
    let top = if hi <= log.len() { hi } else { log.len() as int };
    if lo >= top {
        Seq::empty()
    } else {
        log.subrange(lo, top).map_values(|e: EntryView| e.command)
    }
}

/// Applying hands out one command per log entry with index in `(lo, hi]`
/// that the log holds, in log order: the k-th is the command of entry
/// `lo + k + 1`, whatever that command is (an empty one included).
pub proof fn lemma_commands_between(log: Seq<EntryView>, lo: int, hi: int)
    requires
        0 <= lo,
    ensures
        commands_between(log, lo, hi).len() == (if lo < hi && lo < log.len() {
            (if hi <= log.len() { hi } else { log.len() as int }) - lo
        } else {
            0
        }),
        forall|k: int|
            0 <= k < commands_between(log, lo, hi).len() ==> #[trigger] commands_between(
                log,
                lo,
                hi,
            )[k] == log[lo + k].command,
{
}

/// The byte strings held by a vector of commands.
pub open spec fn command_views(v: Seq<Vec<u8>>) -> Seq<Seq<u8>> {
    v.map_values(|c: Vec<u8>| c@)
}

/// No server reports a match index at or above `n`.
proof fn lemma_count_zero_above(match_indices: Seq<u64>, n: int)
    requires
        forall|i: int| 0 <= i < match_indices.len() ==> match_indices[i] < n,
    ensures
        replicated_count(match_indices, n) == 0,
    decreases match_indices.len(),
{
    if match_indices.len() > 0 {
        lemma_count_zero_above(match_indices.drop_last(), n);
    }
}

/// Committed stays committed: advancing never lowers the commit index, and
/// whatever it commits is replicated on a majority and was written in the
/// current term.
pub proof fn lemma_commit_never_regresses(
    pre: CommitTracker,
    post: CommitTracker,
    advanced: bool,
    match_indices: Seq<u64>,
    cluster_size: usize,
    current_term: Term,
    log: Seq<EntryView>,
    index: int,
)
    requires
        advance_outcome(pre, post, advanced, match_indices, cluster_size, current_term, log),
    ensures
        pre.commit_index <= post.commit_index,
        index <= pre.commit_index ==> index <= post.commit_index,
        post.commit_index != pre.commit_index ==> {
            &&& replicated_count(match_indices, post.commit_index as int) >= majority_of(
                cluster_size as int,
            )
            &&& entry_at(log, post.commit_index as int) matches Some(e) && e.term == current_term
        },
{
}

/// Applying in steps hands out the same commands, in the same order, as
/// applying everything at once: each committed command is applied exactly once.
pub proof fn lemma_apply_in_steps(log: Seq<EntryView>, a: int, b: int, c: int)
    requires
        0 <= a <= b <= c,
    ensures
        commands_between(log, a, b) + commands_between(log, b, c) == commands_between(log, a, c),
        commands_between(log, c, c) == Seq::<Seq<u8>>::empty(),
{
    assert(commands_between(log, a, b) + commands_between(log, b, c) =~= commands_between(log, a, c));
}

impl CommitTracker {
    pub fn new() -> (r: Self)
        ensures
            r.commit_index == 0,
            r.last_applied == 0,
    {
        Self { commit_index: 0, last_applied: 0 }
    }

    /// Advance the commit index to the highest index stored on a majority of servers.
    pub fn try_advance(
        &mut self,
        match_indices: &[u64],
        cluster_size: usize,
        current_term: Term,
        log: &LogStore,
    ) -> (advanced: bool)
        ensures
            advance_outcome(
                *old(self),
                *final(self),
                advanced,
                match_indices@,
                cluster_size,
                current_term,
                log@,
            ),
    {
        let majority = cluster_size / 2 + 1;
        let ghost mi = match_indices@;

        // Highest match index reported (0 if none).
        let mut max_index: u64 = 0;
        let mut k: usize = 0;
        while k < match_indices.len()
            invariant
                k <= mi.len(),
                mi == match_indices@,
                forall|i: int| 0 <= i < k ==> mi[i] <= max_index,
            decreases mi.len() - k,
        {
            if match_indices[k] > max_index {
                max_index = match_indices[k];
            }
            k = k + 1;
        }
        proof {
            assert forall|m: int| max_index < m implies !#[trigger] committable(
                mi,
                cluster_size,
                current_term,
                log@,
                m,
            ) by {
                lemma_count_zero_above(mi, m);
            }
        }

        // Try indices from high to low.
        let mut n: u64 = max_index;
        while n > self.commit_index
            invariant
                mi == match_indices@,
                majority == majority_of(cluster_size as int),
                self.commit_index == old(self).commit_index,
                self.last_applied == old(self).last_applied,
                forall|m: int| n < m ==> !#[trigger] committable(
                    mi,
                    cluster_size,
                    current_term,
                    log@,
                    m,
                ),
            decreases n,
        {
            // Count how many servers have this index.
            let mut count: usize = 0;
            let mut j: usize = 0;
            while j < match_indices.len()
                invariant
                    j <= mi.len(),
                    mi == match_indices@,
                    count == replicated_count(mi.take(j as int), n as int),
                    count <= j,
                decreases mi.len() - j,
            {
                assert(mi.take(j as int) =~= mi.take(j + 1).drop_last());
                if match_indices[j] >= n {
                    count = count + 1;
                }
                j = j + 1;
            }
            assert(mi.take(mi.len() as int) =~= mi);
            if count >= majority {
                // Only commit entries from current term.
                if let Some(entry) = log.get(n) {
                    if entry.term == current_term {
                        assert(committable(mi, cluster_size, current_term, log@, n as int));
                        self.commit_index = n;
                        return true;
                    }
                }
            }
            n = n - 1;
        }
        false
    }

    /// Apply committed entries up to commit_index.
    pub fn apply_entries(&mut self, log: &LogStore) -> (applied: Vec<Vec<u8>>)
        ensures
            final(self).commit_index == old(self).commit_index,
            final(self).last_applied == if old(self).last_applied < old(self).commit_index {
                old(self).commit_index
            } else {
                old(self).last_applied
            },
            command_views(applied@) == commands_between(
                log@,
                old(self).last_applied as int,
                old(self).commit_index as int,
            ),
            applied@.len() == (if old(self).last_applied < old(self).commit_index
                && old(self).last_applied < log@.len() {
                (if old(self).commit_index <= log@.len() {
                    old(self).commit_index as int
                } else {
                    log@.len() as int
                }) - old(self).last_applied
            } else {
                0
            }),
            forall|k: int|
                0 <= k < applied@.len() ==> #[trigger] applied@[k]@ == log@[old(self).last_applied
                    + k].command,
    {
        let mut applied: Vec<Vec<u8>> = Vec::new();
        let ghost lo = self.last_applied as int;
        let ghost len = log@.len() as int;
        while self.last_applied < self.commit_index
            invariant
                self.commit_index == old(self).commit_index,
                lo == old(self).last_applied,
                len == log@.len(),
                lo <= self.last_applied,
                lo < self.last_applied ==> self.last_applied <= self.commit_index,
                command_views(applied@) == commands_between(log@, lo, self.last_applied as int),
            decreases self.commit_index - self.last_applied,
        {
            let ghost prev = self.last_applied as int;
            self.last_applied = self.last_applied + 1;
            if let Some(entry) = log.get(self.last_applied) {
                let command = entry.command.clone();
                assert(command@ =~= entry.command@);
                let ghost before = applied@;
                applied.push(command);
                assert(command_views(applied@) =~= command_views(before).push(entry.command@));
                assert(commands_between(log@, lo, self.last_applied as int) =~= commands_between(
                    log@,
                    lo,
                    prev,
                ).push(entry.command@));
            } else {
                assert(commands_between(log@, lo, self.last_applied as int) =~= commands_between(log@, lo, prev));
            }
        }
        proof {
            lemma_commands_between(log@, lo, self.commit_index as int);
            assert forall|k: int| 0 <= k < applied@.len() implies #[trigger] applied@[k]@
                == log@[lo + k].command by {
                assert(command_views(applied@)[k] == applied@[k]@);
            }
        }
        applied
    }

    /// Check if a read at the given index is linearizable (committed).
    pub fn is_committed(&self, index: u64) -> (r: bool)
        ensures
            r == (index <= self.commit_index),
    {
        index <= self.commit_index
    }
}

impl Default for CommitTracker {
    fn default() -> (r: Self)
        ensures
            r.commit_index == 0,
            r.last_applied == 0,
    {
        Self::new()
    }
}

/// Advance commit index on the leader based on follower match indices.
pub fn advance_commit_index(
    tracker: &mut CommitTracker,
    match_indices: &[u64],
    cluster_size: usize,
    current_term: Term,
    log: &LogStore,
) -> (advanced: bool)
    ensures
        advance_outcome(
            *old(tracker),
            *final(tracker),
            advanced,
            match_indices@,
            cluster_size,
            current_term,
            log@,
        ),
{
    tracker.try_advance(match_indices, cluster_size, current_term, log)
}

} // verus!
