//! Replicated log: entries, storage, consistency checks.

use vstd::prelude::*;

verus! {

/// Position of an entry in the log; the first entry has index 1.
pub type LogIndex = u64;

/// Term in which an entry was created.
pub type LogTerm = u64;

/// A single log entry in the Raft log.
#[derive(Debug, Clone, PartialEq, Eq)]
pub struct LogEntry {
    pub index: LogIndex,
    pub term: LogTerm,
    pub command: Vec<u8>,
}

/// The mathematical value of a log entry.
pub struct EntryView {
    pub index: LogIndex,
    pub term: LogTerm,
    pub command: Seq<u8>,
}

impl View for LogEntry {
    type V = EntryView;

    open spec fn view(&self) -> EntryView {
        EntryView { index: self.index, term: self.term, command: self.command@ }
    }
}

/// Every entry carries its own 1-based position as its index.
pub open spec fn indexed(s: Seq<EntryView>) -> bool {
    forall|i: int| 0 <= i < s.len() ==> #[trigger] s[i].index == i + 1
}

/// The entry that `get` finds at a 1-based index.
pub open spec fn entry_at(s: Seq<EntryView>, index: int) -> Option<EntryView> {
    if 1 <= index <= s.len() {
        Some(s[index - 1])
    } else {
        None
    }
}

/// The log after appending a command in a term.
pub open spec fn appended(s: Seq<EntryView>, term: LogTerm, command: Seq<u8>) -> Seq<EntryView> {
    s.push(EntryView { index: (s.len() + 1) as u64, term, command })
}

/// The log after dropping every entry from 1-based `index` onwards.
pub open spec fn truncated(s: Seq<EntryView>, index: int) -> Seq<EntryView> {
    if index <= 0 {
        Seq::empty()
    } else if index - 1 <= s.len() {
        s.subrange(0, index - 1)
    } else {
        s
    }
}

/// Term of the last entry, 0 for an empty log.
pub open spec fn last_term_of(s: Seq<EntryView>) -> LogTerm {
    if s.len() == 0 {
        0
    } else {
        s.last().term
    }
}

/// A log whose last entry is (`my_term`, `my_index`) is no more up to date
/// than one whose last entry is (`other_term`, `other_index`): terms are
/// compared first, then indices.
pub open spec fn at_most_as_up_to_date(
    my_index: int,
    my_term: int,
    other_index: int,
    other_term: int,
) -> bool {
    my_term < other_term || (my_term == other_term && my_index <= other_index)
}

/// The log agrees with a leader that the entry at `prev_index` was written in `prev_term`.
pub open spec fn consistent_with(s: Seq<EntryView>, prev_index: int, prev_term: LogTerm) -> bool {
    prev_index == 0 || (1 <= prev_index <= s.len() && s[prev_index - 1].term == prev_term)
}

/// The consistency check compares terms exactly: index 0 always agrees; an
/// index inside the log agrees exactly when the entry there has that term
/// (a higher or lower term disagrees); an index past the end never agrees.
pub proof fn lemma_consistency_check(s: Seq<EntryView>, prev_index: int, prev_term: LogTerm)
    ensures
        prev_index == 0 ==> consistent_with(s, prev_index, prev_term),
        1 <= prev_index <= s.len() ==> (consistent_with(s, prev_index, prev_term) <==> s[prev_index
            - 1].term == prev_term),
        1 <= prev_index <= s.len() && s[prev_index - 1].term != prev_term ==> !consistent_with(
            s,
            prev_index,
            prev_term,
        ),
        (prev_index < 0 || prev_index > s.len()) ==> !consistent_with(s, prev_index, prev_term),
{
}

/// Bounds of the 0-based half-open slice that `get_range(start, end)` copies.
pub open spec fn range_lo(start: int) -> int {
    if start >= 1 { start - 1 } else { 0 }
}

pub open spec fn range_hi(s: Seq<EntryView>, end: int) -> int {
    if end <= s.len() { end } else { s.len() as int }
}

/// The entries that `get_range(start, end)` returns: those whose 1-based
/// index lies in `[start, end]`.
pub open spec fn entries_in_range(s: Seq<EntryView>, start: int, end: int) -> Seq<EntryView> {
    let lo = range_lo(start);
    let hi = range_hi(s, end);
    if lo >= hi {
        Seq::empty()
    } else {
        s.subrange(lo, hi)
    }
}

/// Reading back what was appended: after appending a command in a term,
/// the new last index holds exactly that entry, and every earlier index still
/// holds what it held before.
pub proof fn lemma_append_then_get(s: Seq<EntryView>, term: LogTerm, command: Seq<u8>, index: int)
    requires
        s.len() < u64::MAX,
    ensures
        entry_at(appended(s, term, command), s.len() + 1int) == Some(
            EntryView { index: (s.len() + 1) as u64, term, command },
        ),
        index != s.len() + 1 ==> entry_at(appended(s, term, command), index) == entry_at(s, index),
        indexed(s) ==> indexed(appended(s, term, command)),
{
}

/// Truncating from index `k` keeps every entry below `k` and removes every
/// entry at or above it.
pub proof fn lemma_truncate_then_get(s: Seq<EntryView>, k: int, index: int)
    ensures
        index < k ==> entry_at(truncated(s, k), index) == entry_at(s, index),
        index >= k ==> entry_at(truncated(s, k), index) is None,
        indexed(s) ==> indexed(truncated(s, k)),
{
}

/// Up-to-dateness is a total preorder: every log is as up to date as itself,
/// the comparison is transitive, and of any two logs one is at least as up
/// to date as the other.
pub proof fn lemma_up_to_date_total_preorder(
    i1: int,
    t1: int,
    i2: int,
    t2: int,
    i3: int,
    t3: int,
)
    ensures
        at_most_as_up_to_date(i1, t1, i1, t1),
        at_most_as_up_to_date(i1, t1, i2, t2) && at_most_as_up_to_date(i2, t2, i3, t3)
            ==> at_most_as_up_to_date(i1, t1, i3, t3),
        at_most_as_up_to_date(i1, t1, i2, t2) || at_most_as_up_to_date(i2, t2, i1, t1),
{
}

/// A log agrees with its own last entry, and every log agrees on index 0.
pub proof fn lemma_consistent_with_own_tail(s: Seq<EntryView>, term: LogTerm)
    ensures
        consistent_with(s, s.len() as int, last_term_of(s)),
        consistent_with(s, 0, term),
{
}

/// The range from the first to the last index is the whole log.
pub proof fn lemma_full_range(s: Seq<EntryView>)
    ensures
        entries_in_range(s, 1, s.len() as int) == s,
{
    if s.len() > 0 {
        assert(s.subrange(0, s.len() as int) =~= s);
    }
}

/// One change to a log: an append of a command in a term, or a truncation
/// from an index onwards.
pub enum LogOp {
    Append(LogTerm, Seq<u8>),
    TruncateFrom(LogIndex),
}

/// The log after one change.
pub open spec fn apply_op(s: Seq<EntryView>, op: LogOp) -> Seq<EntryView> {
    match op {
        LogOp::Append(term, command) => appended(s, term, command),
        LogOp::TruncateFrom(index) => truncated(s, index as int),
    }
}

/// The log that a history of changes builds from an empty log.
pub open spec fn replay(ops: Seq<LogOp>) -> Seq<EntryView>
    decreases ops.len(),
{
    if ops.len() == 0 {
        Seq::empty()
    } else {
        apply_op(replay(ops.drop_last()), ops.last())
    }
}

/// Step `j` of the history is an append that wrote 1-based position `index`.
pub open spec fn wrote_position(ops: Seq<LogOp>, j: int, index: int) -> bool {
    ops[j] is Append && replay(ops.take(j)).len() + 1 == index
}

/// Step `op` removes 1-based position `index` from the log.
pub open spec fn removes_position(op: LogOp, index: int) -> bool {
    op matches LogOp::TruncateFrom(k) && k <= index
}

/// After any history of appends and truncations (each append made while the
/// log is below the length limit), the log stays numbered 1, 2, 3, ...; a
/// position is present exactly when it lies within the log; and the entry at
/// a present position is the one written by an append to that position that
/// no later truncation removed.
pub proof fn lemma_history_get(ops: Seq<LogOp>, index: int)
    requires
        forall|j: int|
            0 <= j < ops.len() && ops[j] is Append ==> #[trigger] replay(ops.take(j)).len()
                < u64::MAX,
    ensures
        indexed(replay(ops)),
        (entry_at(replay(ops), index) is Some) == (1 <= index <= replay(ops).len()),
        entry_at(replay(ops), index) matches Some(e) ==> {
            &&& e.index == index
            &&& exists|j: int|
                0 <= j < ops.len() && #[trigger] wrote_position(ops, j, index) && ops[j]
                    == LogOp::Append(e.term, e.command) && forall|k: int|
                    j < k < ops.len() ==> !removes_position(#[trigger] ops[k], index)
        },
    decreases ops.len(),
{
    if ops.len() > 0 {
        let pre = ops.drop_last();
        let last = ops.last();
        let n = ops.len() - 1;
        assert forall|j: int| 0 <= j < pre.len() && pre[j] is Append implies #[trigger] replay(
            pre.take(j),
        ).len() < u64::MAX by {
            assert(pre.take(j) =~= ops.take(j));
            assert(ops[j] is Append);
        }
        lemma_history_get(pre, index);
        assert(ops.take(n) =~= pre);
        let s = replay(pre);
        if let Some(e) = entry_at(replay(ops), index) {
            let old_entry = entry_at(s, index);
            let fresh = match last {
                LogOp::Append(_, _) => index == s.len() + 1,
                LogOp::TruncateFrom(_) => false,
            };
            if fresh {
                assert(replay(ops.take(n)).len() < u64::MAX);
                assert(wrote_position(ops, n, index));
            } else {
                assert(old_entry == Some(e));
                let j = choose|j: int|
                    0 <= j < pre.len() && #[trigger] wrote_position(pre, j, index) && pre[j]
                        == LogOp::Append(e.term, e.command) && forall|k: int|
                        j < k < pre.len() ==> !removes_position(#[trigger] pre[k], index);
                assert(pre.take(j) =~= ops.take(j));
                assert(wrote_position(ops, j, index));
                assert forall|k: int| j < k < ops.len() implies !removes_position(
                    #[trigger] ops[k],
                    index,
                ) by {
                    if k < n {
                        assert(ops[k] == pre[k]);
                    }
                }
            }
        }
        match last {
            LogOp::Append(t, c) => {
                assert(replay(ops.take(n)).len() < u64::MAX);
            },
            LogOp::TruncateFrom(k) => {},
        }
    }
}

/// In-memory log store for Raft.
#[derive(Debug, Clone)]
pub struct LogStore {
    entries: Vec<LogEntry>,
}

impl View for LogStore {
    type V = Seq<EntryView>;

    closed spec fn view(&self) -> Seq<EntryView> {
        self.entries@.map_values(|e: LogEntry| e@)
    }
}

impl LogStore {
    /// Every store that this module builds keeps its entries numbered 1, 2, 3, ...
    pub open spec fn well_formed(&self) -> bool {
        indexed(self@)
    }

    pub fn new() -> (r: Self)
        ensures
            r@ == Seq::<EntryView>::empty(),
            r.well_formed(),
    {
        let r = Self { entries: Vec::new() };
        assert(r@ =~= Seq::<EntryView>::empty());
        r
    }

    /// Append an entry to the log; returns its index.
    pub fn append(&mut self, term: LogTerm, command: Vec<u8>) -> (index: LogIndex)
        requires
            old(self)@.len() < u64::MAX,
        ensures
            index == old(self)@.len() + 1,
            final(self)@ == appended(old(self)@, term, command@),
            old(self).well_formed() ==> final(self).well_formed(),
    {
        let index = self.entries.len() as LogIndex + 1;
        let ghost cmd = command@;
        self.entries.push(LogEntry { index, term, command });
        assert(self@ =~= appended(old(self)@, term, cmd));
        index
    }

    /// Get entry at 1-based index.
    pub fn get(&self, index: LogIndex) -> (r: Option<&LogEntry>)
        ensures
            match r {
                Some(e) => entry_at(self@, index as int) == Some(e@),
                None => entry_at(self@, index as int) is None,
            },
            self.well_formed() ==> (r matches Some(e) ==> e.index == index),
    {
        if index == 0 || index > self.entries.len() as u64 {
            return None;
        }
        let e = &self.entries[(index - 1) as usize];
        assert(self@[index - 1] == e@);
        assert(self.well_formed() ==> self@[index - 1].index == index);
        Some(e)
    }

    /// Get the last log index.
    pub fn last_index(&self) -> (r: LogIndex)
        ensures
            r == self@.len(),
    {
        self.entries.len() as LogIndex
    }

    /// Get the term of the last entry (0 if empty).
    pub fn last_term(&self) -> (r: LogTerm)
        ensures
            r == last_term_of(self@),
    {
        let n = self.entries.len();
        if n == 0 {
            0
        } else {
            self.entries[n - 1].term
        }
    }

    /// Truncate log from index onwards (for conflicting entries).
    pub fn truncate_from(&mut self, index: LogIndex)
        ensures
            final(self)@ == truncated(old(self)@, index as int),
            old(self).well_formed() ==> final(self).well_formed(),
    {
        if index == 0 {
            self.entries.clear();
        } else if index - 1 <= self.entries.len() as u64 {
            self.entries.truncate((index - 1) as usize);
        }
        assert(self@ =~= truncated(old(self)@, index as int));
    }

    /// Whether another log, whose last entry is (`last_index`, `last_term`),
    /// is at least as up to date as this one (for vote granting). Terms of
    /// the last entries are compared first; on equal terms, the longer log is
    /// the more up to date.
    pub fn is_up_to_date(&self, last_index: LogIndex, last_term: LogTerm) -> (r: bool)
        ensures
            r == at_most_as_up_to_date(
                self@.len() as int,
                last_term_of(self@) as int,
                last_index as int,
                last_term as int,
            ),
    {
        if self.last_term() != last_term {
            self.last_term() <= last_term
        } else {
            self.last_index() <= last_index
        }
    }

    /// Get entries in range [start, end] inclusive (1-based).
    pub fn get_range(&self, start: LogIndex, end: LogIndex) -> (r: Vec<LogEntry>)
        ensures
            r@.map_values(|e: LogEntry| e@) == entries_in_range(self@, start as int, end as int),
    {
        let s: u64 = if start >= 1 { start - 1 } else { 0 };
        let n = self.entries.len();
        let e: usize = if end < n as u64 { end as usize } else { n };
        let mut out: Vec<LogEntry> = Vec::new();
        if s >= e as u64 {
            assert(out@.map_values(|e: LogEntry| e@) =~= entries_in_range(self@, start as int, end as int));
            return out;
        }
        let mut i: usize = s as usize;
        while i < e
            invariant
                s <= i <= e <= n,
                n == self.entries@.len(),
                out@.len() == i - s,
                forall|k: int| 0 <= k < out@.len() ==> #[trigger] out@[k]@ == self.entries@[s + k]@,
            decreases e - i,
        {
            let src = &self.entries[i];
            let command = src.command.clone();
            assert(command@ =~= src.command@);
            out.push(LogEntry { index: src.index, term: src.term, command });
            i = i + 1;
        }
        assert(out@.map_values(|e: LogEntry| e@) =~= entries_in_range(self@, start as int, end as int));
        out
    }

    /// Check consistency: verify entry at prev_index has prev_term.
    pub fn is_consistent(&self, prev_index: LogIndex, prev_term: LogTerm) -> (r: bool)
        ensures
            r == consistent_with(self@, prev_index as int, prev_term),
            prev_index == 0 ==> r,
            1 <= prev_index <= self@.len() ==> (r == (self@[prev_index - 1].term == prev_term)),
            prev_index > self@.len() ==> !r,
    {
        if prev_index == 0 {
            return true;
        }
        match self.get(prev_index) {
            Some(e) => e.term == prev_term,
            None => false,
        }
    }

    /// Number of entries in the log.
    pub fn len(&self) -> (r: usize)
        ensures
            r == self@.len(),
    {
        self.entries.len()
    }

    /// Is the log empty?
    pub fn is_empty(&self) -> (r: bool)
        ensures
            r == (self@.len() == 0),
    {
        self.entries.len() == 0
    }
}

impl Default for LogStore {
    fn default() -> (r: Self)
        ensures
            r@ == Seq::<EntryView>::empty(),
            r.well_formed(),
    {
        Self::new()
    }
}

} // verus!
