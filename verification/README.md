# consensus_raft

A Raft consensus core written in Verus: leader election, a replicated log,
commit tracking, joint-consensus membership changes, and the node state that
combines them. Every function carries a contract over a mathematical model
(sequences of entries, sets of members, election-state views), and the safety
properties of the protocol pieces are stated as proof functions:

- `log`: read-after-append, truncation keeps the prefix, after any history
  of appends and truncations each position holds what the append that
  created it wrote, up-to-dateness is a total preorder.
- `election`: one vote per term, terms never decrease, two majorities of one
  cluster share a voter.
- `commit`: the commit index never goes back and only commits current-term
  entries stored on a majority; applying in steps applies each command once.
- `membership`: quorum intersection, and any two joint majorities (each
  member counted once, however often it is listed) overlap in both the old
  and the new configuration.

Tests live in `tests/`.
