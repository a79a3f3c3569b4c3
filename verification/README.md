# ant_node

The decisions of a storage node that replicates chunks and audits its peers, written in Rust and
proved with Verus.

A node commits to the chunks that it stores by a signed Merkle root and publishes the commitment to
its neighbours. A neighbour that takes it in may audit the node: a random nonce selects a branch of
the committed tree, the node proves the branch, and then serves the bytes of a few of its leaves.

- `src/` is the library. Verus checks every function in it against its contract, but for those that
  call another crate (see below).
  - `replication::commitment`, `merkle`, `subtree`, `slice`: trees, branches and openings of blocks.
  - `replication::commitment_state`, `rotation`: what a node stays answerable for.
  - `replication::audit`, `responder`, `commitment_audit`: both sides of an audit.
  - `replication::accounting`, `settlement`, `recent_provers`: what follows from audits.
  - `replication::gossip`, `sync`, `bootstrap`, `verification`, `fetch`, `offers`, `routing`: what a
    node does with what its neighbours tell it.
  - `replication::config`, `events`, `protocol`, `types`: settings, records and messages.
  - `adversary`: misbehaviour that a node can be told to show on a test network.
- `tests/` runs the library on concrete values.
- `app/` is the node around the library: clock, environment, wire format, event log and network.

An honest proof is accepted, and an accepted proof is about what was committed to. The second holds
as far as BLAKE3 has no collisions, which nobody can prove; so the theorems name two byte strings
that were digested, and say that the proof is about what was committed to unless these two are
different and have one digest.

Hashes, signatures, Bao slices, hexadecimal text, random draws and the encoding of commitments come
from other crates. What the proofs take for granted of them stands in the contracts of the functions
marked `external_body`.
