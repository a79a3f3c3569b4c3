//! Names and limits that a node shares with its clients and peers.

use vstd::prelude::*;

verus! {

/// The address of a chunk: the BLAKE3 digest of its content.
pub type XorName = [u8; 32];

/// Peers that are responsible for one address.
pub const CLOSE_GROUP_SIZE: usize = 7;

/// The largest chunk, in bytes.
pub const MAX_CHUNK_SIZE: usize = 4_194_304;

} // verus!
