//! The BLAKE3 configuration of STARK commitments.
//!
//! A Keccak-256 configuration, the usual default for compatibility with Stone, is not part of this
//! library, and neither is the Merkle tree type that the backends are for.

use vstd::prelude::*;
use crate::blake3_backend::{Blake3ElementBackend, Blake3VectorBackend};

verus! {

/// Merkle tree backend for FRI layers: a single field element per leaf.
pub type FriMerkleTreeBackend<F> = Blake3ElementBackend<F>;

/// Merkle tree backend for the trace and the composition polynomial: a row of field elements per
/// leaf.
pub type BatchedMerkleTreeBackend<F> = Blake3VectorBackend<F>;

/// Bytes of a commitment.
pub const COMMITMENT_SIZE: usize = 32;

/// The root of a Merkle tree.
pub type Commitment = [u8; COMMITMENT_SIZE];

} // verus!
