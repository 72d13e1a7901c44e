//! Verified core of a STARK commitment layer: the evaluation domains of a proof and the hashing of
//! its Merkle trees.
//!
//! * [`domain`] builds the trace and LDE domains and tests membership in them; [`domain_laws`]
//!   states what holds of them as a whole and [`construction_laws`] which ones can be built.
//! * [`blake3_backend`] hashes Merkle tree leaves and levels, [`blake3_laws`] says what the nodes
//!   commit to, and [`chaining`] is the boundary to the `blake3` crate.
//! * [`field`] says what a field is; [`stark252`] is the one that the proofs use, described over
//!   plain integers in [`stark252_laws`].

pub mod binary;
pub mod blake3_backend;
pub mod blake3_laws;
pub mod chaining;
pub mod config;
pub mod construction_laws;
pub mod domain;
pub mod domain_laws;
pub mod field;
pub mod field_laws;
pub mod limbs;
pub mod merkle_backend;
pub mod modular;
pub mod powers;
pub mod roots_of_unity;
pub mod stark252;
pub mod stark252_laws;
pub mod stark252_prime;
