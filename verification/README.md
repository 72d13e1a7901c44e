# stark_commit

The commitment layer of a STARK prover, verified with Verus: the evaluation domains of a proof and
the BLAKE3 hashing of its Merkle trees.

* `src/domain.rs` builds the trace domain and the LDE coset, materialised for the prover and lazy
  for the verifier, tests membership by exponentiation and picks the out-of-domain point. Sizes
  that are not powers of two are refused. `src/domain_laws.rs` proves that the membership tests
  accept exactly the points of the domains.
* `src/blake3_backend.rs` hashes leaves and levels in batches and promises, node by node, what the
  scalar definitions give. `src/chaining.rs` holds everything that is taken for granted about the
  `blake3` crate.
* `src/field.rs` says what a field is. `src/stark252.rs` implements the STARK field in Montgomery
  form, with its primality and its root of unity proved in `src/stark252_prime.rs`.
* `app/` spreads the hashing over threads and draws from a transcript.
