//! Min-shingle hashing: a fixed-size fingerprint of a token sequence that
//! estimates how much two documents resemble each other.
//!
//! Every window of `L` contiguous tokens (a shingle) is hashed under `N`
//! seeded hash functions, and the fingerprint keeps, per seed, the smallest
//! digest seen. Two fingerprints are compared by counting the seeds on which
//! their minima agree.

pub mod hasher;
pub mod shingles;
