//! Seeded hash functions: a family of byte hashers selected by a 32-bit seed.

use vstd::prelude::*;

verus! {

/// The MurmurHash3 x86 32-bit digest of `bytes` under `seed`.
pub uninterp spec fn murmur3_x86_32(bytes: Seq<u8>, seed: u32) -> u32;

/// Relies on `murmurhash3::murmurhash3_x86_32`: a pure function of the bytes
/// and the seed (its 4-byte blocks are read in the machine's byte order, so
/// digests are those of little-endian targets), which never panics.
#[verifier::external_body]
fn murmur3_digest(bytes: &[u8], seed: u32) -> (r: u32)
    ensures
        r == murmur3_x86_32(bytes@, seed),
{
    murmurhash3::murmurhash3_x86_32(bytes, seed)
}

/// A hash function chosen from a family by a seed: bytes are absorbed by
/// successive `write` calls, and `finish` turns everything absorbed so far
/// into a digest that depends on the seed and those bytes alone.
pub trait SeedHasher: Sized {
    /// The seed this hasher was created with.
    spec fn seed(&self) -> u32;

    /// The bytes absorbed so far, in order.
    spec fn absorbed(&self) -> Seq<u8>;

    /// The digest of `bytes` under `seed` in this family.
    spec fn digest(seed: u32, bytes: Seq<u8>) -> u64;

    /// Creates a hasher with the provided seed value and nothing absorbed.
    fn with_seed(seed: u32) -> (r: Self)
        ensures
            r.seed() == seed,
            r.absorbed() == Seq::<u8>::empty(),
    ;

    /// Absorbs `bytes` after everything absorbed before.
    fn write(&mut self, bytes: &[u8])
        ensures
            final(self).seed() == old(self).seed(),
            final(self).absorbed() == old(self).absorbed() + bytes@,
    ;

    /// The digest of the absorbed bytes under the seed.
    fn finish(&self) -> (r: u64)
        ensures
            r == Self::digest(self.seed(), self.absorbed()),
    ;
}

/// MurmurHash3 (x86, 32-bit) as a seeded hash family: the bytes are buffered
/// and hashed in one piece when the digest is asked for.
#[derive(Debug)]
pub struct Murmur3Hasher {
    seed: u32,
    bytes: Vec<u8>,
}

impl SeedHasher for Murmur3Hasher {
    closed spec fn seed(&self) -> u32 {
        self.seed
    }

    closed spec fn absorbed(&self) -> Seq<u8> {
        self.bytes@
    }

    open spec fn digest(seed: u32, bytes: Seq<u8>) -> u64 {
        murmur3_x86_32(bytes, seed) as u64
    }

    fn with_seed(seed: u32) -> (r: Self) {
        Murmur3Hasher { seed, bytes: Vec::new() }
    }

    fn write(&mut self, bytes: &[u8]) {
        self.bytes.extend_from_slice(bytes);
    }

    fn finish(&self) -> (r: u64) {
        murmur3_digest(self.bytes.as_slice(), self.seed) as u64
    }
}

impl std::hash::Hasher for Murmur3Hasher {
    fn finish(&self) -> u64 {
        SeedHasher::finish(self)
    }

    fn write(&mut self, bytes: &[u8]) {
        SeedHasher::write(self, bytes)
    }
}

} // verus!
