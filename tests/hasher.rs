use std::hash::{Hash, Hasher};

use schindel::hasher::{Murmur3Hasher, SeedHasher};
use schindel::shingles::{MinShingleHash, Token};

#[test]
fn std_hasher_matches_seed_hasher() {
    let mut via_std = <Murmur3Hasher as SeedHasher>::with_seed(5);
    Hasher::write(&mut via_std, b"shingle");
    let mut direct = <Murmur3Hasher as SeedHasher>::with_seed(5);
    SeedHasher::write(&mut direct, b"shingle");
    assert_eq!(Hasher::finish(&via_std), SeedHasher::finish(&direct));
}

#[test]
fn token_encoding_matches_std_hash() {
    for c in ['h', 'é', '€', '𝄞'] {
        let mut via_hash = <Murmur3Hasher as SeedHasher>::with_seed(9);
        c.hash(&mut via_hash);
        let mut via_token = <Murmur3Hasher as SeedHasher>::with_seed(9);
        c.hash_into(&mut via_token);
        assert_eq!(Hasher::finish(&via_hash), SeedHasher::finish(&via_token));
    }
    let mut via_hash = <Murmur3Hasher as SeedHasher>::with_seed(9);
    7u8.hash(&mut via_hash);
    let mut via_token = <Murmur3Hasher as SeedHasher>::with_seed(9);
    7u8.hash_into(&mut via_token);
    assert_eq!(Hasher::finish(&via_hash), SeedHasher::finish(&via_token));
}

#[test]
fn fingerprint_component_is_min_over_windows() {
    let text: Vec<char> = "abcab".chars().collect();
    let fp = MinShingleHash::<Murmur3Hasher, 6, 2>::new(&text);
    let values: Vec<u32> = fp.iter().copied().collect();
    assert_eq!(values.len(), 6);
    for (seed, &value) in values.iter().enumerate() {
        let mut expected = u32::MAX;
        for window in text.windows(2) {
            let mut h = <Murmur3Hasher as SeedHasher>::with_seed(seed as u32);
            for c in window {
                c.hash(&mut h);
            }
            expected = expected.min(Hasher::finish(&h) as u32);
        }
        assert_eq!(value, expected);
    }
}
