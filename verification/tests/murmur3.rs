use girg_generator::murmur3::{finish, murmur3_32_2, murmur3_32_3};
use mur3::murmurhash3_x86_32;
use rand::Rng;
use rand_xoshiro::rand_core::SeedableRng;
use rand_xoshiro::Xoshiro256StarStar;

#[test]
fn test_equality_3() {
    let mut rng = Xoshiro256StarStar::seed_from_u64(0);

    for _ in 0..10240 {
        let s1: u64 = rng.gen();
        let s2: u64 = rng.gen();
        let s3: u64 = rng.gen();

        let expected = murmurhash3_x86_32(
            &[s1.to_be_bytes(), s2.to_be_bytes(), s3.to_be_bytes()].concat(),
            0,
        );
        let actual = murmur3_32_3(s1, s2, s3);
        assert_eq!(actual, expected, "hashing [{}, {}, {}]", s1, s2, s3);
    }
}

#[test]
fn test_equality_2() {
    let mut rng = Xoshiro256StarStar::seed_from_u64(0);

    for _ in 0..10240 {
        let s1: u64 = rng.gen();
        let s2: u64 = rng.gen();

        let expected = murmurhash3_x86_32(&[s1.to_be_bytes(), s2.to_be_bytes()].concat(), 0);
        let actual = murmur3_32_2(s1, s2);
        assert_eq!(actual, expected, "hashing [{}, {}]", s1, s2);
    }
}

#[test]
fn hash_of_known_keys_has_known_values() {
    assert_eq!(murmur3_32_2(0, 0), 2167721464);
    assert_eq!(murmur3_32_2(0, 0), murmurhash3_x86_32(&[0u8; 16], 0));
    assert_eq!(murmur3_32_3(0, 0, 0), 3708130561);
    assert_eq!(murmur3_32_3(0, 0, 0), murmurhash3_x86_32(&[0u8; 24], 0));
    assert_eq!(murmur3_32_2(1, 2), 2162419403);
}

#[test]
fn finish_matches_empty_input_hash() {
    // the finalizer applied to the empty state is the hash of no bytes
    assert_eq!(finish(0, 0), murmurhash3_x86_32(&[], 0));
}

#[test]
fn hashes_are_deterministic() {
    let a = murmur3_32_3(12345, 67890, 11111);
    let b = murmur3_32_3(12345, 67890, 11111);
    assert_eq!(a, b);
    let c = murmur3_32_2(12345, 67890);
    let d = murmur3_32_2(12345, 67890);
    assert_eq!(c, d);
}
