use rabin::ExtendableHashExt;
use rand::distributions::Distribution;
use rand::SeedableRng;
use sha3::{Digest, Sha3_256};

#[test]
fn test_chunk_hash_random_distribution() {
    const ITERATIONS: usize = 1024 * 16;
    const BYTES_PER_ITERATION: usize = 256;
    const OUTPUT_PER_ITERATION: usize = 18;
    const TEST_BYTES: usize = ITERATIONS * OUTPUT_PER_ITERATION;
    const TEN_PERCENT: u32 = TEST_BYTES as u32 / 256 / 10;
    const LOWER_DISTRIBUTION: u32 = TEST_BYTES as u32 / 256 - TEN_PERCENT;
    const UPPER_DISTRIBUTION: u32 = TEST_BYTES as u32 / 256 + TEN_PERCENT;

    // We want to confirm that the chunk hash generates an even distribution of values, so we
    // will hash some random data and check the last byte of the hash to see if it is
    // approximately even. That means we need 256 buckets to store the counts
    let mut buckets = [0u32; 256];

    // Create a random byte generator. With so few samples about one stream in six has a
    // bucket outside the bounds, so the stream is pinned by a seed.
    let mut rng = rand::rngs::StdRng::seed_from_u64(1);
    let mut byte_iter = rand::distributions::Standard.sample_iter(&mut rng);
    let mut source = [0u8; BYTES_PER_ITERATION];

    // Hash a large amount of random data, putting the bottom u8 of the hash into 256 buckets
    let mut hasher = Sha3_256::new();
    for _ in 0..ITERATIONS {
        for i in 0..BYTES_PER_ITERATION {
            source[i] = byte_iter.next().unwrap();
        }

        hasher.reset();
        let hash = hasher.hash_chunk_144(&source);
        for &b in hash.iter() {
            buckets[b as usize] += 1;
        }
    }

    // Distribution should be +/- TEN_PERCENT in each bucket. The percentage is larger for this
    // test than the rolling hash because we have to do fewer iterations or the test takes too
    // long. With more iterations, the distribution should be better.
    for i in 0..256 {
        assert!(
            buckets[i] >= LOWER_DISTRIBUTION && buckets[i] <= UPPER_DISTRIBUTION,
            "bucket {} had {} but should have been between {} and {}",
            i,
            buckets[i],
            LOWER_DISTRIBUTION,
            UPPER_DISTRIBUTION
        );
    }
}

const SHA256_ABC: [u8; 32] = [
    0xba, 0x78, 0x16, 0xbf, 0x8f, 0x01, 0xcf, 0xea, 0x41, 0x41, 0x40, 0xde, 0x5d, 0xae, 0x22,
    0x23, 0xb0, 0x03, 0x61, 0xa3, 0x96, 0x17, 0x7a, 0x9c, 0xb4, 0x10, 0xff, 0x61, 0xf2, 0x00,
    0x15, 0xad,
];

const SHA3_256_ABC: [u8; 32] = [
    0x3a, 0x98, 0x5d, 0xa7, 0x4f, 0xe2, 0x25, 0xb2, 0x04, 0x5c, 0x17, 0x2d, 0x6b, 0xd3, 0x90,
    0xbd, 0x85, 0x5f, 0x08, 0x6e, 0x3e, 0x9d, 0x52, 0x5b, 0x46, 0xbf, 0xe2, 0x45, 0x11, 0x43,
    0x15, 0x32,
];

#[test]
fn sha256_of_abc() {
    assert_eq!(rabin::hash_chunk_sha256(b"abc"), SHA256_ABC);
    assert_ne!(rabin::hash_chunk_sha256(b"abd"), SHA256_ABC);
}

#[test]
fn sha2_check_is_the_leading_word() {
    assert_eq!(rabin::digest::sha2_check(b"abc"), 0xba7816bf);
    // SHA-256 of the empty input starts with e3 b0 c4 42.
    assert_eq!(rabin::digest::sha2_check(b""), 0xe3b0c442);
}

#[test]
fn leading_u32_is_big_endian() {
    let mut digest = [0u8; 32];
    digest[0] = 1;
    digest[1] = 2;
    digest[2] = 3;
    digest[3] = 4;
    digest[4] = 0xff;
    assert_eq!(rabin::digest::leading_u32(&digest), 0x01020304);
    digest[0] = 0xff;
    assert_eq!(rabin::digest::leading_u32(&digest), 0xff020304);
}

#[test]
fn leading_bytes_keep_the_front() {
    let key: [u8; 14] = rabin::digest::leading_bytes(&SHA256_ABC);
    assert_eq!(key[..], SHA256_ABC[..14]);
    let none: [u8; 0] = rabin::digest::leading_bytes(&SHA256_ABC);
    assert_eq!(none.len(), 0);
    let all: [u8; 32] = rabin::digest::leading_bytes(&SHA256_ABC);
    assert_eq!(all, SHA256_ABC);
}

#[test]
fn sha3_keys_of_abc() {
    let mut hasher = Sha3_256::new();
    assert_eq!(hasher.hash_chunk_112(b"abc")[..], SHA3_256_ABC[..14]);
    assert_eq!(hasher.hash_chunk_128(b"abc")[..], SHA3_256_ABC[..16]);
    assert_eq!(hasher.hash_chunk_144(b"abc")[..], SHA3_256_ABC[..18]);
    assert_eq!(hasher.hash_chunk_160(b"abc")[..], SHA3_256_ABC[..20]);
}

#[test]
fn sha3_key_covers_what_was_taken_in_before() {
    let mut hasher = Sha3_256::new();
    hasher.input(b"a");
    assert_eq!(hasher.hash_chunk_144(b"bc")[..], SHA3_256_ABC[..18]);
    // The hasher is left as a new one.
    assert_eq!(hasher.hash_chunk_144(b"abc")[..], SHA3_256_ABC[..18]);
    assert_ne!(hasher.hash_chunk_144(b"bc")[..], SHA3_256_ABC[..18]);
}
