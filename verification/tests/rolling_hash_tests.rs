use rabin::rolling_hash::RollingHash;
use rand::distributions::Distribution;

#[test]
fn test_rolling_hash() {
    let source = [
        1u8, 2, 3, 4, 5, 6, 7, 8, 9, 0, 1, 2, 3, 4, 5, 6, 7, 8, 9, 0, 1, 2, 3, 4, 5, 6, 7, 8, 9, 0,
        1, 2, 3, 4, 5, 6, 7, 8, 9, 0, 1, 2, 3, 4, 5, 6, 7, 8, 9, 0,
    ];

    // Initialize the rolling hash with the first 15 bytes of the source
    let mut rolling = RollingHash::new();
    rolling.hash_bytes(&source[0..15]);

    let mut hashed = RollingHash::new();

    // The result of adding one byte of the data at a time to the first hash should be the same
    // as hashing just those 16 bytes as one group.
    for i in 0..source.len() - 15 {
        // Add one more byte to the first hash
        rolling.hash_byte(source[i + 15]);

        // Hash the same bytes all at once.
        hashed.reset();
        hashed.hash_bytes(&source[i..i + 16]);

        // They gotta match!
        assert_eq!(rolling.hash(), hashed.hash());
    }
}

#[test]
fn test_rolling_hash_random_distribution() {
    const TEST_BYTES: usize = 2 * 1024 * 1024;
    const SIX_PERCENT: u32 = TEST_BYTES as u32 / 4096;
    const LOWER_DISTRIBUTION: u32 = TEST_BYTES as u32 / 256 - SIX_PERCENT;
    const UPPER_DISTRIBUTION: u32 = TEST_BYTES as u32 / 256 + SIX_PERCENT;

    // We want to confirm that the rolling hash generates an even distribution of values, so we
    // will hash some random data and check the last byte of the hash to see if it is
    // approximately even. That means we need 256 buckets to store the counts
    let mut buckets = [0u32; 256];

    // Create a random byte generator
    let mut rng = rand::thread_rng();
    let mut byte_iter = rand::distributions::Standard.sample_iter(&mut rng);

    // Hash 15 bytes to seed the rolling hash
    let mut rolling = RollingHash::new();
    for _ in 0..15 {
        rolling.hash_byte(byte_iter.next().unwrap());
    }

    // Hash an additional large number of bytes (2MiB), putting the bottom u8 of the hash into
    // 256 buckets
    for _ in 0..TEST_BYTES {
        rolling.hash_byte(byte_iter.next().unwrap());

        let b = (rolling.hash() as u8) as usize;
        buckets[b] += 1;
    }

    // Distribution should be +/- SIX_PERCENT in each bucket
    for i in 0..256 {
        assert!(
            buckets[i] >= LOWER_DISTRIBUTION && buckets[i] <= UPPER_DISTRIBUTION,
            "bucket {} had {} but should have been between {} and {}",
            i,
            buckets[i],
            LOWER_DISTRIBUTION,
            UPPER_DISTRIBUTION
        );
    }
}

#[test]
fn fifteen_bytes_and_one_more() {
    let mut rolling = RollingHash::new();
    rolling.hash_bytes(&[1, 2, 3, 4, 5, 6, 7, 8, 9, 0, 1, 2, 3, 4, 5]);
    rolling.hash_byte(6);
    let mut whole = RollingHash::new();
    whole.hash_bytes(&[1, 2, 3, 4, 5, 6, 7, 8, 9, 0, 1, 2, 3, 4, 5, 6]);
    assert_eq!(rolling.hash(), whole.hash());
    assert_eq!(whole.hash(), 0x12362c6e745e44de);
}

#[test]
fn sixteen_zero_bytes_hash_to_zero() {
    let mut hasher = RollingHash::new();
    assert_eq!(hasher.hash(), 0);
    hasher.hash_bytes(&[0u8; 16]);
    assert_eq!(hasher.hash(), 0);
}

#[test]
fn known_hash_values() {
    let mut hasher = RollingHash::new();
    hasher.hash_bytes(&[1, 2, 3]);
    assert_eq!(hasher.hash(), 0x10203);

    let mut hasher = RollingHash::new();
    hasher.hash_bytes(&[0xff; 16]);
    assert_eq!(hasher.hash(), 0xffffffffffffff35);

    let bytes: Vec<u8> = (0..100).collect();
    let mut hasher = RollingHash::new();
    hasher.hash_bytes(&bytes);
    assert_eq!(hasher.hash(), 0x475d7369cfd5fba7);
}

#[test]
fn a_byte_leaves_after_sixteen_more() {
    let mut hasher = RollingHash::new();
    hasher.hash_byte(1);
    assert_eq!(hasher.hash(), 1);
    for _ in 0..7 {
        hasher.hash_byte(0);
    }
    assert_eq!(hasher.hash(), 1 << 56);
    // The next shift carries the byte out of the word: the push table brings
    // it back, reduced by the polynomial.
    hasher.hash_byte(0);
    assert_eq!(hasher.hash(), 0x1b);
    for _ in 0..7 {
        hasher.hash_byte(0);
    }
    assert_ne!(hasher.hash(), 0);
    // Now the byte leaves the window, and the pop table takes it out.
    hasher.hash_byte(0);
    assert_eq!(hasher.hash(), 0);
}

#[test]
fn reset_is_as_good_as_new() {
    let bytes: Vec<u8> = (0..40).map(|i| (i * 7 + 3) as u8).collect();
    for n in 0..bytes.len() {
        let mut used = RollingHash::new();
        used.hash_bytes(&[9, 8, 7, 6, 5]);
        used.reset();
        used.hash_bytes(&bytes[..n]);
        let mut fresh = RollingHash::new();
        fresh.hash_bytes(&bytes[..n]);
        assert_eq!(used.hash(), fresh.hash());
    }
}

#[test]
fn long_input_is_hashed_from_its_tail() {
    let bytes: Vec<u8> = (0..100).map(|i| (i * 31 + 11) as u8).collect();
    for n in 33..bytes.len() {
        let mut whole = RollingHash::new();
        whole.hash_bytes(&[1, 2, 3]);
        whole.hash_bytes(&bytes[..n]);
        let mut tail = RollingHash::new();
        tail.hash_bytes(&[4, 5, 6, 7]);
        tail.reset();
        tail.hash_bytes(&bytes[n - 16..n]);
        assert_eq!(whole.hash(), tail.hash());
        // One byte at a time gives the same value.
        let mut stepwise = RollingHash::new();
        for b in &bytes[..n] {
            stepwise.hash_byte(*b);
        }
        assert_eq!(whole.hash(), stepwise.hash());
    }
}

#[test]
fn same_last_window_same_hash() {
    let tail = [3u8, 1, 4, 1, 5, 9, 2, 6, 5, 3, 5, 8, 9, 7, 9, 3];
    let mut a = vec![1u8, 2, 3];
    a.extend_from_slice(&tail);
    let mut b = vec![200u8; 70];
    b.extend_from_slice(&tail);
    let mut first = RollingHash::new();
    first.hash_bytes(&a);
    let mut second = RollingHash::new();
    second.hash_bytes(&b);
    assert_eq!(first.hash(), second.hash());
    let mut third = RollingHash::new();
    third.hash_bytes(&tail);
    assert_eq!(first.hash(), third.hash());
}

#[test]
fn short_input_is_padded_with_zero_bytes() {
    let mut short = RollingHash::new();
    short.hash_bytes(&[5, 6, 7]);
    let mut padded = RollingHash::new();
    padded.hash_bytes(&[0, 0, 0, 0, 0, 0, 0, 0, 0, 0, 0, 0, 0, 5, 6, 7]);
    assert_eq!(short.hash(), padded.hash());
}
