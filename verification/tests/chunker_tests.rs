use rabin::chunker::Chunker;
use rand::RngCore;

// A fixed stream of bytes from a linear congruential generator.
fn sample_bytes(n: usize) -> Vec<u8> {
    let mut x: u64 = 12345;
    let mut out = Vec::with_capacity(n);
    for _ in 0..n {
        x = x
            .wrapping_mul(6364136223846793005)
            .wrapping_add(1442695040888963407);
        out.push((x >> 33) as u8);
    }
    out
}

fn lengths(buf: &[u8], min: usize, max: usize) -> Vec<usize> {
    let mut chunker = Chunker::new(buf, min, max);
    let mut out = Vec::new();
    while let Some(chunk) = chunker.next() {
        out.push(chunk.len());
    }
    out
}

#[test]
fn empty_input_has_no_chunks() {
    let buf: [u8; 0] = [];
    let mut chunker = Chunker::new(&buf, 1856, 11300);
    assert!(chunker.next().is_none());
    assert!(chunker.next().is_none());
    assert!(Chunker::new(&buf, 1, 1).collect().is_empty());
}

#[test]
fn input_shorter_than_min_is_one_chunk() {
    let buf = sample_bytes(1855);
    let mut chunker = Chunker::new(&buf, 1856, 11300);
    assert_eq!(chunker.next(), Some(&buf[..]));
    assert_eq!(chunker.next(), None);
}

#[test]
fn input_of_min_bytes_is_one_chunk() {
    let buf = sample_bytes(1856);
    let mut chunker = Chunker::new(&buf, 1856, 11300);
    let chunk = chunker.next().unwrap();
    assert_eq!(chunk.len(), 1856);
    assert_eq!(chunk, &buf[..]);
    assert_eq!(chunker.next(), None);
}

#[test]
fn one_byte_beyond_max_without_boundary() {
    // The hash of zero bytes is zero and never marks a boundary.
    let buf = vec![0u8; 11301];
    assert_eq!(lengths(&buf, 1856, 11300), vec![11300, 1]);
    let buf = vec![0u8; 5];
    assert_eq!(lengths(&buf, 1, 4), vec![4, 1]);
    assert_eq!(lengths(&buf, 4, 4), vec![4, 1]);
}

#[test]
fn ten_thousand_zero_bytes_are_one_chunk() {
    let buf = vec![0u8; 10_000];
    let mut chunker = Chunker::new(&buf, 1856, 11300);
    let chunk = chunker.next().unwrap();
    assert_eq!(chunk.len(), 10_000);
    assert!(chunker.next().is_none());
}

#[test]
fn zero_bytes_are_cut_at_max() {
    let buf = vec![0u8; 30_000];
    assert_eq!(lengths(&buf, 1856, 11300), vec![11300, 11300, 7400]);
}

#[test]
fn primary_boundaries_of_sample() {
    let buf = sample_bytes(200_000);
    let found = lengths(&buf, 1856, 11300);
    assert_eq!(found.len(), 55);
    assert_eq!(
        &found[..12],
        &[2286, 2416, 4601, 3724, 2902, 2689, 2848, 4817, 1879, 2211, 2297, 4049]
    );
    assert_eq!(found[54], 3371);
    assert_eq!(found.iter().sum::<usize>(), 200_000);
}

#[test]
fn secondary_and_max_boundaries_of_sample() {
    // With these bounds the sample is cut at secondary boundaries, at primary
    // boundaries, at the maximum size and at the end of the buffer.
    let buf = sample_bytes(20_000);
    assert_eq!(
        lengths(&buf, 256, 1024),
        vec![
            437, 746, 942, 455, 278, 1024, 820, 476, 1024, 1024, 1024, 1024, 1024, 1024, 281,
            1024, 400, 1024, 1024, 854, 1024, 523, 579, 563, 1024, 358
        ]
    );
}

#[test]
fn chunks_lie_end_to_end() {
    let buf = sample_bytes(100_000);
    let mut chunker = Chunker::new(&buf, 256, 1024);
    let mut offset = 0;
    let mut joined: Vec<u8> = Vec::new();
    while let Some(chunk) = chunker.next() {
        // Each chunk is the part of the buffer that starts where the last one ended.
        assert_eq!(chunk.as_ptr(), buf[offset..].as_ptr());
        assert!(!chunk.is_empty());
        assert!(chunk.len() <= 1024);
        offset += chunk.len();
        if offset < buf.len() {
            assert!(chunk.len() >= 256);
        }
        joined.extend_from_slice(chunk);
    }
    assert_eq!(offset, buf.len());
    assert_eq!(joined, buf);
}

#[test]
fn collect_yields_what_next_yields() {
    let buf = sample_bytes(50_000);
    let all = Chunker::new(&buf, 256, 1024).collect();
    let mut chunker = Chunker::new(&buf, 256, 1024);
    let mut count = 0;
    while let Some(chunk) = chunker.next() {
        assert_eq!(all[count], chunk);
        count += 1;
    }
    assert_eq!(count, all.len());
    assert!(chunker.collect().is_empty());
}

#[test]
fn collect_after_next_yields_the_rest() {
    let buf = sample_bytes(20_000);
    let mut chunker = Chunker::new(&buf, 256, 1024);
    assert_eq!(chunker.next().unwrap().len(), 437);
    assert_eq!(chunker.next().unwrap().len(), 746);
    let rest: Vec<usize> = chunker.collect().iter().map(|c| c.len()).collect();
    assert_eq!(rest.len(), 24);
    assert_eq!(&rest[..3], &[942, 455, 278]);
}

#[test]
fn two_runs_give_the_same_boundaries() {
    let buf = sample_bytes(300_000);
    let first = lengths(&buf, 1856, 11300);
    let second = lengths(&buf, 1856, 11300);
    assert_eq!(first, second);
    let mut offset = 0;
    let mut pairs = Vec::new();
    for len in &first {
        pairs.push((offset, *len));
        offset += len;
    }
    let mut offset = 0;
    for (i, len) in second.iter().enumerate() {
        assert_eq!(pairs[i], (offset, *len));
        offset += len;
    }
}

#[test]
fn boundaries_before_an_edit_stay() {
    let buf = sample_bytes(200_000);
    let max = 11300;
    let p = 120_000;
    // Put three bytes in at offset p: everything behind them moves.
    let mut edited = buf[..p].to_vec();
    edited.extend_from_slice(&[7, 7, 7]);
    edited.extend_from_slice(&buf[p..]);

    let ends = |lens: Vec<usize>| -> Vec<usize> {
        let mut at = 0;
        lens.iter()
            .map(|len| {
                at += len;
                at
            })
            .collect()
    };
    let before = ends(lengths(&buf, 1856, max));
    let after = ends(lengths(&edited, 1856, max));
    let kept: Vec<usize> = before.iter().copied().filter(|e| *e <= p - max).collect();
    let kept_after: Vec<usize> = after.iter().copied().filter(|e| *e <= p - max).collect();
    assert!(!kept.is_empty());
    assert_eq!(kept, kept_after);
    // Behind the edit the boundaries meet again, three bytes further on.
    assert_eq!(before.last().unwrap() + 3, *after.last().unwrap());
    let last = before[before.len() - 2];
    assert!(after.contains(&(last + 3)));
}

#[test]
fn chunk_sizes_of_random_data() {
    let mut buf = vec![0u8; 8 * 1024 * 1024];
    rand::thread_rng().fill_bytes(&mut buf);
    let found = lengths(&buf, 1856, 11300);
    let total: usize = found.iter().sum();
    assert_eq!(total, buf.len());
    let mean = total / found.len();
    assert!(mean >= 3500 && mean <= 5000, "mean chunk size {}", mean);
    assert!(found.iter().all(|len| *len <= 11300));
    let long_enough = found.iter().filter(|len| **len >= 1856).count();
    assert!(long_enough * 100 >= found.len() * 99);
}
