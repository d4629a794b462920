//! Content-defined chunking with two divisors.
//!
//! The chunker walks a buffer with the rolling hash and cuts where the low
//! bits of the hash are all ones. Eleven such bits make a primary boundary,
//! ten a secondary one. A chunk ends at the first primary boundary past the
//! minimum size; failing that, at the last secondary boundary seen before the
//! maximum size; failing that, at the maximum size.

use vstd::prelude::*;
use crate::fingerprint::{WINDOW_SIZE, zeros, slide};
use crate::rolling_hash::RollingHash;
use crate::segmentation::{
    PRIMARY_BITMASK, SECONDARY_BITMASK, hash_at, first_primary, last_secondary, scan_end,
    chunk_len, chunks, lemma_chunk_len_bounds, lemma_chunks_concat, lemma_chunks_sizes,
};

verus! {

// The size bounds of a chunker.
struct Bounds {
    min: usize,
    max: usize,
}

impl Bounds {
    #[verifier::type_invariant]
    spec fn in_order(&self) -> bool {
        0 < self.min <= self.max
    }
}

/// Breaks a buffer into variably sized chunks, at break points that depend on
/// the bytes near them alone.
pub struct Chunker<'a> {
    hasher: RollingHash,
    mem: &'a [u8],
    bounds: Bounds,
}

impl<'a> Chunker<'a> {
    /// The bytes that have not been handed out yet.
    pub closed spec fn remaining(&self) -> Seq<u8> {
        self.mem@
    }

    /// The least size of a chunk, but for the last one.
    pub closed spec fn min_size(&self) -> int {
        self.bounds.min as int
    }

    /// The greatest size of a chunk.
    pub closed spec fn max_size(&self) -> int {
        self.bounds.max as int
    }

    /// Creates a chunker over `mem` whose chunks hold at least `min` bytes
    /// (unless fewer are left) and at most `max`.
    pub fn new(mem: &'a [u8], min: usize, max: usize) -> (chunker: Chunker<'a>)
        requires
            0 < min <= max,
        ensures
            chunker.remaining() == mem@,
            chunker.min_size() == min,
            chunker.max_size() == max,
    {
        Chunker { hasher: RollingHash::new(), mem: mem, bounds: Bounds { min: min, max: max } }
    }

    // Removes the first `len` bytes from the bytes to chunk and returns them.
    fn pop_front_chunk(&mut self, len: usize) -> (chunk: &'a [u8])
        requires
            len <= old(self).remaining().len(),
        ensures
            chunk@ == old(self).remaining().take(len as int),
            final(self).remaining() == old(self).remaining().skip(len as int),
            final(self).min_size() == old(self).min_size(),
            final(self).max_size() == old(self).max_size(),
    {
        let mem = self.mem;
        let chunk = &mem[0..len];
        self.mem = &mem[len..mem.len()];
        chunk
    }

    /// Hands out the next chunk, or `None` once all bytes have been chunked.
    pub fn next(&mut self) -> (item: Option<&'a [u8]>)
        ensures
            final(self).min_size() == old(self).min_size(),
            final(self).max_size() == old(self).max_size(),
            old(self).remaining().len() == 0 ==> item is None && final(self).remaining() == old(
                self,
            ).remaining(),
            old(self).remaining().len() > 0 ==> ({
                let len = chunk_len(
                    old(self).remaining(),
                    old(self).min_size(),
                    old(self).max_size(),
                );
                &&& item is Some
                &&& item->0@ == old(self).remaining().take(len)
                &&& final(self).remaining() == old(self).remaining().skip(len)
                &&& 0 < len <= old(self).remaining().len()
                &&& len <= old(self).max_size()
                &&& len >= old(self).min_size() || len == old(self).remaining().len()
            }),
    {
        proof {
            use_type_invariant(&self.bounds);
            if self.remaining().len() > 0 {
                lemma_chunk_len_bounds(self.remaining(), self.min_size(), self.max_size());
            }
        }
        let ghost rem = self.remaining();
        let mem = self.mem;
        let len = mem.len();
        let min = self.bounds.min;
        let max = self.bounds.max;

        // If we've used all the bytes, return None
        if 0 == len {
            return None;
        }
        // If fewer bytes are left than the minimum chunk size, just return them
        if len < min {
            let chunk = self.pop_front_chunk(len);
            assert(chunk@ =~= rem.take(len as int));
            return Some(chunk);
        }
        // Calculate the hash of all bytes up to the minimum chunk size. The
        // rolling hasher skips what lies before its window.
        self.hasher.reset();
        self.hasher.hash_bytes(&mem[0..min]);

        // Add one byte at a time to the hasher until we find a primary
        // breaking point, and keep the last secondary one seen on the way.
        // Don't exceed the total length of the memory buffer.
        let end = if max < len {
            max
        } else {
            len
        };
        let mut secondary: usize = 0;
        let mut i: usize = min;
        while i < end
            invariant
                0 < min <= i <= end,
                end == scan_end(rem, max as int),
                end <= len == rem.len(),
                rem == mem@,
                self.remaining() == rem,
                old(self).remaining() == rem,
                self.min_size() == min == old(self).min_size(),
                self.max_size() == max == old(self).max_size(),
                self.hasher@ == slide(zeros(WINDOW_SIZE as nat), rem.take(i as int)),
                first_primary(rem, min as int, end as int) == first_primary(
                    rem,
                    i as int,
                    end as int,
                ),
                secondary == last_secondary(rem, min as int, i as int),
                secondary == 0 || min <= secondary < i,
            decreases end - i,
        {
            // Add this byte and get the hash for the last few bytes.
            self.hasher.hash_byte(mem[i]);
            let hash = self.hasher.hash();
            assert(self.hasher@ =~= slide(zeros(WINDOW_SIZE as nat), rem.take(i + 1)));
            assert(hash == hash_at(rem, i as int));

            // If we reached a primary boundary, this is where we make the
            // chunk. The divisor being a power of two, a mask tests it.
            if hash & PRIMARY_BITMASK == PRIMARY_BITMASK {
                return Some(self.pop_front_chunk(i));
            }
            // Check for a secondary boundary. We store the index of the last
            // one we found in the hope of a primary or another secondary.
            if hash & SECONDARY_BITMASK == SECONDARY_BITMASK {
                secondary = i;
            }
            i = i + 1;
        }

        // If we reach this point, we didn't find a primary boundary. We make
        // the chunk at the secondary break point, if we found one, or at the
        // max chunk size.
        if 0 == secondary {
            secondary = max;
        }
        if secondary > len {
            secondary = len;
        }
        Some(self.pop_front_chunk(secondary))
    }

    /// Hands out all the chunks that are left, in order.
    pub fn collect(self) -> (all: Vec<&'a [u8]>)
        ensures
            all@.map_values(|chunk: &[u8]| chunk@) == chunks(
                self.remaining(),
                self.min_size(),
                self.max_size(),
            ),
            all@.map_values(|chunk: &[u8]| chunk@).flatten() == self.remaining(),
            forall|i: int|
                0 <= i < all@.len() ==> 0 < (#[trigger] all@[i])@.len() <= self.max_size(),
            forall|i: int|
                0 <= i < all@.len() - 1 ==> (#[trigger] all@[i])@.len() >= self.min_size(),
    {
        proof {
            use_type_invariant(&self.bounds);
            lemma_chunks_concat(self.remaining(), self.min_size(), self.max_size());
            lemma_chunks_sizes(self.remaining(), self.min_size(), self.max_size());
        }
        let ghost buf = self.remaining();
        let ghost min = self.min_size();
        let ghost max = self.max_size();
        let mut chunker = self;
        let mut all: Vec<&'a [u8]> = Vec::new();
        loop
            invariant
                0 < min <= max,
                chunker.min_size() == min,
                chunker.max_size() == max,
                chunks(buf, min, max) == all@.map_values(|chunk: &[u8]| chunk@) + chunks(
                    chunker.remaining(),
                    min,
                    max,
                ),
            ensures
                chunks(buf, min, max) == all@.map_values(|chunk: &[u8]| chunk@),
            decreases chunker.remaining().len(),
        {
            let ghost rem = chunker.remaining();
            let ghost done = all@.map_values(|chunk: &[u8]| chunk@);
            match chunker.next() {
                Some(chunk) => {
                    all.push(chunk);
                    proof {
                        lemma_chunk_len_bounds(rem, min, max);
                        assert(all@.map_values(|chunk: &[u8]| chunk@) =~= done.push(chunk@));
                        assert(done.push(chunk@) + chunks(chunker.remaining(), min, max) =~= done
                            + chunks(rem, min, max));
                    }
                },
                None => {
                    assert(done + chunks(rem, min, max) =~= done);
                    break ;
                },
            }
        }
        proof {
            let views = all@.map_values(|chunk: &[u8]| chunk@);
            assert forall|i: int| 0 <= i < all@.len() implies (#[trigger] all@[i])@ == views[i] by {}
        }
        all
    }
}

} // verus!
