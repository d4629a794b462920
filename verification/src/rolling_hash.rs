//! A rolling hash over a window of sixteen bytes.
//!
//! The hash of bytes `1..17` of a stream is obtained from the hash of bytes
//! `0..16` by pushing one more byte: the new byte enters the window and the
//! oldest one leaves it. The value is the Rabin fingerprint of the window. It
//! is a strong hash but not a cryptographic one.

use vstd::prelude::*;
use crate::fingerprint::{
    WINDOW_SIZE, TWICE_WINDOW_SIZE, WINDOW_MASK, fingerprint, zeros, roll, slide,
    lemma_roll, lemma_fingerprint_zeros,
};
use crate::tables::TransitionTables;

verus! {

// The hash value together with the bytes that it covers.
struct Window {
    // The current hash value.
    hash: u64,
    // The bytes most recently added, kept as a ring.
    queue: [u8; 16],
    // The place in `queue` of the oldest byte, which the next byte overwrites.
    next: usize,
}

impl Window {
    // The bytes of the ring, oldest first.
    spec fn bytes(&self) -> Seq<u8> {
        Seq::new(WINDOW_SIZE as nat, |i: int| self.queue@[(self.next + i) % 16])
    }

    #[verifier::type_invariant]
    spec fn consistent(&self) -> bool {
        &&& self.next < WINDOW_SIZE
        &&& self.hash == fingerprint(self.bytes())
    }
}

/// The state of the rolling hash: the current value, the bytes that it
/// covers, and the transition tables.
pub struct RollingHash {
    window: Window,
    tables: TransitionTables,
}

impl View for RollingHash {
    type V = Seq<u8>;

    /// The window: the sixteen bytes that the hash covers, oldest first. Before
    /// sixteen bytes have been added, its front is filled with zero bytes.
    closed spec fn view(&self) -> Seq<u8> {
        self.window.bytes()
    }
}

impl RollingHash {
    /// A hash over a window of zero bytes.
    pub fn new() -> (hasher: RollingHash)
        ensures
            hasher@ == zeros(WINDOW_SIZE as nat),
            fingerprint(hasher@) == 0,
    {
        let queue = [0u8; WINDOW_SIZE];
        proof {
            let bytes = Seq::new(WINDOW_SIZE as nat, |i: int| queue@[(0 + i) % 16]);
            assert(bytes =~= zeros(WINDOW_SIZE as nat));
            lemma_fingerprint_zeros(WINDOW_SIZE as nat);
        }
        RollingHash { window: Window { hash: 0, queue, next: 0 }, tables: TransitionTables::new() }
    }

    /// The current hash value: the fingerprint of the window.
    pub fn hash(&self) -> (hash: u64)
        ensures
            hash == fingerprint(self@),
    {
        proof {
            use_type_invariant(&self.window);
        }
        self.window.hash
    }

    /// The window always holds sixteen bytes.
    pub proof fn lemma_window_len(&self)
        ensures
            self@.len() == WINDOW_SIZE,
    {
    }

    /// Resets the hash to its default state: a window of zero bytes.
    pub fn reset(&mut self)
        ensures
            final(self)@ == zeros(WINDOW_SIZE as nat),
            fingerprint(final(self)@) == 0,
    {
        proof {
            use_type_invariant(&self.window);
        }
        let queue = [0u8; WINDOW_SIZE];
        let next = self.window.next;
        proof {
            let bytes = Seq::new(WINDOW_SIZE as nat, |i: int| queue@[(next + i) % 16]);
            assert(bytes =~= zeros(WINDOW_SIZE as nat));
            lemma_fingerprint_zeros(WINDOW_SIZE as nat);
        }
        self.window = Window { hash: 0, queue, next };
    }

    /// Adds a single byte to the hash: it enters the window and the oldest
    /// byte leaves.
    pub fn hash_byte(&mut self, b: u8)
        ensures
            final(self)@ == old(self)@.skip(1).push(b),
            fingerprint(final(self)@) == roll(fingerprint(old(self)@), old(self)@[0], b),
    {
        proof {
            use_type_invariant(&self.window);
            lemma_roll(self@, b);
        }
        let ghost before = self@;
        let hash = self.window.hash;
        let next = self.window.next;
        let mut queue = self.window.queue;

        // Concat the new byte onto the hash
        assert(hash >> 56 < 256) by (bit_vector);
        let high_byte = (hash >> 56) as u8;
        let pushed = ((hash << 8) | (b as u64)) ^ self.tables.push(high_byte);

        // Remove the old byte
        let old_byte = queue[next];
        assert(old_byte == before[0]);
        let hash = pushed ^ self.tables.pop(old_byte);

        // Update the ring. `next` runs through 0..16 and wraps around; the
        // mask does what `% WINDOW_SIZE` would, the window size being a power
        // of two.
        queue[next] = b;
        let after = next + 1;
        assert(after & WINDOW_MASK == after % 16) by (bit_vector);
        let next = after & WINDOW_MASK;
        proof {
            let bytes = Seq::new(WINDOW_SIZE as nat, |i: int| queue@[(next + i) % 16]);
            assert(bytes =~= before.skip(1).push(b));
        }
        self.window = Window { hash, queue, next };
    }

    /// Hashes the specified bytes in order. Where there are more than twice
    /// the window, it skips to the last window to save time: no earlier byte
    /// has a part in the result.
    pub fn hash_bytes(&mut self, bytes: &[u8])
        ensures
            final(self)@ == slide(old(self)@, bytes@),
            bytes@.len() >= WINDOW_SIZE ==> final(self)@ == bytes@.skip(
                bytes@.len() - WINDOW_SIZE,
            ),
    {
        let ghost before = self@;
        let ghost all = bytes@;
        let mut bytes = bytes;
        // If the additional bytes are longer than twice the window, it is
        // faster just to reset the hash and hash the 16 bytes at the end.
        if bytes.len() > TWICE_WINDOW_SIZE {
            self.reset();
            bytes = &bytes[bytes.len() - WINDOW_SIZE..bytes.len()];
        }
        let ghost start = self@;
        assert(slide(start, bytes@) =~= slide(before, all));
        let mut i: usize = 0;
        while i < bytes.len()
            invariant
                i <= bytes.len(),
                start.len() == WINDOW_SIZE,
                self@ == slide(start, bytes@.take(i as int)),
            decreases bytes.len() - i,
        {
            self.hash_byte(bytes[i]);
            assert(slide(start, bytes@.take(i as int)).skip(1).push(bytes[i as int]) =~= slide(
                start,
                bytes@.take(i + 1),
            ));
            i = i + 1;
        }
        assert(bytes@.take(bytes.len() as int) =~= bytes@);
        assert(all.len() >= WINDOW_SIZE ==> slide(before, all) =~= all.skip(
            all.len() - WINDOW_SIZE,
        ));
    }
}

} // verus!
