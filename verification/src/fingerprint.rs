//! The Rabin fingerprint of a byte sequence, and the rule by which it rolls
//! over a window of sixteen bytes.
//!
//! A byte sequence stands for a polynomial over GF(2): its first byte holds
//! the highest coefficients. The fingerprint is the remainder of that
//! polynomial modulo the irreducible polynomial. The fingerprint of a window
//! that slides by one byte is obtained from the old fingerprint, the byte
//! that enters and the byte that leaves, with one lookup in each of the two
//! transition tables.

use vstd::prelude::*;
use crate::polynomial::{
    shl_mod, lemma_shl_mod_zero, lemma_shl_mod_xor, lemma_shl_mod_add, lemma_shl_mod_no_carry,
};

verus! {

/// The number of bytes in the sliding window. A power of two.
pub const WINDOW_SIZE: usize = 16;

/// Twice the window: inputs longer than this are hashed from their tail.
pub const TWICE_WINDOW_SIZE: usize = 32;

/// `WINDOW_SIZE - 1`, the mask that wraps an index into the window.
pub const WINDOW_MASK: usize = 15;

/// The Rabin fingerprint of `s`: each byte shifts the remainder so far by
/// eight bits and is added in the low bits.
pub open spec fn fingerprint(s: Seq<u8>) -> u64
    decreases s.len(),
{
    if s.len() == 0 {
        0
    } else {
        shl_mod(fingerprint(s.drop_last()), 8) ^ (s.last() as u64)
    }
}

/// `n` zero bytes.
pub open spec fn zeros(n: nat) -> Seq<u8> {
    Seq::new(n, |i: int| 0u8)
}

/// The entry of the push table for `top`, the byte that a shift by eight bits
/// carries out of the word: its share of the reduced result.
pub open spec fn push_entry(top: u8) -> u64 {
    shl_mod((top as u64) << 56, 8)
}

/// The entry of the pop table for `old`: what a byte contributes to the
/// fingerprint once it is a whole window behind the newest byte.
pub open spec fn pop_entry(old: u8) -> u64 {
    shl_mod(old as u64, 128)
}

/// The highest byte of `hash`: the one that a shift by eight bits carries out.
pub open spec fn top_byte(hash: u64) -> u8 {
    #[verifier::truncate]
    ((hash >> 56) as u8)
}

/// One step of the rolling hash: the fingerprint `hash` of a full window
/// takes in `byte` while `evicted`, the oldest byte of that window, leaves.
pub open spec fn roll(hash: u64, evicted: u8, byte: u8) -> u64 {
    ((hash << 8) | (byte as u64)) ^ push_entry(top_byte(hash)) ^ pop_entry(evicted)
}

/// The window after `bytes` have passed through it, starting from `window`:
/// the last bytes of the two laid end to end.
pub open spec fn slide(window: Seq<u8>, bytes: Seq<u8>) -> Seq<u8> {
    (window + bytes).skip(bytes.len() as int)
}

/// The fingerprint of two sequences laid end to end.
pub proof fn lemma_fingerprint_concat(a: Seq<u8>, b: Seq<u8>)
    ensures
        fingerprint(a + b) == shl_mod(fingerprint(a), 8 * b.len()) ^ fingerprint(b),
    decreases b.len(),
{
    let fa = fingerprint(a);
    if b.len() == 0 {
        assert(a + b =~= a);
        assert(fa ^ 0 == fa) by (bit_vector);
    } else {
        let front = b.drop_last();
        let last = b.last() as u64;
        assert((a + b).drop_last() =~= a + front);
        lemma_fingerprint_concat(a, front);
        let shifted = shl_mod(fa, 8 * front.len());
        let ff = fingerprint(front);
        lemma_shl_mod_xor(shifted, ff, 8);
        lemma_shl_mod_add(fa, 8 * front.len(), 8);
        assert(8 * front.len() + 8 == 8 * b.len());
        let x = shl_mod(shifted, 8);
        let y = shl_mod(ff, 8);
        assert((x ^ y) ^ last == x ^ (y ^ last)) by (bit_vector);
    }
}

/// A run of zero bytes has fingerprint zero.
pub proof fn lemma_fingerprint_zeros(n: nat)
    ensures
        fingerprint(zeros(n)) == 0,
    decreases n,
{
    if n > 0 {
        assert(zeros(n).drop_last() =~= zeros((n - 1) as nat));
        lemma_fingerprint_zeros((n - 1) as nat);
        lemma_shl_mod_zero(8);
        assert(0u64 ^ 0u64 == 0u64) by (bit_vector);
    }
}

/// Zero bytes in front of a sequence do not change its fingerprint.
pub proof fn lemma_fingerprint_leading_zeros(n: nat, s: Seq<u8>)
    ensures
        fingerprint(zeros(n) + s) == fingerprint(s),
{
    lemma_fingerprint_concat(zeros(n), s);
    lemma_fingerprint_zeros(n);
    lemma_shl_mod_zero(8 * s.len());
    let f = fingerprint(s);
    assert(0u64 ^ f == f) by (bit_vector);
}

/// A shift by one byte, written with the push table: the top byte is carried
/// out and comes back reduced.
pub proof fn lemma_shift_byte(hash: u64)
    ensures
        shl_mod(hash, 8) == (hash << 8) ^ push_entry(top_byte(hash)),
{
    let top = top_byte(hash);
    let high = (top as u64) << 56;
    let low = hash & 0x00FF_FFFF_FFFF_FFFF;
    assert(hash == high ^ low && low >> 56 == 0 && low << 8 == hash << 8) by (bit_vector)
        requires
            top == #[verifier::truncate] ((hash >> 56) as u8),
            high == (top as u64) << 56,
            low == hash & 0x00FF_FFFF_FFFF_FFFF,
    ;
    lemma_shl_mod_xor(high, low, 8);
    lemma_shl_mod_no_carry(low, 8);
    let p = shl_mod(high, 8);
    let q = hash << 8;
    assert(p ^ q == q ^ p) by (bit_vector);
}

/// The rolling rule is exact: on a full window, one step of [`roll`] yields
/// the fingerprint of the window moved on by one byte.
pub proof fn lemma_roll(window: Seq<u8>, byte: u8)
    requires
        window.len() == WINDOW_SIZE,
    ensures
        fingerprint(window.skip(1).push(byte)) == roll(fingerprint(window), window[0], byte),
{
    let oldest = seq![window[0]];
    let rest = window.skip(1);
    let hash = fingerprint(window);
    let fr = fingerprint(rest);
    let evicted = window[0] as u64;
    let b = byte as u64;
    assert(window =~= oldest + rest);
    lemma_fingerprint_concat(oldest, rest);
    assert(fingerprint(oldest) == evicted) by {
        assert(oldest.drop_last() =~= Seq::<u8>::empty());
        assert(fingerprint(Seq::<u8>::empty()) == 0);
        lemma_shl_mod_zero(8);
        assert(0u64 ^ evicted == evicted) by (bit_vector);
    }
    // hash == shl_mod(evicted, 120) ^ fr
    let aged = shl_mod(evicted, 120);
    lemma_shl_mod_xor(aged, fr, 8);
    lemma_shl_mod_add(evicted, 120, 8);
    // shl_mod(hash, 8) == pop_entry(window[0]) ^ shl_mod(fr, 8)
    let pop = pop_entry(window[0]);
    let next = shl_mod(fr, 8);
    assert(rest.push(byte).drop_last() =~= rest);
    // fingerprint(rest.push(byte)) == next ^ b
    lemma_shift_byte(hash);
    let shifted = hash << 8;
    let push = push_entry(top_byte(hash));
    assert(next ^ b == ((shifted | b) ^ push) ^ pop) by (bit_vector)
        requires
            shifted ^ push == pop ^ next,
            shifted == hash << 8,
            b == byte as u64,
    ;
}

/// The window after `bytes` have been pushed into `window` one at a time.
pub open spec fn push_each(window: Seq<u8>, bytes: Seq<u8>) -> Seq<u8>
    decreases bytes.len(),
{
    if bytes.len() == 0 {
        window
    } else {
        push_each(window, bytes.drop_last()).skip(1).push(bytes.last())
    }
}

/// Sliding over two runs of bytes in turn is sliding over both at once.
pub proof fn lemma_slide_twice(window: Seq<u8>, a: Seq<u8>, b: Seq<u8>)
    ensures
        slide(slide(window, a), b) == slide(window, a + b),
{
    assert(slide(slide(window, a), b) =~= slide(window, a + b));
}

/// Pushing bytes one at a time slides the window over them.
pub proof fn lemma_push_each(window: Seq<u8>, bytes: Seq<u8>)
    requires
        window.len() == WINDOW_SIZE,
    ensures
        push_each(window, bytes) == slide(window, bytes),
    decreases bytes.len(),
{
    if bytes.len() == 0 {
        assert(slide(window, bytes) =~= window);
    } else {
        lemma_push_each(window, bytes.drop_last());
        assert(slide(window, bytes.drop_last()).skip(1).push(bytes.last()) =~= slide(
            window,
            bytes,
        ));
    }
}

/// Rolling equivalence. Take a buffer of at least a window. Hashing the
/// sixteen bytes that start at `i` from a fresh state gives the same value as
/// seeding with the first sixteen bytes and pushing the `i` bytes that follow
/// them one at a time.
pub proof fn lemma_rolling_equivalence(buf: Seq<u8>, i: int)
    requires
        buf.len() >= WINDOW_SIZE,
        0 <= i <= buf.len() - WINDOW_SIZE,
    ensures
        fingerprint(slide(zeros(WINDOW_SIZE as nat), buf.subrange(i, i + WINDOW_SIZE)))
            == fingerprint(
            push_each(
                slide(zeros(WINDOW_SIZE as nat), buf.take(WINDOW_SIZE as int)),
                buf.subrange(WINDOW_SIZE as int, i + WINDOW_SIZE),
            ),
        ),
{
    let fresh = zeros(WINDOW_SIZE as nat);
    let seed = slide(fresh, buf.take(WINDOW_SIZE as int));
    let pushed = buf.subrange(WINDOW_SIZE as int, i + WINDOW_SIZE);
    lemma_push_each(seed, pushed);
    assert(slide(seed, pushed) =~= slide(fresh, buf.subrange(i, i + WINDOW_SIZE)));
}

/// Hashing a buffer of at least a window in one go leaves the window that
/// hashing its first sixteen bytes and pushing the rest one at a time leaves.
pub proof fn lemma_hash_bytes_is_seed_then_push(window: Seq<u8>, buf: Seq<u8>)
    requires
        window.len() == WINDOW_SIZE,
        buf.len() >= WINDOW_SIZE,
    ensures
        slide(window, buf) == push_each(
            slide(window, buf.take(WINDOW_SIZE as int)),
            buf.skip(WINDOW_SIZE as int),
        ),
{
    let seed = slide(window, buf.take(WINDOW_SIZE as int));
    lemma_push_each(seed, buf.skip(WINDOW_SIZE as int));
    lemma_slide_twice(window, buf.take(WINDOW_SIZE as int), buf.skip(WINDOW_SIZE as int));
    assert(buf.take(WINDOW_SIZE as int) + buf.skip(WINDOW_SIZE as int) =~= buf);
}

/// Hashing fewer bytes than a window from a fresh state is hashing them with
/// zero bytes put in front to fill the window.
pub proof fn lemma_short_input_is_padded(buf: Seq<u8>)
    requires
        buf.len() <= WINDOW_SIZE,
    ensures
        slide(zeros(WINDOW_SIZE as nat), buf) == zeros((WINDOW_SIZE - buf.len()) as nat) + buf,
        slide(zeros(WINDOW_SIZE as nat), buf) == slide(
            zeros(WINDOW_SIZE as nat),
            zeros((WINDOW_SIZE - buf.len()) as nat) + buf,
        ),
{
    let fresh = zeros(WINDOW_SIZE as nat);
    let padded = zeros((WINDOW_SIZE - buf.len()) as nat) + buf;
    assert(slide(fresh, buf) =~= padded);
    assert(slide(fresh, padded) =~= padded);
}

/// After any bytes have gone into a fresh hash, its value is the fingerprint
/// of the last sixteen of them, or of all of them where they are fewer.
pub proof fn lemma_hash_covers_tail(stream: Seq<u8>)
    ensures
        fingerprint(slide(zeros(WINDOW_SIZE as nat), stream)) == fingerprint(
            if stream.len() <= WINDOW_SIZE {
                stream
            } else {
                stream.skip(stream.len() - WINDOW_SIZE)
            },
        ),
{
    let fresh = zeros(WINDOW_SIZE as nat);
    if stream.len() <= WINDOW_SIZE {
        lemma_short_input_is_padded(stream);
        lemma_fingerprint_leading_zeros((WINDOW_SIZE - stream.len()) as nat, stream);
    } else {
        assert(slide(fresh, stream) =~= stream.skip(stream.len() - WINDOW_SIZE));
    }
}

/// A hash that was reset and a new hash cannot be told apart: both start
/// from the window of zero bytes, so the same bytes lead both to the same
/// window and the same value.
pub proof fn lemma_reset_is_new(after_reset: Seq<u8>, new: Seq<u8>, bytes: Seq<u8>)
    requires
        after_reset == zeros(WINDOW_SIZE as nat),
        new == zeros(WINDOW_SIZE as nat),
    ensures
        slide(after_reset, bytes) == slide(new, bytes),
        fingerprint(slide(after_reset, bytes)) == fingerprint(slide(new, bytes)),
{
}

/// Hashing a buffer of at least a window, from any state, is resetting and
/// hashing its last sixteen bytes.
pub proof fn lemma_hash_bytes_from_tail(window: Seq<u8>, bytes: Seq<u8>)
    requires
        window.len() == WINDOW_SIZE,
        bytes.len() >= WINDOW_SIZE,
    ensures
        slide(window, bytes) == slide(
            zeros(WINDOW_SIZE as nat),
            bytes.skip(bytes.len() - WINDOW_SIZE),
        ),
{
    assert(slide(window, bytes) =~= slide(
        zeros(WINDOW_SIZE as nat),
        bytes.skip(bytes.len() - WINDOW_SIZE),
    ));
}

/// Two buffers whose last sixteen bytes are the same have the same hash,
/// each hashed from a fresh state.
pub proof fn lemma_same_tail_same_hash(a: Seq<u8>, b: Seq<u8>)
    requires
        a.len() >= WINDOW_SIZE,
        b.len() >= WINDOW_SIZE,
        a.skip(a.len() - WINDOW_SIZE) == b.skip(b.len() - WINDOW_SIZE),
    ensures
        fingerprint(slide(zeros(WINDOW_SIZE as nat), a)) == fingerprint(
            slide(zeros(WINDOW_SIZE as nat), b),
        ),
{
    lemma_hash_covers_tail(a);
    lemma_hash_covers_tail(b);
    let fresh = zeros(WINDOW_SIZE as nat);
    assert(slide(fresh, a) =~= a.skip(a.len() - WINDOW_SIZE));
    assert(slide(fresh, b) =~= b.skip(b.len() - WINDOW_SIZE));
}

} // verus!
