//! Where a buffer is cut: the rule that the chunker follows, as a function
//! of the bytes and the two size bounds, and what holds of the chunks that it
//! yields.

use vstd::prelude::*;
use crate::fingerprint::{WINDOW_SIZE, fingerprint, zeros, slide};

verus! {

/// A hash with these eleven low bits set marks a primary boundary.
pub const PRIMARY_BITMASK: u64 = 2047;

/// A hash with these ten low bits set marks a secondary boundary.
pub const SECONDARY_BITMASK: u64 = 1023;

/// Whether `hash` marks a primary boundary.
pub open spec fn is_primary(hash: u64) -> bool {
    hash & PRIMARY_BITMASK == PRIMARY_BITMASK
}

/// Whether `hash` marks a secondary boundary.
pub open spec fn is_secondary(hash: u64) -> bool {
    hash & SECONDARY_BITMASK == SECONDARY_BITMASK
}

/// The hash that the scan of `rem` sees at index `i`: the fingerprint of the
/// window that ends with `rem[i]`, with zero bytes before the start of `rem`.
pub open spec fn hash_at(rem: Seq<u8>, i: int) -> u64 {
    fingerprint(slide(zeros(WINDOW_SIZE as nat), rem.take(i + 1)))
}

/// The least index in `lo..hi` at which the scan of `rem` sees a primary
/// boundary, or `hi` where it sees none.
pub open spec fn first_primary(rem: Seq<u8>, lo: int, hi: int) -> int
    decreases hi - lo,
{
    if lo >= hi {
        hi
    } else if is_primary(hash_at(rem, lo)) {
        lo
    } else {
        first_primary(rem, lo + 1, hi)
    }
}

/// The greatest index in `lo..hi` at which the scan of `rem` sees a secondary
/// boundary, or 0 where it sees none.
pub open spec fn last_secondary(rem: Seq<u8>, lo: int, hi: int) -> int
    decreases hi - lo,
{
    if lo >= hi {
        0
    } else if is_secondary(hash_at(rem, hi - 1)) {
        hi - 1
    } else {
        last_secondary(rem, lo, hi - 1)
    }
}

/// Where the scan of `rem` stops: at `max`, or at the end of `rem` if that
/// comes first.
pub open spec fn scan_end(rem: Seq<u8>, max: int) -> int {
    if max < rem.len() {
        max
    } else {
        rem.len() as int
    }
}

/// The length of the first chunk of `rem`.
///
/// Fewer than `min` bytes make one chunk. Otherwise the indices from `min`
/// up to the scan's end are candidates: the first primary boundary among
/// them wins, then the last secondary boundary, then the scan's end.
pub open spec fn chunk_len(rem: Seq<u8>, min: int, max: int) -> int {
    let end = scan_end(rem, max);
    if rem.len() < min {
        rem.len() as int
    } else if first_primary(rem, min, end) < end {
        first_primary(rem, min, end)
    } else if last_secondary(rem, min, end) != 0 {
        last_secondary(rem, min, end)
    } else {
        end
    }
}

/// The chunks of `buf`, in order: the first chunk, then the chunks of what
/// follows it.
pub open spec fn chunks(buf: Seq<u8>, min: int, max: int) -> Seq<Seq<u8>>
    decreases buf.len(),
    when 0 < min <= max
    via chunks_terminates
{
    if buf.len() == 0 {
        Seq::empty()
    } else {
        let len = chunk_len(buf, min, max);
        seq![buf.take(len)] + chunks(buf.skip(len), min, max)
    }
}

#[via_fn]
proof fn chunks_terminates(buf: Seq<u8>, min: int, max: int) {
    if buf.len() > 0 {
        lemma_chunk_len_bounds(buf, min, max);
    }
}

/// What [`first_primary`] returns lies in `lo..=hi`, is a primary boundary
/// unless it is `hi`, and no index of the range before it is one.
pub proof fn lemma_first_primary(rem: Seq<u8>, lo: int, hi: int)
    requires
        lo <= hi,
    ensures
        lo <= first_primary(rem, lo, hi) <= hi,
        first_primary(rem, lo, hi) < hi ==> is_primary(hash_at(rem, first_primary(rem, lo, hi))),
        forall|j: int|
            lo <= j < first_primary(rem, lo, hi) ==> !is_primary(#[trigger] hash_at(rem, j)),
    decreases hi - lo,
{
    if lo < hi && !is_primary(hash_at(rem, lo)) {
        lemma_first_primary(rem, lo + 1, hi);
    }
}

/// What [`last_secondary`] returns is 0 or lies in `lo..hi`; in the second
/// case it is a secondary boundary. No index of the range after it is one.
pub proof fn lemma_last_secondary(rem: Seq<u8>, lo: int, hi: int)
    requires
        0 < lo,
    ensures
        last_secondary(rem, lo, hi) == 0 || lo <= last_secondary(rem, lo, hi) < hi,
        last_secondary(rem, lo, hi) != 0 ==> is_secondary(
            hash_at(rem, last_secondary(rem, lo, hi)),
        ),
        forall|j: int|
            lo <= j < hi && last_secondary(rem, lo, hi) < j ==> !is_secondary(
                #[trigger] hash_at(rem, j),
            ),
    decreases hi - lo,
{
    if lo < hi && !is_secondary(hash_at(rem, hi - 1)) {
        lemma_last_secondary(rem, lo, hi - 1);
    }
}

/// A chunk is never empty and never longer than `max`; it is shorter than
/// `min` only where fewer than `min` bytes were left.
pub proof fn lemma_chunk_len_bounds(rem: Seq<u8>, min: int, max: int)
    requires
        0 < min <= max,
        rem.len() > 0,
    ensures
        0 < chunk_len(rem, min, max) <= rem.len(),
        chunk_len(rem, min, max) <= max,
        rem.len() < min ==> chunk_len(rem, min, max) == rem.len(),
        rem.len() >= min ==> chunk_len(rem, min, max) >= min,
{
    if rem.len() >= min {
        let end = scan_end(rem, max);
        lemma_first_primary(rem, min, end);
        lemma_last_secondary(rem, min, end);
    }
}

/// A primary boundary is also a secondary one.
pub proof fn lemma_primary_is_secondary(hash: u64)
    ensures
        is_primary(hash) ==> is_secondary(hash),
{
    assert(hash & 2047 == 2047 ==> hash & 1023 == 1023) by (bit_vector);
}

/// The hash that the scan sees at an index depends on the bytes up to that
/// index alone.
pub proof fn lemma_hash_at_prefix(a: Seq<u8>, b: Seq<u8>, n: int, i: int)
    requires
        0 <= i < n <= a.len(),
        n <= b.len(),
        a.take(n) == b.take(n),
    ensures
        hash_at(a, i) == hash_at(b, i),
{
    assert(a.take(i + 1) =~= a.take(n).take(i + 1));
    assert(b.take(i + 1) =~= b.take(n).take(i + 1));
}

/// Two buffers that agree on their first `n` bytes have the same first
/// primary boundary in any range that ends by `n`.
pub proof fn lemma_first_primary_prefix(a: Seq<u8>, b: Seq<u8>, n: int, lo: int, hi: int)
    requires
        0 <= lo,
        hi <= n <= a.len(),
        n <= b.len(),
        a.take(n) == b.take(n),
    ensures
        first_primary(a, lo, hi) == first_primary(b, lo, hi),
    decreases hi - lo,
{
    if lo < hi {
        lemma_hash_at_prefix(a, b, n, lo);
        lemma_first_primary_prefix(a, b, n, lo + 1, hi);
    }
}

/// Two buffers that agree on their first `n` bytes have the same last
/// secondary boundary in any range that ends by `n`.
pub proof fn lemma_last_secondary_prefix(a: Seq<u8>, b: Seq<u8>, n: int, lo: int, hi: int)
    requires
        0 <= lo,
        hi <= n <= a.len(),
        n <= b.len(),
        a.take(n) == b.take(n),
    ensures
        last_secondary(a, lo, hi) == last_secondary(b, lo, hi),
    decreases hi - lo,
{
    if lo < hi {
        lemma_hash_at_prefix(a, b, n, hi - 1);
        lemma_last_secondary_prefix(a, b, n, lo, hi - 1);
    }
}

/// The length of the first chunk depends on the first `max` bytes alone,
/// where there are that many.
pub proof fn lemma_chunk_len_prefix(a: Seq<u8>, b: Seq<u8>, min: int, max: int)
    requires
        0 < min <= max,
        max <= a.len(),
        max <= b.len(),
        a.take(max) == b.take(max),
    ensures
        chunk_len(a, min, max) == chunk_len(b, min, max),
{
    lemma_first_primary_prefix(a, b, max, min, max);
    lemma_last_secondary_prefix(a, b, max, min, max);
}

/// The chunks of a buffer, laid end to end, are the buffer.
pub proof fn lemma_chunks_concat(buf: Seq<u8>, min: int, max: int)
    requires
        0 < min <= max,
    ensures
        chunks(buf, min, max).flatten() == buf,
    decreases buf.len(),
{
    let all = chunks(buf, min, max);
    if buf.len() == 0 {
        assert(all.flatten() =~= buf);
    } else {
        let len = chunk_len(buf, min, max);
        lemma_chunk_len_bounds(buf, min, max);
        lemma_chunks_concat(buf.skip(len), min, max);
        assert(all.first() == buf.take(len));
        assert(all.drop_first() =~= chunks(buf.skip(len), min, max));
        assert(buf.take(len) + buf.skip(len) =~= buf);
    }
}

/// No chunk is empty or longer than `max`, and every chunk but the last
/// holds at least `min` bytes.
pub proof fn lemma_chunks_sizes(buf: Seq<u8>, min: int, max: int)
    requires
        0 < min <= max,
    ensures
        forall|i: int|
            0 <= i < chunks(buf, min, max).len() ==> 0 < (#[trigger] chunks(
                buf,
                min,
                max,
            )[i]).len() <= max,
        forall|i: int|
            0 <= i < chunks(buf, min, max).len() - 1 ==> min <= (#[trigger] chunks(
                buf,
                min,
                max,
            )[i]).len(),
    decreases buf.len(),
{
    let all = chunks(buf, min, max);
    if buf.len() > 0 {
        let len = chunk_len(buf, min, max);
        let rest = chunks(buf.skip(len), min, max);
        lemma_chunk_len_bounds(buf, min, max);
        lemma_chunks_sizes(buf.skip(len), min, max);
        assert(all =~= seq![buf.take(len)] + rest);
        assert forall|i: int| 0 <= i < all.len() implies 0 < (#[trigger] all[i]).len() <= max by {
            if i > 0 {
                assert(all[i] == rest[i - 1]);
            }
        }
        assert forall|i: int| 0 <= i < all.len() - 1 implies min <= (#[trigger] all[i]).len() by {
            if i > 0 {
                assert(all[i] == rest[i - 1]);
            } else if buf.len() < min {
                assert(buf.skip(len).len() == 0);
                assert(rest.len() == 0);
            }
        }
    }
}

/// An empty buffer has no chunks.
pub proof fn lemma_chunks_of_empty(buf: Seq<u8>, min: int, max: int)
    requires
        0 < min <= max,
        buf.len() == 0,
    ensures
        chunks(buf, min, max) == Seq::<Seq<u8>>::empty(),
{
}

/// A buffer with some bytes, but no more than `min`, is one chunk.
pub proof fn lemma_chunks_of_short(buf: Seq<u8>, min: int, max: int)
    requires
        0 < min <= max,
        0 < buf.len() <= min,
    ensures
        chunks(buf, min, max) == seq![buf],
{
    let len = chunk_len(buf, min, max);
    lemma_chunk_len_bounds(buf, min, max);
    assert(len == buf.len());
    assert(buf.take(len) =~= buf);
    assert(buf.skip(len).len() == 0);
    assert(chunks(buf.skip(len), min, max) =~= Seq::<Seq<u8>>::empty());
    assert(chunks(buf, min, max) =~= seq![buf]);
}

/// A buffer of `max + 1` bytes in which the scan sees no secondary boundary,
/// and so no primary one either, is cut into `max` bytes and one byte.
pub proof fn lemma_chunks_without_boundary(buf: Seq<u8>, min: int, max: int)
    requires
        0 < min <= max,
        buf.len() == max + 1,
        forall|j: int| min <= j < max ==> !is_secondary(#[trigger] hash_at(buf, j)),
    ensures
        chunks(buf, min, max) == seq![buf.take(max), buf.skip(max)],
{
    assert forall|j: int| min <= j < max implies !is_primary(#[trigger] hash_at(buf, j)) by {
        lemma_primary_is_secondary(hash_at(buf, j));
    }
    lemma_first_primary(buf, min, max);
    lemma_last_secondary(buf, min, max);
    assert(chunk_len(buf, min, max) == max);
    let rest = buf.skip(max);
    lemma_chunk_len_bounds(rest, min, max);
    assert(chunk_len(rest, min, max) == 1);
    assert(rest.take(1) =~= rest);
    assert(rest.skip(1).len() == 0);
    assert(chunks(rest.skip(1), min, max) =~= Seq::<Seq<u8>>::empty());
    assert(chunks(rest, min, max) =~= seq![rest]);
    assert(chunks(buf, min, max) =~= seq![buf.take(max), rest]);
}

/// The chunks depend on the bytes and the two bounds alone: equal inputs
/// give equal chunks, whatever was chunked before.
pub proof fn lemma_chunks_deterministic(
    a: Seq<u8>,
    b: Seq<u8>,
    min_a: int,
    max_a: int,
    min_b: int,
    max_b: int,
)
    requires
        a == b,
        min_a == min_b,
        max_a == max_b,
    ensures
        chunk_len(a, min_a, max_a) == chunk_len(b, min_b, max_b),
        chunks(a, min_a, max_a) == chunks(b, min_b, max_b),
{
}

/// Whether a chunk of `buf` ends at offset `pos`.
pub open spec fn is_boundary(buf: Seq<u8>, min: int, max: int, pos: int) -> bool
    decreases buf.len(),
    when 0 < min <= max
    via is_boundary_terminates
{
    if buf.len() == 0 {
        false
    } else {
        let len = chunk_len(buf, min, max);
        pos == len || (pos > len && is_boundary(buf.skip(len), min, max, pos - len))
    }
}

#[via_fn]
proof fn is_boundary_terminates(buf: Seq<u8>, min: int, max: int, pos: int) {
    if buf.len() > 0 {
        lemma_chunk_len_bounds(buf, min, max);
    }
}

/// Two buffers that agree on their first `p` bytes have the same chunk
/// boundaries at every offset that lies `max` bytes or more before `p`.
pub proof fn lemma_boundaries_before_edit(
    a: Seq<u8>,
    b: Seq<u8>,
    min: int,
    max: int,
    p: int,
    pos: int,
)
    requires
        0 < min <= max,
        0 <= p <= a.len(),
        p <= b.len(),
        a.take(p) == b.take(p),
        pos <= p - max,
    ensures
        is_boundary(a, min, max, pos) == is_boundary(b, min, max, pos),
    decreases a.len(),
{
    if pos <= 0 {
        if a.len() > 0 {
            lemma_chunk_len_bounds(a, min, max);
        }
        if b.len() > 0 {
            lemma_chunk_len_bounds(b, min, max);
        }
    } else {
        assert(a.take(max) =~= a.take(p).take(max));
        assert(b.take(max) =~= b.take(p).take(max));
        lemma_chunk_len_prefix(a, b, min, max);
        lemma_chunk_len_bounds(a, min, max);
        lemma_chunk_len_bounds(b, min, max);
        let len = chunk_len(a, min, max);
        if pos > len {
            assert(a.skip(len).take(p - len) =~= a.take(p).skip(len));
            assert(b.skip(len).take(p - len) =~= b.take(p).skip(len));
            lemma_boundaries_before_edit(a.skip(len), b.skip(len), min, max, p - len, pos - len);
        }
    }
}

} // verus!
