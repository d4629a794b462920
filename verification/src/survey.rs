//! Chunking for a survey of how well a directory deduplicates: each file is
//! cut either at content-defined boundaries or into pieces of one fixed size,
//! so that the two can be held against each other.

use vstd::prelude::*;
use crate::chunker::Chunker;
use crate::segmentation::chunks;

verus! {

/// The least size of a content-defined chunk in a survey.
pub const MIN_CHUNK_SIZE: usize = 1856;

/// The greatest size of a content-defined chunk in a survey.
pub const MAX_CHUNK_SIZE: usize = 11300;

/// The size of the pieces in a survey with fixed sizes.
pub const FIXED_CHUNK_SIZE: usize = 4096;

/// `buf` cut into pieces of `size` bytes. The last piece holds what is
/// left, which may be less.
pub open spec fn fixed_chunks(buf: Seq<u8>, size: int) -> Seq<Seq<u8>>
    decreases buf.len(),
    when size > 0
{
    if buf.len() == 0 {
        Seq::empty()
    } else if buf.len() <= size {
        seq![buf]
    } else {
        seq![buf.take(size)] + fixed_chunks(buf.skip(size), size)
    }
}

/// The pieces of fixed size, laid end to end, are the buffer.
pub proof fn lemma_fixed_chunks_concat(buf: Seq<u8>, size: int)
    requires
        size > 0,
    ensures
        fixed_chunks(buf, size).flatten() == buf,
    decreases buf.len(),
{
    let all = fixed_chunks(buf, size);
    if buf.len() == 0 {
        assert(all.flatten() =~= buf);
    } else if buf.len() <= size {
        all.lemma_flatten_one_element();
    } else {
        lemma_fixed_chunks_concat(buf.skip(size), size);
        assert(all.first() == buf.take(size));
        assert(all.drop_first() =~= fixed_chunks(buf.skip(size), size));
        assert(buf.take(size) + buf.skip(size) =~= buf);
    }
}

/// Every piece but the last holds exactly `size` bytes, and the last one
/// holds at least one byte and at most `size`.
pub proof fn lemma_fixed_chunks_sizes(buf: Seq<u8>, size: int)
    requires
        size > 0,
    ensures
        forall|i: int|
            0 <= i < fixed_chunks(buf, size).len() - 1 ==> (#[trigger] fixed_chunks(
                buf,
                size,
            )[i]).len() == size,
        fixed_chunks(buf, size).len() > 0 ==> 0 < fixed_chunks(buf, size).last().len() <= size,
        buf.len() > 0 ==> fixed_chunks(buf, size).len() > 0,
    decreases buf.len(),
{
    let all = fixed_chunks(buf, size);
    if buf.len() > size {
        let rest = fixed_chunks(buf.skip(size), size);
        lemma_fixed_chunks_sizes(buf.skip(size), size);
        assert(all =~= seq![buf.take(size)] + rest);
        assert(all.last() == rest.last());
        assert forall|i: int| 0 <= i < all.len() - 1 implies (#[trigger] all[i]).len() == size by {
            if i > 0 {
                assert(all[i] == rest[i - 1]);
            }
        }
    }
}

/// Cuts `buf` into pieces of `size` bytes. The last piece holds what is left.
pub fn split_fixed<'a>(buf: &'a [u8], size: usize) -> (pieces: Vec<&'a [u8]>)
    requires
        size > 0,
    ensures
        pieces@.map_values(|piece: &[u8]| piece@) == fixed_chunks(buf@, size as int),
        pieces@.map_values(|piece: &[u8]| piece@).flatten() == buf@,
        forall|i: int| 0 <= i < pieces@.len() - 1 ==> (#[trigger] pieces@[i])@.len() == size,
        pieces@.len() > 0 ==> 0 < pieces@.last()@.len() <= size,
{
    proof {
        lemma_fixed_chunks_concat(buf@, size as int);
        lemma_fixed_chunks_sizes(buf@, size as int);
    }
    let mut pieces: Vec<&'a [u8]> = Vec::new();
    let len = buf.len();
    let mut start: usize = 0;
    assert(buf@.skip(0) =~= buf@);
    while start < len
        invariant
            size > 0,
            start <= len == buf@.len(),
            fixed_chunks(buf@, size as int) == pieces@.map_values(|piece: &[u8]| piece@)
                + fixed_chunks(buf@.skip(start as int), size as int),
        decreases len - start,
    {
        let ghost rest = buf@.skip(start as int);
        let ghost done = pieces@.map_values(|piece: &[u8]| piece@);
        let end = if len - start <= size {
            len
        } else {
            start + size
        };
        let piece = &buf[start..end];
        pieces.push(piece);
        proof {
            assert(piece@ =~= rest.take(end - start));
            assert(buf@.skip(end as int) =~= rest.skip(end - start));
            assert(pieces@.map_values(|piece: &[u8]| piece@) =~= done.push(piece@));
            if len - start <= size {
                assert(rest.take(end - start) =~= rest);
                assert(fixed_chunks(rest.skip(end - start), size as int) =~= Seq::<
                    Seq<u8>,
                >::empty());
            }
            assert(done.push(piece@) + fixed_chunks(buf@.skip(end as int), size as int) =~= done
                + fixed_chunks(rest, size as int));
        }
        start = end;
    }
    proof {
        assert(pieces@.map_values(|piece: &[u8]| piece@) + fixed_chunks(
            buf@.skip(start as int),
            size as int,
        ) =~= pieces@.map_values(|piece: &[u8]| piece@));
        let views = pieces@.map_values(|piece: &[u8]| piece@);
        assert forall|i: int| 0 <= i < pieces@.len() implies (#[trigger] pieces@[i])@
            == views[i] by {}
    }
    pieces
}

/// Cuts the contents of a file for a survey: into pieces of
/// [`FIXED_CHUNK_SIZE`] bytes where `fixed_size` is set, and at
/// content-defined boundaries otherwise.
pub fn chunk_buffer<'a>(buf: &'a [u8], fixed_size: bool) -> (pieces: Vec<&'a [u8]>)
    ensures
        fixed_size ==> pieces@.map_values(|piece: &[u8]| piece@) == fixed_chunks(
            buf@,
            FIXED_CHUNK_SIZE as int,
        ),
        !fixed_size ==> pieces@.map_values(|piece: &[u8]| piece@) == chunks(
            buf@,
            MIN_CHUNK_SIZE as int,
            MAX_CHUNK_SIZE as int,
        ),
{
    if fixed_size {
        split_fixed(buf, FIXED_CHUNK_SIZE)
    } else {
        let chunker = Chunker::new(buf, MIN_CHUNK_SIZE, MAX_CHUNK_SIZE);
        chunker.collect()
    }
}

} // verus!
