//! Chunk identities: cryptographic digests of a chunk, cut to a key length.
//!
//! A deduplicating store names a chunk by its SHA-3 digest. To save space it
//! keeps only the front of the digest, at the price of a greater chance that
//! two chunks share a name. The whole digest is always computed first, and
//! the key is its leading bytes.

use vstd::prelude::*;
use sha3::Digest;

verus! {

/// The number of bytes in a SHA-256 or SHA3-256 digest.
pub const DIGEST_LEN: usize = 32;

/// SHA-3's hasher with an output of 256 bits, from the crate `sha3`. Nothing
/// inside it is visible here.
#[verifier::external_type_specification]
#[verifier::external_body]
pub struct ExSha3_256(sha3::Sha3_256);

/// SHA-2's hasher with an output of 256 bits, from the crate `sha2`. Nothing
/// inside it is visible here.
#[verifier::external_type_specification]
#[verifier::external_body]
pub struct ExSha256(sha2::Sha256);

/// The SHA3-256 digest of `data`, as `sha3::Sha3_256` computes it.
pub uninterp spec fn sha3_256(data: Seq<u8>) -> Seq<u8>;

/// The SHA-256 digest of `data`, as `sha2::Sha256` computes it.
pub uninterp spec fn sha256(data: Seq<u8>) -> Seq<u8>;

/// The bytes that `hasher` has taken in since it was made or last reset.
pub uninterp spec fn sha3_absorbed(hasher: sha3::Sha3_256) -> Seq<u8>;

/// The bytes that `hasher` has taken in since it was made.
pub uninterp spec fn sha256_absorbed(hasher: sha2::Sha256) -> Seq<u8>;

/// `Digest::input` of `sha3::Sha3_256`. The hasher takes in `data`, after
/// whatever it had taken in before.
#[verifier::external_body]
fn sha3_input(hasher: &mut sha3::Sha3_256, data: &[u8])
    ensures
        sha3_absorbed(*final(hasher)) == sha3_absorbed(*old(hasher)) + data@,
{
    hasher.input(data);
}

/// `Digest::result_reset` of `sha3::Sha3_256`. It returns the digest of all
/// that the hasher has taken in, and leaves the hasher as a new one.
#[verifier::external_body]
fn sha3_result_reset(hasher: &mut sha3::Sha3_256) -> (digest: [u8; 32])
    ensures
        digest@ == sha3_256(sha3_absorbed(*old(hasher))),
        sha3_absorbed(*final(hasher)) == Seq::<u8>::empty(),
{
    hasher.result_reset().into()
}

/// `Digest::new` of `sha2::Sha256`. A new hasher has taken in nothing.
#[verifier::external_body]
fn sha256_new() -> (hasher: sha2::Sha256)
    ensures
        sha256_absorbed(hasher) == Seq::<u8>::empty(),
{
    sha2::Sha256::new()
}

/// `Digest::input` of `sha2::Sha256`, for a hasher that has taken in nothing
/// yet: it takes in `data`. (The hasher adds up the bits that it has taken
/// in; only the first sum is sure not to overflow.)
#[verifier::external_body]
fn sha256_input(hasher: &mut sha2::Sha256, data: &[u8])
    requires
        sha256_absorbed(*old(hasher)).len() == 0,
    ensures
        sha256_absorbed(*final(hasher)) == data@,
{
    hasher.input(data);
}

/// `Digest::result` of `sha2::Sha256`. It uses the hasher up and returns the
/// digest of all that the hasher has taken in.
#[verifier::external_body]
fn sha256_result(hasher: sha2::Sha256) -> (digest: [u8; 32])
    ensures
        digest@ == sha256(sha256_absorbed(hasher)),
{
    hasher.result().into()
}

/// The first `N` bytes of a digest.
pub fn leading_bytes<const N: usize>(digest: &[u8; 32]) -> (key: [u8; N])
    requires
        N <= DIGEST_LEN,
    ensures
        key@ == digest@.take(N as int),
{
    let mut key = [0u8; N];
    let mut i: usize = 0;
    while i < N
        invariant
            i <= N <= DIGEST_LEN,
            forall|j: int| 0 <= j < i ==> key@[j] == digest@[j],
        decreases N - i,
    {
        key[i] = digest[i];
        i = i + 1;
    }
    assert(key@ =~= digest@.take(N as int));
    key
}

/// The number that four bytes spell, the first byte being the most
/// significant.
pub open spec fn big_endian_u32(bytes: Seq<u8>) -> int {
    bytes[0] * 0x100_0000 + bytes[1] * 0x1_0000 + bytes[2] * 0x100 + bytes[3]
}

/// The first four bytes of a digest as one number, the first byte being the
/// most significant.
pub fn leading_u32(digest: &[u8; 32]) -> (check: u32)
    ensures
        check == big_endian_u32(digest@),
{
    let b0 = digest[0];
    let b1 = digest[1];
    let b2 = digest[2];
    let b3 = digest[3];
    assert((b0 as u32) << 24 | (b1 as u32) << 16 | (b2 as u32) << 8 | (b3 as u32) == b0 * 0x100_0000
        + b1 * 0x1_0000 + b2 * 0x100 + b3) by (bit_vector);
    (b0 as u32) << 24 | (b1 as u32) << 16 | (b2 as u32) << 8 | (b3 as u32)
}

/// The SHA-256 digest of `chunk`.
pub fn hash_chunk_sha256(chunk: &[u8]) -> (output: [u8; 32])
    ensures
        output@ == sha256(chunk@),
{
    let mut hasher = sha256_new();
    sha256_input(&mut hasher, chunk);
    sha256_result(hasher)
}

/// A short check value for `chunk`: the first four bytes of its SHA-256
/// digest. SHA-2 and SHA-3 being unrelated, two different chunks that share
/// a SHA-3 key are very unlikely to share this value too.
pub fn sha2_check(chunk: &[u8]) -> (check: u32)
    ensures
        check == big_endian_u32(sha256(chunk@)),
{
    let hash = hash_chunk_sha256(chunk);
    leading_u32(&hash)
}

/// Lets a hasher name a chunk by part of its digest alone. A shorter key is
/// more likely to be shared by two chunks.
pub trait ExtendableHashExt {
    /// The bytes that the hasher has taken in since it was made or last reset.
    spec fn absorbed(&self) -> Seq<u8>;

    /// The whole digest that the hasher computes of `data`.
    spec fn full_digest(data: Seq<u8>) -> Seq<u8>;

    /// Takes in `chunk` and returns the first 112 bits of the digest.
    fn hash_chunk_112(&mut self, chunk: &[u8]) -> (hash: [u8; 14])
        ensures
            hash@ == Self::full_digest(old(self).absorbed() + chunk@).take(14),
            final(self).absorbed() == Seq::<u8>::empty(),
    ;

    /// Takes in `chunk` and returns the first 128 bits of the digest.
    fn hash_chunk_128(&mut self, chunk: &[u8]) -> (hash: [u8; 16])
        ensures
            hash@ == Self::full_digest(old(self).absorbed() + chunk@).take(16),
            final(self).absorbed() == Seq::<u8>::empty(),
    ;

    /// Takes in `chunk` and returns the first 144 bits of the digest.
    fn hash_chunk_144(&mut self, chunk: &[u8]) -> (hash: [u8; 18])
        ensures
            hash@ == Self::full_digest(old(self).absorbed() + chunk@).take(18),
            final(self).absorbed() == Seq::<u8>::empty(),
    ;

    /// Takes in `chunk` and returns the first 160 bits of the digest.
    fn hash_chunk_160(&mut self, chunk: &[u8]) -> (hash: [u8; 20])
        ensures
            hash@ == Self::full_digest(old(self).absorbed() + chunk@).take(20),
            final(self).absorbed() == Seq::<u8>::empty(),
    ;
}

// Each of these computes the full SHA3-256 value and then keeps its front.
impl ExtendableHashExt for sha3::Sha3_256 {
    open spec fn absorbed(&self) -> Seq<u8> {
        sha3_absorbed(*self)
    }

    open spec fn full_digest(data: Seq<u8>) -> Seq<u8> {
        sha3_256(data)
    }

    fn hash_chunk_112(&mut self, chunk: &[u8]) -> (hash: [u8; 14]) {
        sha3_input(self, chunk);
        let out = sha3_result_reset(self);
        leading_bytes::<14>(&out)
    }

    fn hash_chunk_128(&mut self, chunk: &[u8]) -> (hash: [u8; 16]) {
        sha3_input(self, chunk);
        let out = sha3_result_reset(self);
        leading_bytes::<16>(&out)
    }

    fn hash_chunk_144(&mut self, chunk: &[u8]) -> (hash: [u8; 18]) {
        sha3_input(self, chunk);
        let out = sha3_result_reset(self);
        leading_bytes::<18>(&out)
    }

    fn hash_chunk_160(&mut self, chunk: &[u8]) -> (hash: [u8; 20]) {
        sha3_input(self, chunk);
        let out = sha3_result_reset(self);
        leading_bytes::<20>(&out)
    }
}

} // verus!
