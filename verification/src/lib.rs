//! Content-defined chunking of byte buffers with a Rabin rolling hash.
//!
//! The core has two layers. [`rolling_hash::RollingHash`] is a 64-bit Rabin
//! fingerprint over a sliding window of sixteen bytes; [`chunker::Chunker`]
//! cuts a buffer into variable-length chunks at positions picked by that
//! fingerprint. [`polynomial`], [`fingerprint`] and [`tables`] hold the
//! arithmetic behind the hash, and [`segmentation`] states where a buffer is
//! cut and what holds of the chunks.
//!
//! Around the core stands what a survey of a directory needs to tell how
//! well its files deduplicate: [`digest`] names a chunk by its SHA-3 digest,
//! [`entries`] and [`statistics`] keep count of the chunks seen, [`survey`]
//! cuts a file in either of two ways, and [`memory`] reads the memory budget.

pub mod polynomial;
pub mod fingerprint;
pub mod tables;
pub mod rolling_hash;
pub mod segmentation;
pub mod chunker;
pub mod digest;
pub mod entries;
pub mod statistics;
pub mod survey;
pub mod memory;

pub use digest::{ExtendableHashExt, hash_chunk_sha256};
