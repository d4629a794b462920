//! The counts that a survey of a directory keeps: how many chunks were seen
//! for the first time, how many were seen before, and how many shared a key
//! with a chunk of other content.

use vstd::prelude::*;
use crate::entries::{Entry, EntryData};

verus! {

/// The counts of a survey.
#[derive(Debug, Clone, Copy)]
pub struct Statistics {
    /// The number of chunks whose key was new.
    pub unique_chunks: u32,
    /// The number of chunks whose key, length and check value were seen before.
    pub duplicates: u32,
    /// The bytes in the chunks counted as unique.
    pub unique_chunk_bytes: u64,
    /// The bytes in the chunks counted as duplicates.
    pub duplicate_chunk_bytes: u64,
    /// The number of chunks whose key was seen before with another length or
    /// check value.
    pub collisions: u32,
}

impl Statistics {
    /// The counts before any chunk was seen.
    pub open spec fn zero() -> Statistics {
        Statistics {
            unique_chunks: 0,
            duplicates: 0,
            unique_chunk_bytes: 0,
            duplicate_chunk_bytes: 0,
            collisions: 0,
        }
    }

    /// Whether every count can take in one more chunk of `len` bytes.
    pub open spec fn has_room(self, len: nat) -> bool {
        &&& self.unique_chunks < u32::MAX
        &&& self.duplicates < u32::MAX
        &&& self.collisions < u32::MAX
        &&& self.unique_chunk_bytes + len <= u64::MAX
        &&& self.duplicate_chunk_bytes + len <= u64::MAX
    }

    /// The counts after a chunk of `len` bytes with the data `data`, where
    /// `previous` is what was known under the chunk's key before. An unknown
    /// key makes the chunk unique; a known key with the same data makes it a
    /// duplicate; a known key with other data is a collision.
    pub open spec fn after_chunk(
        self,
        previous: Option<EntryData>,
        data: EntryData,
        len: nat,
    ) -> Statistics {
        match previous {
            None => Statistics {
                unique_chunks: (self.unique_chunks + 1) as u32,
                unique_chunk_bytes: (self.unique_chunk_bytes + len) as u64,
                ..self
            },
            Some(known) => if known == data {
                Statistics {
                    duplicates: (self.duplicates + 1) as u32,
                    duplicate_chunk_bytes: (self.duplicate_chunk_bytes + len) as u64,
                    ..self
                }
            } else {
                Statistics { collisions: (self.collisions + 1) as u32, ..self }
            },
        }
    }

    /// Whether the counts allow for taking back one unique chunk of the size
    /// of `current` and counting it anew.
    pub open spec fn can_merge(self, current: Entry) -> bool {
        &&& self.unique_chunks > 0
        &&& self.unique_chunk_bytes >= current.size
        &&& self.has_room(current.size as nat)
    }

    /// The counts after two sorted runs turned out to hold the same key:
    /// `current` was counted as unique in its run and is no longer; it is a
    /// duplicate of `smallest` if the two agree in all, and a collision
    /// otherwise.
    pub open spec fn after_merge(self, smallest: Entry, current: Entry) -> Statistics {
        let taken_back = Statistics {
            unique_chunks: (self.unique_chunks - 1) as u32,
            unique_chunk_bytes: (self.unique_chunk_bytes - current.size) as u64,
            ..self
        };
        if current.key@ == smallest.key@ && current.size == smallest.size && current.check
            == smallest.check {
            Statistics {
                duplicates: (self.duplicates + 1) as u32,
                duplicate_chunk_bytes: (self.duplicate_chunk_bytes + current.size) as u64,
                ..taken_back
            }
        } else {
            Statistics { collisions: (self.collisions + 1) as u32, ..taken_back }
        }
    }

    /// The counts before any chunk was seen.
    pub fn new() -> (statistics: Statistics)
        ensures
            statistics == Statistics::zero(),
    {
        Statistics {
            unique_chunks: 0,
            duplicates: 0,
            unique_chunk_bytes: 0,
            duplicate_chunk_bytes: 0,
            collisions: 0,
        }
    }

    /// Tests whether every count can take in one more chunk of `len` bytes.
    pub fn check_room(&self, len: usize) -> (room: bool)
        ensures
            room == self.has_room(len as nat),
    {
        self.unique_chunks < u32::MAX && self.duplicates < u32::MAX && self.collisions < u32::MAX
            && len as u64 <= u64::MAX - self.unique_chunk_bytes && len as u64 <= u64::MAX
            - self.duplicate_chunk_bytes
    }

    /// Counts a chunk of `len` bytes with the data `data`. `previous` is what
    /// was known under the chunk's key before.
    pub fn record_chunk(&mut self, previous: Option<EntryData>, data: EntryData, len: usize)
        requires
            old(self).has_room(len as nat),
        ensures
            *final(self) == old(self).after_chunk(previous, data, len as nat),
    {
        match previous {
            None => {
                // Unique chunk, never seen before
                self.unique_chunks = self.unique_chunks + 1;
                self.unique_chunk_bytes = self.unique_chunk_bytes + len as u64;
            },
            Some(known) => {
                if known.same(&data) {
                    // The size of the data and both the SHA2 and SHA3 hashes
                    // match, so the odds of it not being the same chunk are
                    // minuscule.
                    self.duplicates = self.duplicates + 1;
                    self.duplicate_chunk_bytes = self.duplicate_chunk_bytes + len as u64;
                } else {
                    // Something didn't match, so the part of the SHA3 hash
                    // that serves as the key is no good.
                    self.collisions = self.collisions + 1;
                }
            },
        }
    }

    /// Tests whether [`Statistics::merge_duplicate`] can be called for
    /// `current`.
    pub fn check_merge(&self, current: &Entry) -> (room: bool)
        ensures
            room == self.can_merge(*current),
    {
        self.unique_chunks > 0 && self.unique_chunk_bytes >= current.size as u64 && self.check_room(
            current.size as usize,
        )
    }

    /// Counts `current` anew after the head of another sorted run, `smallest`,
    /// turned out to have the same key.
    pub fn merge_duplicate(&mut self, smallest: &Entry, current: &Entry)
        requires
            old(self).can_merge(*current),
        ensures
            *final(self) == old(self).after_merge(*smallest, *current),
    {
        self.unique_chunks = self.unique_chunks - 1;
        self.unique_chunk_bytes = self.unique_chunk_bytes - current.size as u64;
        if current.same(smallest) {
            self.duplicates = self.duplicates + 1;
            self.duplicate_chunk_bytes = self.duplicate_chunk_bytes + current.size as u64;
        } else {
            self.collisions = self.collisions + 1;
        }
    }

    /// The bytes in all chunks counted as unique or as duplicates, where the
    /// sum fits.
    pub fn total_bytes(&self) -> (total: Option<u64>)
        ensures
            total is Some <==> self.duplicate_chunk_bytes + self.unique_chunk_bytes <= u64::MAX,
            total is Some ==> total->0 == self.duplicate_chunk_bytes + self.unique_chunk_bytes,
    {
        self.duplicate_chunk_bytes.checked_add(self.unique_chunk_bytes)
    }

    /// The mean size of a unique chunk, rounded down. There is none before a
    /// unique chunk was counted.
    pub fn bytes_per_chunk(&self) -> (mean: Option<u64>)
        ensures
            mean is Some <==> self.unique_chunks > 0,
            mean is Some ==> mean->0 == self.unique_chunk_bytes / (self.unique_chunks as u64),
    {
        if self.unique_chunks == 0 {
            None
        } else {
            Some(self.unique_chunk_bytes / self.unique_chunks as u64)
        }
    }
}

} // verus!
