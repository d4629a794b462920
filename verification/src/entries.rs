//! What is recorded of each chunk: a key cut from its SHA-3 digest, its
//! length, and a check value cut from its SHA-2 digest.
//!
//! Entries are kept sorted by key. Runs of sorted entries are merged by
//! taking, again and again, the smallest key at the head of any run.

use vstd::prelude::*;
use crate::digest::{
    ExtendableHashExt, sha2_check, sha3_256, sha3_absorbed, sha256, big_endian_u32,
};

verus! {

/// The number of bytes in a key: 144 bits of the SHA-3 digest.
pub const KEY_LEN: usize = 18;

/// The number of bytes that an entry takes in a sorted run.
pub const ENTRY_LEN: usize = 24;

/// What is known of a chunk besides its key.
#[derive(Debug, Clone, Copy)]
pub struct EntryData {
    /// The first four bytes of the chunk's SHA-256 digest.
    pub check: u32,
    /// The length of the chunk, as far as sixteen bits hold it.
    pub size: u16,
}

/// A chunk as it is written to a sorted run.
#[derive(Debug, Clone, Copy)]
pub struct Entry {
    /// The first eighteen bytes of the chunk's SHA3-256 digest.
    pub key: [u8; 18],
    /// The length of the chunk, as far as sixteen bits hold it.
    pub size: u16,
    /// The first four bytes of the chunk's SHA-256 digest.
    pub check: u32,
}

impl EntryData {
    /// Whether two chunks have the same length and the same check value.
    pub fn same(&self, other: &EntryData) -> (same: bool)
        ensures
            same == (*self == *other),
    {
        self.check == other.check && self.size == other.size
    }
}

impl Entry {
    /// The entry of a chunk with this key and these data.
    pub fn new(key: [u8; 18], data: EntryData) -> (entry: Entry)
        ensures
            entry == (Entry { key, size: data.size, check: data.check }),
    {
        Entry { key, size: data.size, check: data.check }
    }

    /// What the entry holds besides its key.
    pub fn data(&self) -> (data: EntryData)
        ensures
            data == (EntryData { check: self.check, size: self.size }),
    {
        EntryData { check: self.check, size: self.size }
    }

    /// Whether two entries have the same key, length and check value.
    pub fn same(&self, other: &Entry) -> (same: bool)
        ensures
            same == (self.key@ == other.key@ && self.size == other.size && self.check
                == other.check),
    {
        keys_equal(&self.key, &other.key) && self.size == other.size && self.check == other.check
    }
}

/// The length of a chunk as an entry holds it: its low sixteen bits.
pub open spec fn recorded_size(len: nat) -> int {
    len as int % 0x1_0000
}

/// Computes the entry of `chunk`: the key from its SHA-3 digest, its length,
/// and the check value from its SHA-2 digest.
pub fn chunk_entry(hasher: &mut sha3::Sha3_256, chunk: &[u8]) -> (entry: Entry)
    ensures
        entry.key@ == sha3_256(sha3_absorbed(*old(hasher)) + chunk@).take(KEY_LEN as int),
        entry.size == recorded_size(chunk@.len()),
        entry.check == big_endian_u32(sha256(chunk@)),
        sha3_absorbed(*final(hasher)) == Seq::<u8>::empty(),
{
    let key = hasher.hash_chunk_144(chunk);
    let check = sha2_check(chunk);
    let len = chunk.len();
    assert(#[verifier::truncate] (len as u16) == len % 0x1_0000) by (bit_vector);
    Entry { key, size: #[verifier::truncate] (len as u16), check }
}

/// Whether `a` and `b` agree before place `i` and `a` has the smaller byte
/// there.
pub open spec fn smaller_at(a: Seq<u8>, b: Seq<u8>, i: int) -> bool {
    0 <= i < a.len() && i < b.len() && a.take(i) == b.take(i) && a[i] < b[i]
}

/// Whether `a` comes before `b` in the order of the sorted runs: at the
/// first place where they differ, `a` has the smaller byte.
pub open spec fn key_less(a: Seq<u8>, b: Seq<u8>) -> bool {
    exists|i: int| smaller_at(a, b, i)
}

/// Whether two keys are the same.
pub fn keys_equal(a: &[u8; 18], b: &[u8; 18]) -> (equal: bool)
    ensures
        equal == (a@ == b@),
{
    let mut i: usize = 0;
    while i < KEY_LEN
        invariant
            i <= KEY_LEN,
            a@.take(i as int) == b@.take(i as int),
        decreases KEY_LEN - i,
    {
        if a[i] != b[i] {
            return false;
        }
        assert(a@.take(i + 1) =~= a@.take(i as int).push(a@[i as int]));
        assert(b@.take(i + 1) =~= b@.take(i as int).push(b@[i as int]));
        i = i + 1;
    }
    assert(a@.take(KEY_LEN as int) =~= a@);
    assert(b@.take(KEY_LEN as int) =~= b@);
    true
}

/// Whether key `a` comes before key `b`.
pub fn key_before(a: &[u8; 18], b: &[u8; 18]) -> (before: bool)
    ensures
        before == key_less(a@, b@),
{
    let mut i: usize = 0;
    while i < KEY_LEN
        invariant
            i <= KEY_LEN,
            a@.take(i as int) == b@.take(i as int),
        decreases KEY_LEN - i,
    {
        if a[i] != b[i] {
            proof {
                lemma_first_difference(a@, b@, i as int);
            }
            return a[i] < b[i];
        }
        assert(a@.take(i + 1) =~= a@.take(i as int).push(a@[i as int]));
        assert(b@.take(i + 1) =~= b@.take(i as int).push(b@[i as int]));
        i = i + 1;
    }
    proof {
        assert(a@.take(KEY_LEN as int) =~= a@);
        assert(b@.take(KEY_LEN as int) =~= b@);
        lemma_key_less_irreflexive(a@);
    }
    false
}

/// Two sequences that agree before `i` and differ at `i` are ordered by
/// their bytes at `i`.
pub proof fn lemma_first_difference(a: Seq<u8>, b: Seq<u8>, i: int)
    requires
        0 <= i < a.len(),
        i < b.len(),
        a.take(i) == b.take(i),
        a[i] != b[i],
    ensures
        key_less(a, b) == (a[i] < b[i]),
{
    if a[i] < b[i] {
        assert(smaller_at(a, b, i));
    } else if key_less(a, b) {
        let j = choose|j: int| smaller_at(a, b, j);
        assert(smaller_at(a, b, j));
        if j < i {
            assert(a.take(i)[j] == a[j]);
            assert(b.take(i)[j] == b[j]);
        } else if i < j {
            assert(a.take(j)[i] == a[i]);
            assert(b.take(j)[i] == b[i]);
        }
    }
}

/// No key comes before itself.
pub proof fn lemma_key_less_irreflexive(a: Seq<u8>)
    ensures
        !key_less(a, a),
{
}

/// Of two different keys of one length, one comes before the other.
pub proof fn lemma_key_less_total(a: Seq<u8>, b: Seq<u8>)
    requires
        a.len() == b.len(),
        a != b,
    ensures
        key_less(a, b) || key_less(b, a),
    decreases a.len(),
{
    let i = first_difference(a, b, 0);
    assert(a.take(0) =~= b.take(0));
    lemma_first_difference_found(a, b, 0);
    lemma_first_difference(a, b, i);
    lemma_first_difference(b, a, i);
}

/// The first place at or after `from` at which `a` and `b` differ, or the
/// length of `a` where there is none.
pub open spec fn first_difference(a: Seq<u8>, b: Seq<u8>, from: int) -> int
    decreases a.len() - from,
{
    if from >= a.len() || from >= b.len() {
        a.len() as int
    } else if a[from] != b[from] {
        from
    } else {
        first_difference(a, b, from + 1)
    }
}

/// Two different sequences of one length that agree before `from` have a
/// first difference at or after it, and agree before that.
pub proof fn lemma_first_difference_found(a: Seq<u8>, b: Seq<u8>, from: int)
    requires
        a.len() == b.len(),
        a != b,
        0 <= from <= a.len(),
        a.take(from) == b.take(from),
    ensures
        from <= first_difference(a, b, from) < a.len(),
        a.take(first_difference(a, b, from)) == b.take(first_difference(a, b, from)),
        a[first_difference(a, b, from)] != b[first_difference(a, b, from)],
    decreases a.len() - from,
{
    if from >= a.len() {
        assert(a.take(from) =~= a);
        assert(b.take(from) =~= b);
    } else if a[from] == b[from] {
        assert(a.take(from + 1) =~= a.take(from).push(a[from]));
        assert(b.take(from + 1) =~= b.take(from).push(b[from]));
        lemma_first_difference_found(a, b, from + 1);
    }
}

/// The order of keys is transitive.
pub proof fn lemma_key_less_transitive(a: Seq<u8>, b: Seq<u8>, c: Seq<u8>)
    requires
        key_less(a, b),
        key_less(b, c),
    ensures
        key_less(a, c),
{
    let i = choose|i: int| smaller_at(a, b, i);
    let j = choose|j: int| smaller_at(b, c, j);
    let k = if i <= j {
        i
    } else {
        j
    };
    assert(a.take(k) =~= a.take(i).take(k));
    assert(b.take(k) =~= b.take(i).take(k));
    assert(b.take(k) =~= b.take(j).take(k));
    assert(c.take(k) =~= c.take(j).take(k));
    if i < j {
        assert(b.take(j)[i] == c.take(j)[i]);
    } else if j < i {
        assert(a.take(i)[j] == b.take(i)[j]);
    }
    assert(smaller_at(a, c, k));
}

/// Finds the run whose head has the smallest key. Where several heads share
/// that key, it is the first of them. `None` means that every run is used up.
pub fn smallest_entry(heads: &[Option<Entry>]) -> (smallest: Option<usize>)
    ensures
        smallest is None <==> (forall|i: int| 0 <= i < heads@.len() ==> heads@[i] is None),
        smallest matches Some(s) ==> {
            &&& s < heads@.len()
            &&& heads@[s as int] is Some
            &&& forall|i: int|
                0 <= i < heads@.len() && heads@[i] is Some ==> {
                    ||| (#[trigger] heads@[i])->0.key@ == heads@[s as int]->0.key@
                    ||| key_less(heads@[s as int]->0.key@, heads@[i]->0.key@)
                }
            &&& forall|i: int|
                0 <= i < s && heads@[i] is Some ==> key_less(
                    heads@[s as int]->0.key@,
                    (#[trigger] heads@[i])->0.key@,
                )
        },
{
    let mut smallest: Option<usize> = None;
    let mut i: usize = 0;
    while i < heads.len()
        invariant
            i <= heads@.len(),
            smallest is None <==> (forall|j: int| 0 <= j < i ==> heads@[j] is None),
            smallest matches Some(s) ==> {
                &&& s < i
                &&& heads@[s as int] is Some
                &&& forall|j: int|
                    0 <= j < i && heads@[j] is Some ==> !key_less(
                        (#[trigger] heads@[j])->0.key@,
                        heads@[s as int]->0.key@,
                    )
                &&& forall|j: int|
                    0 <= j < s && heads@[j] is Some ==> (#[trigger] heads@[j])->0.key@
                        != heads@[s as int]->0.key@
            },
        decreases heads@.len() - i,
    {
        match (smallest, &heads[i]) {
            (_, None) => {},
            (None, Some(_)) => {
                proof {
                    lemma_key_less_irreflexive(heads@[i as int]->0.key@);
                }
                smallest = Some(i);
            },
            (Some(s), Some(right)) => {
                let left = heads[s].as_ref().unwrap();
                if key_before(&right.key, &left.key) {
                    proof {
                        let new = right.key@;
                        let old = left.key@;
                        lemma_key_less_irreflexive(new);
                        assert forall|j: int| 0 <= j < i && heads@[j] is Some implies !key_less(
                            (#[trigger] heads@[j])->0.key@,
                            new,
                        ) && heads@[j]->0.key@ != new by {
                            if key_less(heads@[j]->0.key@, new) {
                                lemma_key_less_transitive(heads@[j]->0.key@, new, old);
                            }
                        }
                    }
                    smallest = Some(i);
                }
            },
        }
        i = i + 1;
    }
    proof {
        if let Some(s) = smallest {
            let least = heads@[s as int]->0.key@;
            assert forall|i: int| 0 <= i < heads@.len() && heads@[i] is Some implies {
                ||| (#[trigger] heads@[i])->0.key@ == least
                ||| key_less(least, heads@[i]->0.key@)
            } by {
                if heads@[i]->0.key@ != least {
                    lemma_key_less_total(least, heads@[i]->0.key@);
                }
            }
        }
    }
    smallest
}

/// Finds the runs after `smallest` whose heads have the key of the head of
/// `smallest`, in rising order.
pub fn duplicates_of(heads: &[Option<Entry>], smallest: usize) -> (places: Vec<usize>)
    requires
        smallest < heads@.len(),
        heads@[smallest as int] is Some,
    ensures
        forall|k: int|
            0 <= k < places@.len() ==> {
                &&& smallest < (#[trigger] places@[k]) < heads@.len()
                &&& heads@[places@[k] as int] is Some
                &&& heads@[places@[k] as int]->0.key@ == heads@[smallest as int]->0.key@
            },
        forall|k: int, l: int| 0 <= k < l < places@.len() ==> places@[k] < places@[l],
        forall|i: int|
            smallest < i < heads@.len() && (#[trigger] heads@[i]) is Some && heads@[i]->0.key@
                == heads@[smallest as int]->0.key@ ==> places@.contains(i as usize),
{
    let key = heads[smallest].as_ref().unwrap().key;
    let mut places: Vec<usize> = Vec::new();
    let mut i: usize = smallest + 1;
    while i < heads.len()
        invariant
            smallest < i <= heads@.len(),
            key == heads@[smallest as int]->0.key,
            forall|k: int|
                0 <= k < places@.len() ==> {
                    &&& smallest < (#[trigger] places@[k]) < i
                    &&& heads@[places@[k] as int] is Some
                    &&& heads@[places@[k] as int]->0.key@ == key@
                },
            forall|k: int, l: int| 0 <= k < l < places@.len() ==> places@[k] < places@[l],
            forall|j: int|
                smallest < j < i && (#[trigger] heads@[j]) is Some && heads@[j]->0.key@ == key@
                    ==> places@.contains(j as usize),
        decreases heads@.len() - i,
    {
        let ghost before = places@;
        let found = match &heads[i] {
            Some(current) => keys_equal(&current.key, &key),
            None => false,
        };
        if found {
            places.push(i);
            proof {
                assert(places@[before.len() as int] == i);
                assert forall|j: int|
                    smallest < j < i + 1 && (#[trigger] heads@[j]) is Some && heads@[j]->0.key@
                        == key@ implies places@.contains(j as usize) by {
                    if j < i {
                        let k = choose|k: int| 0 <= k < before.len() && before[k] == j as usize;
                        assert(places@[k] == j as usize);
                    }
                }
            }
        }
        i = i + 1;
    }
    places
}

} // verus!
