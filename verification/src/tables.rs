//! The two transition tables of the rolling hash.
//!
//! Each table has one 64-bit entry for every byte value. The entries are
//! fixed by the irreducible polynomial and the window size alone; they are
//! computed when the tables are made and never change afterwards.

use vstd::prelude::*;
use crate::polynomial::shift_left_n_bits_with_mod_64;
use crate::fingerprint::{push_entry, pop_entry};

verus! {

/// The number of entries in each table: one for every byte value.
pub const TABLE_SIZE: usize = 256;

/// The number of bits in a byte.
pub const BITS_PER_BYTE: u8 = 8;

/// The number of bits in the window: sixteen bytes of eight bits.
pub const BITS_PER_WINDOW: u8 = 128;

/// The push table and the pop table.
pub struct TransitionTables {
    push: [u64; 256],
    pop: [u64; 256],
}

/// The entries that the push table must hold, in the order of the byte
/// values.
pub open spec fn push_entries() -> Seq<u64> {
    Seq::new(TABLE_SIZE as nat, |b: int| push_entry(b as u8))
}

/// The entries that the pop table must hold, in the order of the byte values.
pub open spec fn pop_entries() -> Seq<u64> {
    Seq::new(TABLE_SIZE as nat, |b: int| pop_entry(b as u8))
}

impl TransitionTables {
    /// The entries of the push table.
    pub closed spec fn push_table(&self) -> Seq<u64> {
        self.push@
    }

    /// The entries of the pop table.
    pub closed spec fn pop_table(&self) -> Seq<u64> {
        self.pop@
    }

    #[verifier::type_invariant]
    spec fn filled(&self) -> bool {
        forall|b: u8|
            #![trigger push_entry(b)]
            #![trigger pop_entry(b)]
            self.push@[b as int] == push_entry(b) && self.pop@[b as int] == pop_entry(b)
    }

    /// Computes both tables from the polynomial.
    pub fn new() -> (tables: TransitionTables)
        ensures
            tables.push_table() == push_entries(),
            tables.pop_table() == pop_entries(),
    {
        let mut push = [0u64; 256];
        let mut pop = [0u64; 256];
        let mut i: usize = 0;
        while i < TABLE_SIZE
            invariant
                i <= TABLE_SIZE,
                forall|b: u8|
                    #![trigger push_entry(b)]
                    #![trigger pop_entry(b)]
                    (b as int) < i ==> push@[b as int] == push_entry(b) && pop@[b as int]
                        == pop_entry(b),
            decreases TABLE_SIZE - i,
        {
            let byte = i as u64;
            push[i] = shift_left_n_bits_with_mod_64(byte << 56, BITS_PER_BYTE);
            pop[i] = shift_left_n_bits_with_mod_64(byte, BITS_PER_WINDOW);
            i = i + 1;
        }
        proof {
            assert forall|i: int| 0 <= i < TABLE_SIZE implies push@[i] == #[trigger] push_entries()[i]
                && pop@[i] == pop_entries()[i] by {
                let b = i as u8;
                assert(push@[b as int] == push_entry(b) && pop@[b as int] == pop_entry(b));
            }
            assert(push@ =~= push_entries());
            assert(pop@ =~= pop_entries());
        }
        TransitionTables { push, pop }
    }

    /// The push table's entry for `top`.
    pub fn push(&self, top: u8) -> (entry: u64)
        ensures
            entry == push_entry(top),
            entry == self.push_table()[top as int],
    {
        proof {
            use_type_invariant(self);
        }
        self.push[top as usize]
    }

    /// The pop table's entry for `old`.
    pub fn pop(&self, old: u8) -> (entry: u64)
        ensures
            entry == pop_entry(old),
            entry == self.pop_table()[old as int],
    {
        proof {
            use_type_invariant(self);
        }
        self.pop[old as usize]
    }
}

} // verus!
