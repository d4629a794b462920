//! Arithmetic in GF(2)[x] modulo `x^64 + x^4 + x^3 + x + 1`.
//!
//! A `u64` stands for a polynomial of degree below 64 over GF(2): bit `i` is
//! the coefficient of `x^i`. Addition is XOR. Multiplying by `x` is a left
//! shift by one bit, followed by a reduction when the shift carried a term
//! `x^64` out of the word.

use vstd::prelude::*;

verus! {

/// The low 64 bits of the modulus `x^64 + x^4 + x^3 + x + 1`. The leading
/// term is implied and never stored.
pub const IRREDUCIBLE_POLYNOMIAL: u64 = 0x1B;

/// The top bit of a word: the coefficient of `x^63`.
pub const TOP_BIT: u64 = 0x8000_0000_0000_0000;

/// `v * x` modulo the polynomial.
pub open spec fn times_x(v: u64) -> u64 {
    if v & TOP_BIT == TOP_BIT {
        (v << 1) ^ IRREDUCIBLE_POLYNOMIAL
    } else {
        v << 1
    }
}

/// `v * x^n` modulo the polynomial: `n` single-bit shifts, each one reduced.
pub open spec fn shl_mod(v: u64, n: nat) -> u64
    decreases n,
{
    if n == 0 {
        v
    } else {
        times_x(shl_mod(v, (n - 1) as nat))
    }
}

/// Shifts `number` left by `n` bits in GF(2), reducing modulo the polynomial
/// at each bit.
pub fn shift_left_n_bits_with_mod_64(number: u64, n: u8) -> (shifted: u64)
    ensures
        shifted == shl_mod(number, n as nat),
{
    let mut number = number;
    let ghost start = number;
    let mut i: u8 = 0;
    while i < n
        invariant
            i <= n,
            number == shl_mod(start, i as nat),
        decreases n - i,
    {
        let needs_mod = number & TOP_BIT == TOP_BIT;
        number = number << 1;
        if needs_mod {
            number = number ^ IRREDUCIBLE_POLYNOMIAL;
        }
        i = i + 1;
    }
    number
}

/// The zero polynomial stays zero under any shift.
pub proof fn lemma_shl_mod_zero(n: nat)
    ensures
        shl_mod(0, n) == 0,
    decreases n,
{
    if n > 0 {
        lemma_shl_mod_zero((n - 1) as nat);
        assert(0u64 & TOP_BIT != TOP_BIT && 0u64 << 1 == 0u64) by (bit_vector);
    }
}

/// Shifting is linear over XOR: the shift of a sum is the sum of the shifts.
pub proof fn lemma_shl_mod_xor(a: u64, b: u64, n: nat)
    ensures
        shl_mod(a ^ b, n) == shl_mod(a, n) ^ shl_mod(b, n),
    decreases n,
{
    if n > 0 {
        lemma_shl_mod_xor(a, b, (n - 1) as nat);
        let x = shl_mod(a, (n - 1) as nat);
        let y = shl_mod(b, (n - 1) as nat);
        assert(times_x(x ^ y) == times_x(x) ^ times_x(y)) by (bit_vector);
    }
}

/// Shifting by `m` bits and then by `n` bits is shifting by `m + n` bits.
pub proof fn lemma_shl_mod_add(v: u64, m: nat, n: nat)
    ensures
        shl_mod(shl_mod(v, m), n) == shl_mod(v, m + n),
    decreases n,
{
    if n > 0 {
        lemma_shl_mod_add(v, m, (n - 1) as nat);
        assert(m + n - 1 == m + (n - 1));
    }
}

/// A value whose top `n` bits are clear is shifted without any reduction.
pub proof fn lemma_shl_mod_no_carry(v: u64, n: nat)
    requires
        n < 64,
        v >> ((64 - n) as u64) == 0,
    ensures
        shl_mod(v, n) == v << (n as u64),
    decreases n,
{
    let k = n as u64;
    if n == 0 {
        assert(v << 0u64 == v) by (bit_vector);
    } else {
        let j = (n - 1) as u64;
        assert(v >> ((64 - j) as u64) == 0 && (v << j) & TOP_BIT != TOP_BIT && (v << j) << 1 == v
            << k) by (bit_vector)
            requires
                0 < k < 64,
                j == k - 1,
                v >> ((64 - k) as u64) == 0,
        ;
        lemma_shl_mod_no_carry(v, (n - 1) as nat);
    }
}

} // verus!
