//! Single-bit operations on bytes, used by the view's slot bitmap.

use vstd::prelude::*;

verus! {

/// Whether bit `k` of `b` is set.
pub open spec fn nth_bit(b: u8, k: u8) -> bool
    recommends
        k < 8,
{
    b & (1u8 << k) != 0
}

/// Setting bit `k` makes that bit set.
pub proof fn lemma_set_bit_sets(b: u8, k: u8)
    requires
        k < 8,
    ensures
        nth_bit(b | (1u8 << k), k),
{
    assert(k < 8 ==> (b | (1u8 << k)) & (1u8 << k) != 0) by (bit_vector);
}

/// Setting bit `k` leaves every other bit as it was.
pub proof fn lemma_set_bit_preserves(b: u8, k: u8, j: u8)
    requires
        k < 8,
        j < 8,
        j != k,
    ensures
        nth_bit(b | (1u8 << k), j) == nth_bit(b, j),
{
    assert(k < 8 && j < 8 && j != k ==>
        ((b | (1u8 << k)) & (1u8 << j)) == (b & (1u8 << j))) by (bit_vector);
}

/// Clearing bit `k` makes that bit clear.
pub proof fn lemma_clear_bit_clears(b: u8, k: u8)
    requires
        k < 8,
    ensures
        !nth_bit(b & !(1u8 << k), k),
{
    assert(k < 8 ==> (b & !(1u8 << k)) & (1u8 << k) == 0) by (bit_vector);
}

/// Clearing bit `k` leaves every other bit as it was.
pub proof fn lemma_clear_bit_preserves(b: u8, k: u8, j: u8)
    requires
        k < 8,
        j < 8,
        j != k,
    ensures
        nth_bit(b & !(1u8 << k), j) == nth_bit(b, j),
{
    assert(k < 8 && j < 8 && j != k ==>
        ((b & !(1u8 << k)) & (1u8 << j)) == (b & (1u8 << j))) by (bit_vector);
}

/// A byte with all eight bits set is `0xff`; the free-slot scan uses the
/// contrapositive to know that a byte other than `0xff` holds a clear bit.
pub proof fn lemma_all_bits_set(b: u8)
    requires
        nth_bit(b, 0),
        nth_bit(b, 1),
        nth_bit(b, 2),
        nth_bit(b, 3),
        nth_bit(b, 4),
        nth_bit(b, 5),
        nth_bit(b, 6),
        nth_bit(b, 7),
    ensures
        b == 0xff,
{
    assert(b & (1u8 << 0) != 0 && b & (1u8 << 1) != 0 && b & (1u8 << 2) != 0
        && b & (1u8 << 3) != 0 && b & (1u8 << 4) != 0 && b & (1u8 << 5) != 0
        && b & (1u8 << 6) != 0 && b & (1u8 << 7) != 0 ==> b == 0xff) by (bit_vector);
}

/// A full byte has every bit set.
pub proof fn lemma_full_byte_bit(b: u8, j: u8)
    requires
        b == 0xff,
        j < 8,
    ensures
        nth_bit(b, j),
{
    assert(j < 8 ==> 0xffu8 & (1u8 << j) != 0) by (bit_vector);
}

} // verus!
