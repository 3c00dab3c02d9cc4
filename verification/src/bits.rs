//! Facts about fixed bit patterns, each proved once by the bit-vector
//! solver and used wherever registers are put together.
use vstd::prelude::*;

verus! {

/// The constant shifts the register layouts are made of.
pub proof fn lemma_u16_constants()
    by (bit_vector)
    ensures
        0u16 << 3u16 == 0,
        0u16 << 4u16 == 0,
        0u16 << 7u16 == 0,
        0u16 << 10u16 == 0,
        0u16 << 11u16 == 0,
        0u16 << 12u16 == 0,
        0u16 << 14u16 == 0,
        1u16 << 0u16 == 0x1,
        1u16 << 1u16 == 0x2,
        1u16 << 2u16 == 0x4,
        1u16 << 3u16 == 8,
        1u16 << 4u16 == 0x10,
        1u16 << 5u16 == 0x20,
        1u16 << 6u16 == 0x40,
        1u16 << 7u16 == 0x80,
        1u16 << 8u16 == 0x100,
        1u16 << 9u16 == 0x200,
        1u16 << 10u16 == 0x400,
        1u16 << 11u16 == 0x800,
        1u16 << 15u16 == 0x8000,
        (0u16 | 0u16 | (0u16 << 12u16)) == 0,
        (0u16 | (0u16 << 3u16) | (0u16 << 4u16)) == 0,
        1usize << 5usize == 32,
        1usize << 6usize == 64,
        (1i32 << 30i32) == 0x4000_0000,
{
}

/// A mask of `length` low bits is one less than a positive power of two.
pub proof fn lemma_low_mask_u16(length: u16)
    by (bit_vector)
    requires
        length < 16,
    ensures
        1u16 << length >= 1,
{
}

/// Bit `i` of `x` is set exactly when `x` and `1 << i` share a bit.
pub proof fn lemma_bit_test_u32(x: u32, i: u32)
    by (bit_vector)
    requires
        i < 32,
    ensures
        ((1u32 << i) & x == 0) <==> ((x >> i) & 1 == 0),
        1u32 << i >= 1,
{
}

/// Bit `i` of `x` is set exactly when `x` and `1 << i` share a bit.
pub proof fn lemma_bit_test_u16(x: u16, i: u16)
    by (bit_vector)
    requires
        i < 16,
    ensures
        ((1u16 << i) & x != 0) <==> ((x >> i) & 1 == 1),
        (!x & (1u16 << i) != 0) <==> (x & (1u16 << i) == 0),
{
}

/// Shifting a non-negative number right halves or quarters it.
pub proof fn lemma_shr_div(x: i32)
    by (bit_vector)
    requires
        x >= 0,
    ensures
        x >> 1i32 == x / 2,
        x >> 2i32 == x / 4,
{
}

} // verus!
