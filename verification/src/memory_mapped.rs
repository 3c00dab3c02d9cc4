//! Setting a field of bits in a register value.
use vstd::prelude::*;

verus! {

/// `current` with the `length` bits from bit `shift` replaced by the low
/// `length` bits of `value`.
pub open spec fn set_bits_spec(current: u16, value: u16, length: u16, shift: u16) -> u16 {
    let mask = (((1u16 << length) - 1) as u16);
    (current & !(mask << shift)) | ((value & mask) << shift)
}

/// `current` with the `length` bits from bit `shift` replaced by the low
/// `length` bits of `value`; bits shifted beyond the top are lost.
pub fn set_bits(current: u16, value: u16, length: u16, shift: u16) -> (r: u16)
    requires
        length < 16,
        shift < 16,
    ensures
        r == set_bits_spec(current, value, length, shift),
{
    proof {
        crate::bits::lemma_low_mask_u16(length);
    }
    let mask: u16 = (1u16 << length) - 1;
    (current & !(mask << shift)) | ((value & mask) << shift)
}

/// Bit `i` of `x`.
pub open spec fn bit(x: u16, i: u16) -> bool {
    (x >> i) & 1 == 1
}

/// Setting a field changes the bits of the field to those of the value and
/// leaves every other bit as it was.
pub proof fn lemma_set_bits_fields(current: u16, value: u16, length: u16, shift: u16, i: u16)
    requires
        length < 16,
        shift < 16,
        shift + length <= 16,
        i < 16,
    ensures
        shift <= i < shift + length ==> bit(set_bits_spec(current, value, length, shift), i) == bit(
            value,
            (i - shift) as u16,
        ),
        !(shift <= i < shift + length) ==> bit(set_bits_spec(current, value, length, shift), i)
            == bit(current, i),
{
    assert((shift <= i < shift + length ==> ((((current & !((((1u16 << length) - 1) as u16) << shift))
        | ((value & (((1u16 << length) - 1) as u16)) << shift)) >> i) & 1 == 1) == (((value >> ((i
        - shift) as u16)) & 1) == 1)) && (!(shift <= i < shift + length) ==> ((((current & !((((1u16
        << length) - 1) as u16) << shift)) | ((value & (((1u16 << length) - 1) as u16)) << shift))
        >> i) & 1 == 1) == (((current >> i) & 1) == 1))) by (bit_vector)
        requires
            length < 16u16,
            shift < 16u16,
            shift + length <= 16u16,
            i < 16u16,
    ;
}

} // verus!
