//! Two's-complement views of the little-endian integers used by the record
//! tails.  `vstd::bytes` supplies the unsigned little-endian conversions;
//! this module adds the signed interpretation on top of them.

use vstd::prelude::*;

verus! {

/// The signed value that a `u32` bit pattern stands for in two's complement.
pub open spec fn as_signed_32(u: u32) -> int {
    if u < 0x8000_0000 {
        u as int
    } else {
        u - 0x1_0000_0000
    }
}

/// The signed value that a `u64` bit pattern stands for in two's complement.
pub open spec fn as_signed_64(u: u64) -> int {
    if u < 0x8000_0000_0000_0000 {
        u as int
    } else {
        u - 0x1_0000_0000_0000_0000
    }
}

/// The `u32` bit pattern of a signed 32-bit value, as an integer.
pub open spec fn as_unsigned_32(i: int) -> int {
    if i >= 0 {
        i
    } else {
        i + 0x1_0000_0000
    }
}

/// The `u64` bit pattern of a signed 64-bit value, as an integer.
pub open spec fn as_unsigned_64(i: int) -> int {
    if i >= 0 {
        i
    } else {
        i + 0x1_0000_0000_0000_0000
    }
}

/// Reads a `u32` bit pattern as the signed value it encodes.
pub fn i32_from_u32(u: u32) -> (r: i32)
    ensures
        r as int == as_signed_32(u),
{
    if u < 0x8000_0000 {
        u as i32
    } else {
        ((u - 0x8000_0000) as i32) + i32::MIN
    }
}

/// Reads a `u64` bit pattern as the signed value it encodes.
pub fn i64_from_u64(u: u64) -> (r: i64)
    ensures
        r as int == as_signed_64(u),
{
    if u < 0x8000_0000_0000_0000 {
        u as i64
    } else {
        ((u - 0x8000_0000_0000_0000) as i64) + i64::MIN
    }
}

/// The two's-complement bit pattern of a signed 32-bit value.
pub fn u32_from_i32(i: i32) -> (r: u32)
    ensures
        r as int == as_unsigned_32(i as int),
{
    if i >= 0 {
        i as u32
    } else {
        ((i - i32::MIN) as u32) + 0x8000_0000
    }
}

/// The two's-complement bit pattern of a signed 64-bit value.
pub fn u64_from_i64(i: i64) -> (r: u64)
    ensures
        r as int == as_unsigned_64(i as int),
{
    if i >= 0 {
        i as u64
    } else {
        ((i - i64::MIN) as u64) + 0x8000_0000_0000_0000
    }
}

/// Decoding a bit pattern and re-encoding the result gives the pattern back,
/// and the other way round; the decoder and encoder are inverses.
pub proof fn lemma_signed_unsigned_inverse_32(u: u32, i: i32)
    ensures
        as_unsigned_32(as_signed_32(u)) == u as int,
        as_signed_32(as_unsigned_32(i as int) as u32) == i as int,
{
}

/// Same inverse relation for the 64-bit conversions.
pub proof fn lemma_signed_unsigned_inverse_64(u: u64, i: i64)
    ensures
        as_unsigned_64(as_signed_64(u)) == u as int,
        as_signed_64(as_unsigned_64(i as int) as u64) == i as int,
{
}

} // verus!
