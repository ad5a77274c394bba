//! Small bit-level facts about permission bytes, bitmap words and the
//! 16-byte alignment of the allocator.

use vstd::prelude::*;

verus! {

/// True when bit `i` of `w` is set.
pub open spec fn bit64(w: u64, i: u64) -> bool {
    w & (1u64 << i) != 0
}

/// Setting bit `i` of a word sets exactly that bit: the word becomes nonzero,
/// bit `i` is set, and every other bit keeps its value.
pub proof fn lemma_bit64_set(w: u64, i: u64)
    by (bit_vector)
    requires
        i < 64,
    ensures
        bit64(w | (1u64 << i), i),
        w | (1u64 << i) != 0,
        forall|j: u64| j < 64 && j != i ==> bit64(w | (1u64 << i), j) == bit64(w, j),
{
}

/// A zero word has no bits set.
pub proof fn lemma_bit64_zero()
    by (bit_vector)
    ensures
        forall|j: u64| j < 64 ==> !bit64(0u64, j),
{
}

/// A byte grants itself: `b & b == b`.
pub proof fn lemma_u8_and_self(b: u8)
    by (bit_vector)
    ensures
        b & b == b,
{
}

/// Bit facts about the concrete permission bytes the allocator hands out:
/// read-write (`0x6`), write-plus-RAW (`0xa`) and no-permission (`0x0`)
/// bytes, against the individual flags.
pub proof fn lemma_perm_constants()
    by (bit_vector)
    ensures
        0x2u8 | 0x4 == 0x6,
        0x4u8 | 0x2 == 0x6,
        0x2u8 | 0x8 == 0xa,
        0x8u8 | 0x2 == 0xa,
        0x6u8 & 0x6 == 0x6,
        0x6u8 & 0x4 == 0x4,
        0x6u8 & 0x2 == 0x2,
        0x6u8 & 0x8 == 0,
        0xau8 & 0x2 == 0x2,
        0xau8 & 0x8 != 0,
        0xau8 & 0x4 == 0,
        (0xau8 | 0x4) & !0x8u8 == 0x6,
        0x0u8 & 0x2 == 0,
        0x0u8 & 0x4 == 0,
        0x0u8 & 0x8 == 0,
        0x2u8 & 0x4 == 0,
        0x2u8 & 0x2 != 0,
        0x4u8 & 0x4 != 0,
{
}

/// Two's-complement correspondence between `u8` and `i8`.
pub proof fn lemma_cast_i8(x: u8)
    by (bit_vector)
    ensures
        x >= 0x80 ==> x as i8 == x - 0x100,
        x < 0x80 ==> x as i8 == x,
        forall|v: i8| v < 0 ==> (#[trigger] (v as u8)) == v + 0x100,
        forall|v: i8| v >= 0 ==> (#[trigger] (v as u8)) == v,
{
}

/// Two's-complement correspondence between `u16` and `i16`.
pub proof fn lemma_cast_i16(x: u16)
    by (bit_vector)
    ensures
        x >= 0x8000 ==> x as i16 == x - 0x1_0000,
        x < 0x8000 ==> x as i16 == x,
        forall|v: i16| v < 0 ==> (#[trigger] (v as u16)) == v + 0x1_0000,
        forall|v: i16| v >= 0 ==> (#[trigger] (v as u16)) == v,
{
}

/// Two's-complement correspondence between `u32` and `i32`.
pub proof fn lemma_cast_i32(x: u32)
    by (bit_vector)
    ensures
        x >= 0x8000_0000 ==> x as i32 == x - 0x1_0000_0000,
        x < 0x8000_0000 ==> x as i32 == x,
        forall|v: i32| v < 0 ==> (#[trigger] (v as u32)) == v + 0x1_0000_0000,
        forall|v: i32| v >= 0 ==> (#[trigger] (v as u32)) == v,
{
}

/// Two's-complement correspondence between `u64` and `i64`.
pub proof fn lemma_cast_i64(x: u64)
    by (bit_vector)
    ensures
        x >= 0x8000_0000_0000_0000 ==> x as i64 == x - 0x1_0000_0000_0000_0000,
        x < 0x8000_0000_0000_0000 ==> x as i64 == x,
        forall|v: i64| v < 0 ==> (#[trigger] (v as u64)) == v + 0x1_0000_0000_0000_0000,
        forall|v: i64| v >= 0 ==> (#[trigger] (v as u64)) == v,
{
}

/// Two's-complement correspondence between `u128` and `i128`.
pub proof fn lemma_cast_i128(x: u128)
    by (bit_vector)
    ensures
        x >= 0x8000_0000_0000_0000_0000_0000_0000_0000 ==> x as i128 == x
            - 0x1_0000_0000_0000_0000_0000_0000_0000_0000,
        x < 0x8000_0000_0000_0000_0000_0000_0000_0000 ==> x as i128 == x,
        forall|v: i128|
            v < 0 ==> (#[trigger] (v as u128)) == v
                + 0x1_0000_0000_0000_0000_0000_0000_0000_0000,
        forall|v: i128| v >= 0 ==> (#[trigger] (v as u128)) == v,
{
}

/// Bounds of rounding down to a multiple of 16: `s & !0xf` is 16-byte
/// aligned and at most 15 below `s`.
pub proof fn lemma_align16(s: usize)
    by (bit_vector)
    ensures
        s - 15 <= (s & !0xfusize) <= s,
        (s & !0xfusize) % 16 == 0,
{
}

} // verus!
