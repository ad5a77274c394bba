//! Little-endian conversion between the integer types and fixed 16-byte
//! buffers, used by the MMU's integer access helpers.
//!
//! The specification model is arithmetic: [`le_val`] reads a byte sequence
//! as a base-256 number, least significant byte first, and [`le_bytes`]
//! writes a number out the same way. Every implementation of [`LeBytes`] is
//! proved against these two functions, which makes the write-then-read
//! round trip a theorem ([`lemma_int_round_trip`]).

use crate::bits::lemma_cast_i128;
use crate::bits::lemma_cast_i16;
use crate::bits::lemma_cast_i32;
use crate::bits::lemma_cast_i64;
use crate::bits::lemma_cast_i8;
use vstd::arithmetic::div_mod::lemma_fundamental_div_mod;
use vstd::prelude::*;

verus! {

/// 256 to the power `i` (1 for `i <= 0`).
pub open spec fn pow256(i: int) -> int
    decreases i,
{
    if i <= 0 {
        1
    } else {
        256 * pow256(i - 1)
    }
}

/// The number encoded by bytes `[lo, hi)` of `b`, least significant first.
pub open spec fn le_val(b: Seq<u8>, lo: int, hi: int) -> int
    decreases hi - lo,
{
    if lo >= hi {
        0
    } else {
        b[lo] + 256 * le_val(b, lo + 1, hi)
    }
}

/// The `w` little-endian bytes of the number `u`.
pub open spec fn le_bytes(u: int, w: int) -> Seq<u8>
    decreases w,
{
    if w <= 0 {
        Seq::empty()
    } else {
        seq![(u % 256) as u8] + le_bytes(u / 256, w - 1)
    }
}

/// A byte sequence padded with zeros to 16 bytes.
pub open spec fn padded16(s: Seq<u8>) -> Seq<u8> {
    s + Seq::new((16 - s.len()) as nat, |i: int| 0u8)
}

/// Powers of 256 are positive.
pub proof fn lemma_pow256_pos(i: int)
    ensures
        pow256(i) >= 1,
    decreases i,
{
    if i > 0 {
        lemma_pow256_pos(i - 1);
    }
}

/// Powers of 256 grow with the exponent.
pub proof fn lemma_pow256_mono(a: int, b: int)
    requires
        a <= b,
    ensures
        pow256(a) <= pow256(b),
    decreases b - a,
{
    if a < b {
        lemma_pow256_mono(a, b - 1);
        lemma_pow256_pos(b - 1);
    }
}

/// The concrete powers of 256 up to the largest buffer width.
pub proof fn lemma_pow256_values()
    ensures
        pow256(1) == 0x100,
        pow256(2) == 0x1_0000,
        pow256(4) == 0x1_0000_0000,
        pow256(8) == 0x1_0000_0000_0000_0000,
        pow256(15) == 0x1_0000_0000_0000_0000_0000_0000_0000_00,
        pow256(16) == 0x1_0000_0000_0000_0000_0000_0000_0000_0000,
{
    assert(pow256(0) == 1);
    assert(pow256(1) == 0x100);
    assert(pow256(2) == 0x1_0000);
    assert(pow256(3) == 0x1_0000_00);
    assert(pow256(4) == 0x1_0000_0000);
    assert(pow256(5) == 0x1_0000_0000_00);
    assert(pow256(6) == 0x1_0000_0000_0000);
    assert(pow256(7) == 0x1_0000_0000_0000_00);
    assert(pow256(8) == 0x1_0000_0000_0000_0000);
    assert(pow256(9) == 0x1_0000_0000_0000_0000_00);
    assert(pow256(10) == 0x1_0000_0000_0000_0000_0000);
    assert(pow256(11) == 0x1_0000_0000_0000_0000_0000_00);
    assert(pow256(12) == 0x1_0000_0000_0000_0000_0000_0000);
    assert(pow256(13) == 0x1_0000_0000_0000_0000_0000_0000_00);
    assert(pow256(14) == 0x1_0000_0000_0000_0000_0000_0000_0000);
    assert(pow256(15) == 0x1_0000_0000_0000_0000_0000_0000_0000_00);
    assert(pow256(16) == 0x1_0000_0000_0000_0000_0000_0000_0000_0000);
}

/// A value read from `hi - lo` bytes lies below `256^(hi - lo)`.
pub proof fn lemma_le_val_bound(b: Seq<u8>, lo: int, hi: int)
    ensures
        0 <= le_val(b, lo, hi) < pow256(hi - lo),
    decreases hi - lo,
{
    if lo < hi {
        lemma_le_val_bound(b, lo + 1, hi);
    }
}

/// Reading the same bytes at different positions gives the same value.
pub proof fn lemma_le_val_congruent(b: Seq<u8>, c: Seq<u8>, blo: int, clo: int, n: int)
    requires
        forall|i: int| 0 <= i < n ==> (#[trigger] b[blo + i]) == c[clo + i],
    ensures
        le_val(b, blo, blo + n) == le_val(c, clo, clo + n),
    decreases n,
{
    if n > 0 {
        assert(b[blo + 0] == c[clo + 0]);
        assert forall|i: int| 0 <= i < n - 1 implies (#[trigger] b[blo + 1 + i]) == c[clo + 1
            + i] by {
            assert(b[blo + (i + 1)] == c[clo + (i + 1)]);
        }
        lemma_le_val_congruent(b, c, blo + 1, clo + 1, n - 1);
    }
}

/// An encoding has as many bytes as asked for.
pub proof fn lemma_le_bytes_len(u: int, w: int)
    ensures
        le_bytes(u, w).len() == (if w <= 0 {
            0
        } else {
            w
        }),
    decreases w,
{
    if w > 0 {
        lemma_le_bytes_len(u / 256, w - 1);
    }
}

/// Reading an encoding of `u` gives `u` back, as long as `u` fits the width.
pub proof fn lemma_le_val_le_bytes(u: int, w: int)
    requires
        0 <= u < pow256(w),
    ensures
        le_val(le_bytes(u, w), 0, w) == u,
    decreases w,
{
    if w > 0 {
        let b = le_bytes(u, w);
        let t = le_bytes(u / 256, w - 1);
        lemma_le_bytes_len(u / 256, w - 1);
        lemma_fundamental_div_mod(u, 256);
        assert(u / 256 < pow256(w - 1)) by {
            assert(u < 256 * pow256(w - 1));
            assert(u == 256 * (u / 256) + u % 256);
        }
        lemma_le_val_le_bytes(u / 256, w - 1);
        assert forall|i: int| 0 <= i < w - 1 implies (#[trigger] b[1 + i]) == t[0 + i] by {
            assert(b[1 + i] == t[i]);
        }
        lemma_le_val_congruent(b, t, 1, 0, w - 1);
        assert(le_val(b, 0, w) == b[0] + 256 * le_val(b, 1, w));
        assert(b[0] == (u % 256) as u8);
    }
}

/// Fills a 16-byte buffer with the `w` little-endian bytes of `u`, zeros
/// past them.
fn le_encode(u: u128, w: usize) -> (r: [u8; 16])
    requires
        w <= 16,
    ensures
        r@.len() == 16,
        r@.subrange(0, w as int) == le_bytes(u as int, w as int),
        forall|i: int| w <= i < 16 ==> r@[i] == 0,
{
    let mut r = [0u8; 16];
    let mut tmp = u;
    let mut k: usize = 0;
    while k < w
        invariant
            k <= w <= 16,
            r@.len() == 16,
            le_bytes(u as int, w as int) == r@.subrange(0, k as int) + le_bytes(
                tmp as int,
                w - k as int,
            ),
            forall|i: int| k <= i < 16 ==> r@[i] == 0,
        decreases w - k,
    {
        let ghost r0 = r@;
        let ghost tmp0 = tmp as int;
        r[k] = (tmp % 256) as u8;
        tmp = tmp / 256;
        proof {
            assert(le_bytes(tmp0, w - k as int) == seq![(tmp0 % 256) as u8] + le_bytes(
                tmp0 / 256,
                w - k as int - 1,
            ));
            assert(r@.subrange(0, k as int + 1) =~= r0.subrange(0, k as int) + seq![(tmp0
                % 256) as u8]);
            assert(r@.subrange(0, k as int + 1) + le_bytes(tmp as int, w - (k as int + 1))
                =~= r0.subrange(0, k as int) + le_bytes(tmp0, w - k as int));
        }
        k = k + 1;
    }
    proof {
        assert(le_bytes(u as int, w as int) =~= r@.subrange(0, w as int));
    }
    r
}

/// Reads the first `w` bytes of a 16-byte buffer as a little-endian number.
fn le_decode(bytes: &[u8; 16], w: usize) -> (u: u128)
    requires
        w <= 16,
    ensures
        u as int == le_val(bytes@, 0, w as int),
{
    let mut v: u128 = 0;
    let mut k: usize = w;
    while k > 0
        invariant
            k <= w <= 16,
            v as int == le_val(bytes@, k as int, w as int),
        decreases k,
    {
        k = k - 1;
        proof {
            lemma_le_val_bound(bytes@, k as int + 1, w as int);
            lemma_pow256_mono(w - (k as int + 1), 15);
            lemma_pow256_values();
        }
        v = (bytes[k] as u128) + 256 * v;
    }
    v
}

/// Types implementing this trait can be converted to and from little-endian
/// bytes. The conversion works through fixed 16-byte buffers whose first
/// `spec_width()` bytes carry the value; the rest are zero.
pub trait LeBytes {
    type Target;

    /// Width in bytes of the encoding of a value.
    spec fn spec_width() -> nat;

    /// The canonical little-endian encoding of `v`: `spec_width()` bytes.
    spec fn spec_enc(v: Self::Target) -> Seq<u8>;

    /// The value encoded by the first `spec_width()` bytes of `b`.
    spec fn spec_dec(b: Seq<u8>) -> Self::Target;

    /// The width is between 1 and 16 bytes, and every encoding has exactly
    /// that many bytes.
    proof fn lemma_width()
        ensures
            1 <= Self::spec_width() <= 16,
            forall|v: Self::Target| (#[trigger] Self::spec_enc(v)).len() == Self::spec_width(),
    ;

    /// Decoding reads only the first `spec_width()` bytes.
    proof fn lemma_dec_prefix(b1: Seq<u8>, b2: Seq<u8>)
        requires
            b1.len() >= Self::spec_width(),
            b2.len() >= Self::spec_width(),
            b1.subrange(0, Self::spec_width() as int) == b2.subrange(
                0,
                Self::spec_width() as int,
            ),
        ensures
            Self::spec_dec(b1) == Self::spec_dec(b2),
    ;

    /// Decoding an encoding gives the value back.
    proof fn lemma_dec_enc(v: Self::Target)
        ensures
            Self::spec_dec(Self::spec_enc(v)) == v,
    ;

    /// Number of bytes of the encoding.
    fn width() -> (n: usize)
        ensures
            n as nat == Self::spec_width(),
    ;

    /// Convert an array of bytes into a value of the associated type.
    fn from_le_bytes(bytes: [u8; 16]) -> (v: Self::Target)
        ensures
            v == Self::spec_dec(bytes@),
    ;

    /// Convert a value of the associated type into an array of bytes,
    /// zero-padded past the encoding.
    fn to_le_bytes(value: Self::Target) -> (r: [u8; 16])
        ensures
            r@.len() == 16,
            r@.subrange(0, Self::spec_width() as int) == Self::spec_enc(value),
            forall|i: int| Self::spec_width() <= i < 16 ==> r@[i] == 0,
    ;
}

/// A value written through its encoding into a larger byte store is read
/// back unchanged from the zero-padded 16-byte buffer the integer readers
/// build. This is the write-then-read round trip of the integer helpers.
pub proof fn lemma_int_round_trip<T: LeBytes>(s: Seq<u8>, value: T::Target)
    requires
        s == T::spec_enc(value),
    ensures
        T::spec_dec(padded16(s)) == value,
{
    T::lemma_width();
    assert(padded16(s).subrange(0, T::spec_width() as int) =~= s);
    assert(T::spec_enc(value).subrange(0, T::spec_width() as int) =~= T::spec_enc(value));
    T::lemma_dec_prefix(padded16(s), T::spec_enc(value));
    T::lemma_dec_enc(value);
}

impl LeBytes for u8 {
    type Target = u8;

    open spec fn spec_width() -> nat {
        1
    }

    open spec fn spec_enc(v: u8) -> Seq<u8> {
        le_bytes(v as int, 1)
    }

    open spec fn spec_dec(b: Seq<u8>) -> u8 {
        le_val(b, 0, 1) as u8
    }

    proof fn lemma_width() {
        assert forall|v: u8| (#[trigger] Self::spec_enc(v)).len() == 1 by {
            lemma_le_bytes_len(v as int, 1);
        }
    }

    proof fn lemma_dec_prefix(b1: Seq<u8>, b2: Seq<u8>) {
        assert forall|i: int| 0 <= i < 1 implies (#[trigger] b1[0 + i]) == b2[0 + i] by {
            assert(b1.subrange(0, 1)[i] == b2.subrange(0, 1)[i]);
        }
        lemma_le_val_congruent(b1, b2, 0, 0, 1);
    }

    proof fn lemma_dec_enc(v: u8) {
        lemma_pow256_values();
        lemma_le_val_le_bytes(v as int, 1);
    }

    fn width() -> usize {
        1
    }

    fn from_le_bytes(bytes: [u8; 16]) -> (v: u8) {
        let u = le_decode(&bytes, 1);
        proof {
            lemma_le_val_bound(bytes@, 0, 1);
            lemma_pow256_values();
        }
        u as u8
    }

    fn to_le_bytes(value: u8) -> (r: [u8; 16]) {
        le_encode(value as u128, 1)
    }
}

impl LeBytes for u16 {
    type Target = u16;

    open spec fn spec_width() -> nat {
        2
    }

    open spec fn spec_enc(v: u16) -> Seq<u8> {
        le_bytes(v as int, 2)
    }

    open spec fn spec_dec(b: Seq<u8>) -> u16 {
        le_val(b, 0, 2) as u16
    }

    proof fn lemma_width() {
        assert forall|v: u16| (#[trigger] Self::spec_enc(v)).len() == 2 by {
            lemma_le_bytes_len(v as int, 2);
        }
    }

    proof fn lemma_dec_prefix(b1: Seq<u8>, b2: Seq<u8>) {
        assert forall|i: int| 0 <= i < 2 implies (#[trigger] b1[0 + i]) == b2[0 + i] by {
            assert(b1.subrange(0, 2)[i] == b2.subrange(0, 2)[i]);
        }
        lemma_le_val_congruent(b1, b2, 0, 0, 2);
    }

    proof fn lemma_dec_enc(v: u16) {
        lemma_pow256_values();
        lemma_le_val_le_bytes(v as int, 2);
    }

    fn width() -> usize {
        2
    }

    fn from_le_bytes(bytes: [u8; 16]) -> (v: u16) {
        let u = le_decode(&bytes, 2);
        proof {
            lemma_le_val_bound(bytes@, 0, 2);
            lemma_pow256_values();
        }
        u as u16
    }

    fn to_le_bytes(value: u16) -> (r: [u8; 16]) {
        le_encode(value as u128, 2)
    }
}

impl LeBytes for u32 {
    type Target = u32;

    open spec fn spec_width() -> nat {
        4
    }

    open spec fn spec_enc(v: u32) -> Seq<u8> {
        le_bytes(v as int, 4)
    }

    open spec fn spec_dec(b: Seq<u8>) -> u32 {
        le_val(b, 0, 4) as u32
    }

    proof fn lemma_width() {
        assert forall|v: u32| (#[trigger] Self::spec_enc(v)).len() == 4 by {
            lemma_le_bytes_len(v as int, 4);
        }
    }

    proof fn lemma_dec_prefix(b1: Seq<u8>, b2: Seq<u8>) {
        assert forall|i: int| 0 <= i < 4 implies (#[trigger] b1[0 + i]) == b2[0 + i] by {
            assert(b1.subrange(0, 4)[i] == b2.subrange(0, 4)[i]);
        }
        lemma_le_val_congruent(b1, b2, 0, 0, 4);
    }

    proof fn lemma_dec_enc(v: u32) {
        lemma_pow256_values();
        lemma_le_val_le_bytes(v as int, 4);
    }

    fn width() -> usize {
        4
    }

    fn from_le_bytes(bytes: [u8; 16]) -> (v: u32) {
        let u = le_decode(&bytes, 4);
        proof {
            lemma_le_val_bound(bytes@, 0, 4);
            lemma_pow256_values();
        }
        u as u32
    }

    fn to_le_bytes(value: u32) -> (r: [u8; 16]) {
        le_encode(value as u128, 4)
    }
}

impl LeBytes for u64 {
    type Target = u64;

    open spec fn spec_width() -> nat {
        8
    }

    open spec fn spec_enc(v: u64) -> Seq<u8> {
        le_bytes(v as int, 8)
    }

    open spec fn spec_dec(b: Seq<u8>) -> u64 {
        le_val(b, 0, 8) as u64
    }

    proof fn lemma_width() {
        assert forall|v: u64| (#[trigger] Self::spec_enc(v)).len() == 8 by {
            lemma_le_bytes_len(v as int, 8);
        }
    }

    proof fn lemma_dec_prefix(b1: Seq<u8>, b2: Seq<u8>) {
        assert forall|i: int| 0 <= i < 8 implies (#[trigger] b1[0 + i]) == b2[0 + i] by {
            assert(b1.subrange(0, 8)[i] == b2.subrange(0, 8)[i]);
        }
        lemma_le_val_congruent(b1, b2, 0, 0, 8);
    }

    proof fn lemma_dec_enc(v: u64) {
        lemma_pow256_values();
        lemma_le_val_le_bytes(v as int, 8);
    }

    fn width() -> usize {
        8
    }

    fn from_le_bytes(bytes: [u8; 16]) -> (v: u64) {
        let u = le_decode(&bytes, 8);
        proof {
            lemma_le_val_bound(bytes@, 0, 8);
            lemma_pow256_values();
        }
        u as u64
    }

    fn to_le_bytes(value: u64) -> (r: [u8; 16]) {
        le_encode(value as u128, 8)
    }
}

impl LeBytes for u128 {
    type Target = u128;

    open spec fn spec_width() -> nat {
        16
    }

    open spec fn spec_enc(v: u128) -> Seq<u8> {
        le_bytes(v as int, 16)
    }

    open spec fn spec_dec(b: Seq<u8>) -> u128 {
        le_val(b, 0, 16) as u128
    }

    proof fn lemma_width() {
        assert forall|v: u128| (#[trigger] Self::spec_enc(v)).len() == 16 by {
            lemma_le_bytes_len(v as int, 16);
        }
    }

    proof fn lemma_dec_prefix(b1: Seq<u8>, b2: Seq<u8>) {
        assert forall|i: int| 0 <= i < 16 implies (#[trigger] b1[0 + i]) == b2[0 + i] by {
            assert(b1.subrange(0, 16)[i] == b2.subrange(0, 16)[i]);
        }
        lemma_le_val_congruent(b1, b2, 0, 0, 16);
    }

    proof fn lemma_dec_enc(v: u128) {
        lemma_pow256_values();
        lemma_le_val_le_bytes(v as int, 16);
    }

    fn width() -> usize {
        16
    }

    fn from_le_bytes(bytes: [u8; 16]) -> (v: u128) {
        let u = le_decode(&bytes, 16);
        proof {
            lemma_le_val_bound(bytes@, 0, 16);
            lemma_pow256_values();
        }
        u
    }

    fn to_le_bytes(value: u128) -> (r: [u8; 16]) {
        le_encode(value, 16)
    }
}

impl LeBytes for i8 {
    type Target = i8;

    open spec fn spec_width() -> nat {
        1
    }

    open spec fn spec_enc(v: i8) -> Seq<u8> {
        le_bytes(
            if v >= 0 {
                v as int
            } else {
                v + 0x100
            },
            1,
        )
    }

    open spec fn spec_dec(b: Seq<u8>) -> i8 {
        if le_val(b, 0, 1) < 0x80 {
            le_val(b, 0, 1) as i8
        } else {
            (le_val(b, 0, 1) - 0x100) as i8
        }
    }

    proof fn lemma_width() {
        assert forall|v: i8| (#[trigger] Self::spec_enc(v)).len() == 1 by {
            lemma_le_bytes_len(
                if v >= 0 {
                    v as int
                } else {
                    v + 0x100
                },
                1,
            );
        }
    }

    proof fn lemma_dec_prefix(b1: Seq<u8>, b2: Seq<u8>) {
        assert forall|i: int| 0 <= i < 1 implies (#[trigger] b1[0 + i]) == b2[0 + i] by {
            assert(b1.subrange(0, 1)[i] == b2.subrange(0, 1)[i]);
        }
        lemma_le_val_congruent(b1, b2, 0, 0, 1);
    }

    proof fn lemma_dec_enc(v: i8) {
        lemma_pow256_values();
        lemma_le_val_le_bytes(
            if v >= 0 {
                v as int
            } else {
                v + 0x100
            },
            1,
        );
    }

    fn width() -> usize {
        1
    }

    fn from_le_bytes(bytes: [u8; 16]) -> (v: i8) {
        let u = le_decode(&bytes, 1);
        proof {
            lemma_le_val_bound(bytes@, 0, 1);
            lemma_pow256_values();
        }
        let x = u as u8;
        proof {
            lemma_cast_i8(x);
        }
        x as i8
    }

    fn to_le_bytes(value: i8) -> (r: [u8; 16]) {
        let x = value as u8;
        proof {
            lemma_cast_i8(x);
        }
        le_encode(x as u128, 1)
    }
}

impl LeBytes for i16 {
    type Target = i16;

    open spec fn spec_width() -> nat {
        2
    }

    open spec fn spec_enc(v: i16) -> Seq<u8> {
        le_bytes(
            if v >= 0 {
                v as int
            } else {
                v + 0x1_0000
            },
            2,
        )
    }

    open spec fn spec_dec(b: Seq<u8>) -> i16 {
        if le_val(b, 0, 2) < 0x8000 {
            le_val(b, 0, 2) as i16
        } else {
            (le_val(b, 0, 2) - 0x1_0000) as i16
        }
    }

    proof fn lemma_width() {
        assert forall|v: i16| (#[trigger] Self::spec_enc(v)).len() == 2 by {
            lemma_le_bytes_len(
                if v >= 0 {
                    v as int
                } else {
                    v + 0x1_0000
                },
                2,
            );
        }
    }

    proof fn lemma_dec_prefix(b1: Seq<u8>, b2: Seq<u8>) {
        assert forall|i: int| 0 <= i < 2 implies (#[trigger] b1[0 + i]) == b2[0 + i] by {
            assert(b1.subrange(0, 2)[i] == b2.subrange(0, 2)[i]);
        }
        lemma_le_val_congruent(b1, b2, 0, 0, 2);
    }

    proof fn lemma_dec_enc(v: i16) {
        lemma_pow256_values();
        lemma_le_val_le_bytes(
            if v >= 0 {
                v as int
            } else {
                v + 0x1_0000
            },
            2,
        );
    }

    fn width() -> usize {
        2
    }

    fn from_le_bytes(bytes: [u8; 16]) -> (v: i16) {
        let u = le_decode(&bytes, 2);
        proof {
            lemma_le_val_bound(bytes@, 0, 2);
            lemma_pow256_values();
        }
        let x = u as u16;
        proof {
            lemma_cast_i16(x);
        }
        x as i16
    }

    fn to_le_bytes(value: i16) -> (r: [u8; 16]) {
        let x = value as u16;
        proof {
            lemma_cast_i16(x);
        }
        le_encode(x as u128, 2)
    }
}

impl LeBytes for i32 {
    type Target = i32;

    open spec fn spec_width() -> nat {
        4
    }

    open spec fn spec_enc(v: i32) -> Seq<u8> {
        le_bytes(
            if v >= 0 {
                v as int
            } else {
                v + 0x1_0000_0000
            },
            4,
        )
    }

    open spec fn spec_dec(b: Seq<u8>) -> i32 {
        if le_val(b, 0, 4) < 0x8000_0000 {
            le_val(b, 0, 4) as i32
        } else {
            (le_val(b, 0, 4) - 0x1_0000_0000) as i32
        }
    }

    proof fn lemma_width() {
        assert forall|v: i32| (#[trigger] Self::spec_enc(v)).len() == 4 by {
            lemma_le_bytes_len(
                if v >= 0 {
                    v as int
                } else {
                    v + 0x1_0000_0000
                },
                4,
            );
        }
    }

    proof fn lemma_dec_prefix(b1: Seq<u8>, b2: Seq<u8>) {
        assert forall|i: int| 0 <= i < 4 implies (#[trigger] b1[0 + i]) == b2[0 + i] by {
            assert(b1.subrange(0, 4)[i] == b2.subrange(0, 4)[i]);
        }
        lemma_le_val_congruent(b1, b2, 0, 0, 4);
    }

    proof fn lemma_dec_enc(v: i32) {
        lemma_pow256_values();
        lemma_le_val_le_bytes(
            if v >= 0 {
                v as int
            } else {
                v + 0x1_0000_0000
            },
            4,
        );
    }

    fn width() -> usize {
        4
    }

    fn from_le_bytes(bytes: [u8; 16]) -> (v: i32) {
        let u = le_decode(&bytes, 4);
        proof {
            lemma_le_val_bound(bytes@, 0, 4);
            lemma_pow256_values();
        }
        let x = u as u32;
        proof {
            lemma_cast_i32(x);
        }
        x as i32
    }

    fn to_le_bytes(value: i32) -> (r: [u8; 16]) {
        let x = value as u32;
        proof {
            lemma_cast_i32(x);
        }
        le_encode(x as u128, 4)
    }
}

impl LeBytes for i64 {
    type Target = i64;

    open spec fn spec_width() -> nat {
        8
    }

    open spec fn spec_enc(v: i64) -> Seq<u8> {
        le_bytes(
            if v >= 0 {
                v as int
            } else {
                v + 0x1_0000_0000_0000_0000
            },
            8,
        )
    }

    open spec fn spec_dec(b: Seq<u8>) -> i64 {
        if le_val(b, 0, 8) < 0x8000_0000_0000_0000 {
            le_val(b, 0, 8) as i64
        } else {
            (le_val(b, 0, 8) - 0x1_0000_0000_0000_0000) as i64
        }
    }

    proof fn lemma_width() {
        assert forall|v: i64| (#[trigger] Self::spec_enc(v)).len() == 8 by {
            lemma_le_bytes_len(
                if v >= 0 {
                    v as int
                } else {
                    v + 0x1_0000_0000_0000_0000
                },
                8,
            );
        }
    }

    proof fn lemma_dec_prefix(b1: Seq<u8>, b2: Seq<u8>) {
        assert forall|i: int| 0 <= i < 8 implies (#[trigger] b1[0 + i]) == b2[0 + i] by {
            assert(b1.subrange(0, 8)[i] == b2.subrange(0, 8)[i]);
        }
        lemma_le_val_congruent(b1, b2, 0, 0, 8);
    }

    proof fn lemma_dec_enc(v: i64) {
        lemma_pow256_values();
        lemma_le_val_le_bytes(
            if v >= 0 {
                v as int
            } else {
                v + 0x1_0000_0000_0000_0000
            },
            8,
        );
    }

    fn width() -> usize {
        8
    }

    fn from_le_bytes(bytes: [u8; 16]) -> (v: i64) {
        let u = le_decode(&bytes, 8);
        proof {
            lemma_le_val_bound(bytes@, 0, 8);
            lemma_pow256_values();
        }
        let x = u as u64;
        proof {
            lemma_cast_i64(x);
        }
        x as i64
    }

    fn to_le_bytes(value: i64) -> (r: [u8; 16]) {
        let x = value as u64;
        proof {
            lemma_cast_i64(x);
        }
        le_encode(x as u128, 8)
    }
}

impl LeBytes for i128 {
    type Target = i128;

    open spec fn spec_width() -> nat {
        16
    }

    open spec fn spec_enc(v: i128) -> Seq<u8> {
        le_bytes(
            if v >= 0 {
                v as int
            } else {
                v + 0x1_0000_0000_0000_0000_0000_0000_0000_0000
            },
            16,
        )
    }

    open spec fn spec_dec(b: Seq<u8>) -> i128 {
        if le_val(b, 0, 16) < 0x8000_0000_0000_0000_0000_0000_0000_0000 {
            le_val(b, 0, 16) as i128
        } else {
            (le_val(b, 0, 16) - 0x1_0000_0000_0000_0000_0000_0000_0000_0000) as i128
        }
    }

    proof fn lemma_width() {
        assert forall|v: i128| (#[trigger] Self::spec_enc(v)).len() == 16 by {
            lemma_le_bytes_len(
                if v >= 0 {
                    v as int
                } else {
                    v + 0x1_0000_0000_0000_0000_0000_0000_0000_0000
                },
                16,
            );
        }
    }

    proof fn lemma_dec_prefix(b1: Seq<u8>, b2: Seq<u8>) {
        assert forall|i: int| 0 <= i < 16 implies (#[trigger] b1[0 + i]) == b2[0 + i] by {
            assert(b1.subrange(0, 16)[i] == b2.subrange(0, 16)[i]);
        }
        lemma_le_val_congruent(b1, b2, 0, 0, 16);
    }

    proof fn lemma_dec_enc(v: i128) {
        lemma_pow256_values();
        lemma_le_val_le_bytes(
            if v >= 0 {
                v as int
            } else {
                v + 0x1_0000_0000_0000_0000_0000_0000_0000_0000
            },
            16,
        );
    }

    fn width() -> usize {
        16
    }

    fn from_le_bytes(bytes: [u8; 16]) -> (v: i128) {
        let u = le_decode(&bytes, 16);
        proof {
            lemma_le_val_bound(bytes@, 0, 16);
            lemma_pow256_values();
        }
        proof {
            lemma_cast_i128(u);
        }
        u as i128
    }

    fn to_le_bytes(value: i128) -> (r: [u8; 16]) {
        let x = value as u128;
        proof {
            lemma_cast_i128(x);
        }
        le_encode(x, 16)
    }
}

} // verus!
