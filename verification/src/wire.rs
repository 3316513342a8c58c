//! Integers on the wire: little-endian and big-endian byte sequences, and the
//! two's-complement reading of an unsigned field.

use vstd::arithmetic::div_mod::*;
use vstd::arithmetic::power::*;
use vstd::prelude::*;

verus! {

/// The number that a byte sequence spells, least significant byte first.
pub open spec fn le_nat(s: Seq<u8>) -> nat
    decreases s.len(),
{
    if s.len() == 0 {
        0
    } else {
        s[0] as nat + 256 * le_nat(s.drop_first())
    }
}

/// The `n` least significant bytes of `v`, least significant byte first.
pub open spec fn le_bytes(v: nat, n: nat) -> Seq<u8>
    decreases n,
{
    if n == 0 {
        Seq::empty()
    } else {
        seq![(v % 256) as u8] + le_bytes(v / 256, (n - 1) as nat)
    }
}

/// Two's-complement reading of a 16-bit field.
pub open spec fn signed16(v: int) -> int {
    if v < 0x8000 {
        v
    } else {
        v - 0x1_0000
    }
}

/// Two's-complement reading of a 32-bit field.
pub open spec fn signed32(v: int) -> int {
    if v < 0x8000_0000 {
        v
    } else {
        v - 0x1_0000_0000
    }
}

/// The 8-bit two's-complement pattern of `v`.
pub open spec fn pattern8(v: int) -> nat {
    if v < 0 {
        (v + 0x100) as nat
    } else {
        v as nat
    }
}

/// The 16-bit two's-complement pattern of `v`.
pub open spec fn pattern16(v: int) -> nat {
    if v < 0 {
        (v + 0x1_0000) as nat
    } else {
        v as nat
    }
}

/// The 32-bit two's-complement pattern of `v`.
pub open spec fn pattern32(v: int) -> nat {
    if v < 0 {
        (v + 0x1_0000_0000) as nat
    } else {
        v as nat
    }
}

/// Two bytes as an unsigned number, low byte first.
pub fn u16_of(lo: u8, hi: u8) -> (r: u16)
    ensures
        r == lo + 256 * hi,
{
    lo as u16 + 256 * (hi as u16)
}

/// Four bytes as an unsigned number, low byte first.
pub fn u32_of(b0: u8, b1: u8, b2: u8, b3: u8) -> (r: u32)
    ensures
        r == b0 + 256 * b1 + 0x1_0000 * b2 + 0x100_0000 * b3,
{
    b0 as u32 + 256 * (b1 as u32) + 0x1_0000 * (b2 as u32) + 0x100_0000 * (b3 as u32)
}

/// The signed reading of a 16-bit field.
pub fn i16_of(v: u16) -> (r: i16)
    ensures
        r == signed16(v as int),
{
    assert((v as i16) as int == if v < 0x8000 {
        v as int
    } else {
        v - 0x1_0000
    }) by (bit_vector);
    v as i16
}

/// The signed reading of a 32-bit field.
pub fn i32_of(v: u32) -> (r: i32)
    ensures
        r == signed32(v as int),
{
    assert((v as i32) as int == if v < 0x8000_0000 {
        v as int
    } else {
        v - 0x1_0000_0000
    }) by (bit_vector);
    v as i32
}

/// A `u16` as its two bytes, low byte first.
pub fn le2(v: u16) -> (r: [u8; 2])
    ensures
        r@ == le_bytes(v as nat, 2),
{
    let q1: u16 = v / 256;
    let r: [u8; 2] = [(v % 256) as u8, q1 as u8];
    proof {
        reveal_with_fuel(le_bytes, 3);
    }
    assert(r@ =~= le_bytes(v as nat, 2));
    r
}

/// A `u32` as its four bytes, low byte first.
pub fn le4(v: u32) -> (r: [u8; 4])
    ensures
        r@ == le_bytes(v as nat, 4),
{
    let q1: u32 = v / 256;
    let q2: u32 = q1 / 256;
    let q3: u32 = q2 / 256;
    let r: [u8; 4] = [(v % 256) as u8, (q1 % 256) as u8, (q2 % 256) as u8, q3 as u8];
    assert(le_bytes(q3 as nat, 1) =~= r@.skip(3)) by {
        reveal_with_fuel(le_bytes, 2);
    }
    assert(le_bytes(q2 as nat, 2) =~= r@.skip(2));
    assert(le_bytes(q1 as nat, 3) =~= r@.skip(1));
    assert(le_bytes(v as nat, 4) =~= r@);
    r
}

/// A `u64` as its eight bytes, low byte first.
pub fn le8(v: u64) -> (r: [u8; 8])
    ensures
        r@ == le_bytes(v as nat, 8),
{
    let q1: u64 = v / 256;
    let q2: u64 = q1 / 256;
    let q3: u64 = q2 / 256;
    let q4: u64 = q3 / 256;
    let q5: u64 = q4 / 256;
    let q6: u64 = q5 / 256;
    let q7: u64 = q6 / 256;
    let r: [u8; 8] = [
        (v % 256) as u8,
        (q1 % 256) as u8,
        (q2 % 256) as u8,
        (q3 % 256) as u8,
        (q4 % 256) as u8,
        (q5 % 256) as u8,
        (q6 % 256) as u8,
        q7 as u8,
    ];
    assert(le_bytes(q7 as nat, 1) =~= r@.skip(7)) by {
        reveal_with_fuel(le_bytes, 2);
    }
    assert(le_bytes(q6 as nat, 2) =~= r@.skip(6));
    assert(le_bytes(q5 as nat, 3) =~= r@.skip(5));
    assert(le_bytes(q4 as nat, 4) =~= r@.skip(4));
    assert(le_bytes(q3 as nat, 5) =~= r@.skip(3));
    assert(le_bytes(q2 as nat, 6) =~= r@.skip(2));
    assert(le_bytes(q1 as nat, 7) =~= r@.skip(1));
    assert(le_bytes(v as nat, 8) =~= r@);
    r
}

/// The bit pattern of a signed byte.
pub fn pattern_i8(v: i8) -> (r: u8)
    ensures
        r == pattern8(v as int),
{
    assert((v as u8) as int == if v < 0 {
        v + 0x100
    } else {
        v as int
    }) by (bit_vector);
    v as u8
}

/// The bit pattern of a signed 16-bit number.
pub fn pattern_i16(v: i16) -> (r: u16)
    ensures
        r == pattern16(v as int),
{
    assert((v as u16) as int == if v < 0 {
        v + 0x1_0000
    } else {
        v as int
    }) by (bit_vector);
    v as u16
}

/// The bit pattern of a signed 32-bit number.
pub fn pattern_i32(v: i32) -> (r: u32)
    ensures
        r == pattern32(v as int),
{
    assert((v as u32) as int == if v < 0 {
        v + 0x1_0000_0000
    } else {
        v as int
    }) by (bit_vector);
    v as u32
}

/// `le_bytes` gives as many bytes as it was asked for.
pub proof fn lemma_le_bytes_len(v: nat, n: nat)
    ensures
        le_bytes(v, n).len() == n,
    decreases n,
{
    if n > 0 {
        lemma_le_bytes_len(v / 256, (n - 1) as nat);
    }
}

/// Reading back the bytes of a number that fits in them gives the number.
pub proof fn law_le_round_trip(v: nat, n: nat)
    requires
        v < pow(256, n),
    ensures
        le_nat(le_bytes(v, n)) == v,
    decreases n,
{
    reveal(pow);
    if n > 0 {
        let rest = le_bytes(v / 256, (n - 1) as nat);
        assert(v / 256 < pow(256, (n - 1) as nat));
        law_le_round_trip(v / 256, (n - 1) as nat);
        assert(le_bytes(v, n).drop_first() =~= rest);
    }
}

/// The number that bytes spell fits in as many bytes, and has those bytes.
pub proof fn law_le_read_back(s: Seq<u8>)
    ensures
        le_nat(s) < pow(256, s.len()),
        le_bytes(le_nat(s), s.len()) == s,
    decreases s.len(),
{
    reveal(pow);
    if s.len() == 0 {
        assert(le_bytes(le_nat(s), 0) =~= s);
    } else {
        let t = s.drop_first();
        law_le_read_back(t);
        assert(pow(256, s.len()) == 256 * pow(256, t.len()));
        assert(le_nat(s) % 256 == s[0] && le_nat(s) / 256 == le_nat(t));
        assert(le_bytes(le_nat(s), s.len()) =~= s);
    }
}

/// Dropping `k` bytes from the front divides the number by `256^k`.
pub proof fn lemma_le_nat_skip(s: Seq<u8>, k: nat)
    requires
        k <= s.len(),
    ensures
        le_nat(s.skip(k as int)) == le_nat(s) as int / pow(256, k),
    decreases k,
{
    reveal(pow);
    lemma_pow_positive(256, k);
    if k == 0 {
        assert(s.skip(0) =~= s);
    } else {
        let t = s.drop_first();
        lemma_le_nat_skip(t, (k - 1) as nat);
        assert(t.skip(k - 1) =~= s.skip(k as int));
        lemma_pow_positive(256, (k - 1) as nat);
        lemma_div_denominator(le_nat(s) as int, 256, pow(256, (k - 1) as nat));
        assert(le_nat(s) as int / 256 == le_nat(t));
    }
}

/// A signed reading is the number of its range that leaves the same remainder as
/// the field: below zero exactly when the top bit is set.
pub proof fn law_signed_reading(v: int)
    ensures
        0 <= v < 0x1_0000 ==> -0x8000 <= signed16(v) < 0x8000 && (v - signed16(v)) % 0x1_0000 == 0,
        0 <= v < 0x1_0000_0000 ==> -0x8000_0000 <= signed32(v) < 0x8000_0000 && (v - signed32(v))
            % 0x1_0000_0000 == 0,
{
}

/// A pattern is the unsigned number that leaves the same remainder, and is read
/// back as the number that it stands for.
pub proof fn law_pattern_read_back(v: int)
    ensures
        -0x80 <= v < 0x80 ==> 0 <= pattern8(v) < 0x100 && (pattern8(v) - v) % 0x100 == 0,
        -0x8000 <= v < 0x8000 ==> 0 <= pattern16(v) < 0x1_0000 && (pattern16(v) - v) % 0x1_0000
            == 0 && signed16(pattern16(v) as int) == v,
        -0x8000_0000 <= v < 0x8000_0000 ==> 0 <= pattern32(v) < 0x1_0000_0000 && (pattern32(v)
            - v) % 0x1_0000_0000 == 0 && signed32(pattern32(v) as int) == v,
{
}

/// The bytes of a number, each with its weight, add up to it: two, three or four
/// bytes, least significant first.
pub proof fn law_bytes_add_up(v: nat)
    ensures
        le_bytes(v, 2).len() == 2,
        le_bytes(v, 3).len() == 3,
        le_bytes(v, 4).len() == 4,
        v < 0x1_0000 ==> le_bytes(v, 2)[0] + 256 * le_bytes(v, 2)[1] == v,
        v < 0x100_0000 ==> le_bytes(v, 3)[0] + 256 * le_bytes(v, 3)[1] + 0x1_0000 * le_bytes(
            v,
            3,
        )[2] == v,
        v < 0x1_0000_0000 ==> le_bytes(v, 4)[0] + 256 * le_bytes(v, 4)[1] + 0x1_0000 * le_bytes(
            v,
            4,
        )[2] + 0x100_0000 * le_bytes(v, 4)[3] == v,
{
    reveal_with_fuel(le_bytes, 5);
}

/// The same for eight bytes: the low four and the high four of the number.
pub proof fn law_eight_bytes_add_up(v: nat)
    requires
        v < 0x1_0000_0000_0000_0000,
    ensures
        ({
            let b = le_bytes(v, 8);
            &&& b.len() == 8
            &&& b[0] + 256 * b[1] + 0x1_0000 * b[2] + 0x100_0000 * b[3] + 0x1_0000_0000 * (b[4]
                + 256 * b[5] + 0x1_0000 * b[6] + 0x100_0000 * b[7]) == v
        }),
{
    let b = le_bytes(v, 8);
    let q = v / 256 / 256 / 256 / 256;
    assert(b == seq![(v % 256) as u8, (v / 256 % 256) as u8, (v / 256 / 256 % 256) as u8, (v / 256
        / 256 / 256 % 256) as u8] + le_bytes(q, 4)) by {
        reveal_with_fuel(le_bytes, 5);
        assert(b =~= seq![(v % 256) as u8, (v / 256 % 256) as u8, (v / 256 / 256 % 256) as u8, (v
            / 256 / 256 / 256 % 256) as u8] + le_bytes(q, 4));
    }
    law_bytes_add_up(q);
    assert(q < 0x1_0000_0000);
    assert(v % 256 + 256 * (v / 256 % 256) + 0x1_0000 * (v / 256 / 256 % 256) + 0x100_0000 * (v
        / 256 / 256 / 256 % 256) + 0x1_0000_0000 * q == v);
}

} // verus!
