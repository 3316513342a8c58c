//! Cyclic redundancy checks over bytes, most significant bit first.

use vstd::prelude::*;

verus! {

/// One bit of polynomial long division: shift left, and subtract the
/// polynomial when a bit falls out.
pub open spec fn crc8_bit(c: u8, poly: u8) -> u8 {
    if c & 0x80 != 0 {
        (c << 1) ^ poly
    } else {
        c << 1
    }
}

/// `n` bits of long division.
pub open spec fn crc8_bits(c: u8, poly: u8, n: nat) -> u8
    decreases n,
{
    if n == 0 {
        c
    } else {
        crc8_bit(crc8_bits(c, poly, (n - 1) as nat), poly)
    }
}

/// The remainder after one more message byte.
pub open spec fn crc8_step(poly: u8, crc: u8, byte: u8) -> u8 {
    crc8_bits(crc ^ byte, poly, 8)
}

/// The remainder of a whole message, starting from `init`.
pub open spec fn crc8_over(poly: u8, init: u8, s: Seq<u8>) -> u8
    decreases s.len(),
{
    if s.len() == 0 {
        init
    } else {
        crc8_step(poly, crc8_over(poly, init, s.drop_last()), s.last())
    }
}

/// One message byte, for any generator polynomial.
pub fn crc8_update(poly: u8, crc: u8, byte: u8) -> (r: u8)
    ensures
        r == crc8_step(poly, crc, byte),
{
    let mut c: u8 = crc ^ byte;
    let mut i: usize = 0;
    while i < 8
        invariant
            i <= 8,
            c == crc8_bits(crc ^ byte, poly, i as nat),
        decreases 8 - i,
    {
        if c & 0x80 != 0 {
            c = (c << 1) ^ poly;
        } else {
            c = c << 1;
        }
        i += 1;
    }
    c
}

proof fn lemma_bit_injective(a: u8, b: u8, poly: u8)
    by (bit_vector)
    requires
        poly & 1 == 1,
        crc8_bit(a, poly) == crc8_bit(b, poly),
    ensures
        a == b,
{
}

proof fn lemma_bits_injective(a: u8, b: u8, poly: u8, n: nat)
    requires
        poly & 1 == 1,
        crc8_bits(a, poly, n) == crc8_bits(b, poly, n),
    ensures
        a == b,
    decreases n,
{
    if n > 0 {
        lemma_bit_injective(crc8_bits(a, poly, (n - 1) as nat), crc8_bits(b, poly, (n - 1) as nat), poly);
        lemma_bits_injective(a, b, poly, (n - 1) as nat);
    }
}

proof fn lemma_xor_cancel(c1: u8, b1: u8, c2: u8, b2: u8)
    by (bit_vector)
    requires
        c1 ^ b1 == c2 ^ b2,
    ensures
        c1 == c2 <==> b1 == b2,
{
}

/// Of two steps with one result, the remainders agree exactly when the bytes
/// do: a step loses nothing of either.
pub proof fn law_crc8_step_injective(poly: u8, c1: u8, b1: u8, c2: u8, b2: u8)
    requires
        poly & 1 == 1,
        crc8_step(poly, c1, b1) == crc8_step(poly, c2, b2),
    ensures
        c1 == c2 <==> b1 == b2,
{
    lemma_bits_injective(c1 ^ b1, c2 ^ b2, poly, 8);
    lemma_xor_cancel(c1, b1, c2, b2);
}

/// A message with one byte altered has another remainder, so a receiver that
/// compares remainders rejects it.
pub proof fn law_crc8_detects_altered_byte(poly: u8, init: u8, s: Seq<u8>, i: int, b: u8)
    requires
        poly & 1 == 1,
        0 <= i < s.len(),
        s[i] != b,
    ensures
        crc8_over(poly, init, s.update(i, b)) != crc8_over(poly, init, s),
    decreases s.len(),
{
    let t = s.update(i, b);
    let cs = crc8_over(poly, init, s.drop_last());
    let ct = crc8_over(poly, init, t.drop_last());
    if i == s.len() - 1 {
        assert(t.drop_last() =~= s.drop_last());
    } else {
        assert(t.drop_last() =~= s.drop_last().update(i, b));
        law_crc8_detects_altered_byte(poly, init, s.drop_last(), i, b);
    }
    if crc8_step(poly, cs, s.last()) == crc8_step(poly, ct, t.last()) {
        law_crc8_step_injective(poly, cs, s.last(), ct, t.last());
    }
}

proof fn lemma_zero_bit(poly: u8)
    by (bit_vector)
    ensures
        crc8_bit(0, poly) == 0,
{
}

proof fn lemma_zero_bits(poly: u8, n: nat)
    ensures
        crc8_bits(0, poly, n) == 0,
    decreases n,
{
    if n > 0 {
        lemma_zero_bits(poly, (n - 1) as nat);
        lemma_zero_bit(poly);
    }
}

proof fn lemma_xor_self(c: u8)
    by (bit_vector)
    ensures
        c ^ c == 0,
{
}

/// A message followed by its own remainder divides evenly.
pub proof fn law_crc8_residue(poly: u8, init: u8, s: Seq<u8>)
    ensures
        crc8_over(poly, init, s.push(crc8_over(poly, init, s))) == 0,
{
    let c = crc8_over(poly, init, s);
    assert(s.push(c).drop_last() =~= s);
    lemma_xor_self(c);
    lemma_zero_bits(poly, 8);
}

proof fn lemma_crc8_xor(a: u8, b: u8, poly: u8)
    by (bit_vector)
    ensures
        crc8_bit(a ^ b, poly) == crc8_bit(a, poly) ^ crc8_bit(b, poly),
{
}

proof fn lemma_crc8_bits_xor(a: u8, b: u8, poly: u8, n: nat)
    ensures
        crc8_bits(a ^ b, poly, n) == crc8_bits(a, poly, n) ^ crc8_bits(b, poly, n),
    decreases n,
{
    if n > 0 {
        let m = (n - 1) as nat;
        lemma_crc8_bits_xor(a, b, poly, m);
        lemma_crc8_xor(crc8_bits(a, poly, m), crc8_bits(b, poly, m), poly);
    }
}

proof fn lemma_crc8_last_bit(poly: u8, p: u8)
    by (bit_vector)
    requires
        p == crc8_bit(crc8_bit(crc8_bit(crc8_bit(crc8_bit(crc8_bit(crc8_bit(crc8_bit(
            1,
            poly,
        ), poly), poly), poly), poly), poly), poly), poly),
    ensures
        p == poly,
{
}

proof fn lemma_crc8_shift(poly: u8, b: u8, n: nat)
    requires
        b < 0x80,
    ensures
        crc8_bits((2 * b) as u8, poly, n) == crc8_bits(b, poly, n + 1),
    decreases n,
{
    if n == 0 {
        assert(b < 0x80 ==> (b << 1) == 2 * b && b & 0x80 == 0) by (bit_vector);
        reveal_with_fuel(crc8_bits, 3);
    } else {
        lemma_crc8_shift(poly, b, (n - 1) as nat);
    }
}

/// What makes it the division by the polynomial: the last bit of a byte leaves
/// the polynomial itself, a byte moved up by one bit leaves the remainder moved
/// up by one bit (less the polynomial when a bit falls out), and remainders of
/// sums are sums of remainders.
pub proof fn law_crc8_divides(poly: u8, b: u8, c: u8)
    ensures
        crc8_step(poly, 0, 1) == poly,
        b < 0x80 ==> ({
            let r = crc8_step(poly, 0, b);
            crc8_step(poly, 0, (2 * b) as u8) == if r & 0x80 != 0 {
                (r << 1) ^ poly
            } else {
                r << 1
            }
        }),
        crc8_step(poly, 0, b ^ c) == crc8_step(poly, 0, b) ^ crc8_step(poly, 0, c),
        crc8_step(poly, b, c) == crc8_step(poly, 0, b ^ c),
{
    assert(0u8 ^ 1 == 1) by (bit_vector);
    assert(0u8 ^ b == b && 0u8 ^ c == c && 0u8 ^ (b ^ c) == b ^ c) by (bit_vector);
    reveal_with_fuel(crc8_bits, 9);
    lemma_crc8_last_bit(poly, crc8_bits(1, poly, 8));
    lemma_crc8_bits_xor(b, c, poly, 8);
    if b < 0x80 {
        let d = (2 * b) as u8;
        assert(0u8 ^ d == d) by (bit_vector);
        lemma_crc8_shift(poly, b, 8);
        assert(crc8_bits(b, poly, 9) == crc8_bit(crc8_bits(b, poly, 8), poly));
    }
}

/// The remainder of a message is built up byte by byte, first byte first.
pub proof fn law_crc8_appended(poly: u8, init: u8, s: Seq<u8>, b: u8)
    ensures
        crc8_over(poly, init, Seq::<u8>::empty()) == init,
        crc8_over(poly, init, s.push(b)) == crc8_step(poly, crc8_over(poly, init, s), b),
{
    assert(s.push(b).drop_last() =~= s);
}

} // verus!
