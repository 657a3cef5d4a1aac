//! Bits of a byte, and the byte masks that reads and writes are built from.
use vstd::prelude::*;

verus! {

/// Bit `k` of byte `b`, bit 0 being the least significant one.
pub open spec fn bit_of(b: u8, k: u8) -> bool {
    (b >> k) & 1u8 == 1u8
}

/// The byte whose bits, from the least significant up, are `x0 .. x7`.
pub open spec fn pack_bits(
    x0: bool,
    x1: bool,
    x2: bool,
    x3: bool,
    x4: bool,
    x5: bool,
    x6: bool,
    x7: bool,
) -> u8 {
    (if x0 { 1u8 } else { 0u8 }) | (if x1 { 2u8 } else { 0u8 }) | (if x2 { 4u8 } else { 0u8 }) | (
    if x3 {
        8u8
    } else {
        0u8
    }) | (if x4 { 16u8 } else { 0u8 }) | (if x5 { 32u8 } else { 0u8 }) | (if x6 {
        64u8
    } else {
        0u8
    }) | (if x7 { 128u8 } else { 0u8 })
}

/// The byte whose bit `k` is `f(k)`.
pub open spec fn byte_from_bits(f: spec_fn(u8) -> bool) -> u8 {
    pack_bits(f(0), f(1), f(2), f(3), f(4), f(5), f(6), f(7))
}

/// The byte with bits `from .. to` set and every other bit clear.
pub open spec fn fill_spec(from: u8, to: u8) -> u8 {
    byte_from_bits(|k: u8| from <= k < to)
}

proof fn lemma_pack_bits(
    x0: bool,
    x1: bool,
    x2: bool,
    x3: bool,
    x4: bool,
    x5: bool,
    x6: bool,
    x7: bool,
    k: u8,
)
    by (bit_vector)
    requires
        k < 8,
    ensures
        bit_of(pack_bits(x0, x1, x2, x3, x4, x5, x6, x7), k) == ((k == 0 && x0) || (k == 1 && x1)
            || (k == 2 && x2) || (k == 3 && x3) || (k == 4 && x4) || (k == 5 && x5) || (k == 6
            && x6) || (k == 7 && x7)),
{
}

/// Bit `k` of `byte_from_bits(f)` is `f(k)`.
pub proof fn lemma_byte_from_bits(f: spec_fn(u8) -> bool, k: u8)
    requires
        k < 8,
    ensures
        bit_of(byte_from_bits(f), k) == f(k),
{
    lemma_pack_bits(f(0), f(1), f(2), f(3), f(4), f(5), f(6), f(7), k);
}

proof fn lemma_bits_determine_byte(a: u8, b: u8)
    by (bit_vector)
    requires
        bit_of(a, 0) == bit_of(b, 0),
        bit_of(a, 1) == bit_of(b, 1),
        bit_of(a, 2) == bit_of(b, 2),
        bit_of(a, 3) == bit_of(b, 3),
        bit_of(a, 4) == bit_of(b, 4),
        bit_of(a, 5) == bit_of(b, 5),
        bit_of(a, 6) == bit_of(b, 6),
        bit_of(a, 7) == bit_of(b, 7),
    ensures
        a == b,
{
}

/// Two bytes with the same eight bits are equal.
pub proof fn lemma_byte_ext(a: u8, b: u8)
    requires
        forall|k: u8| k < 8 ==> bit_of(a, k) == bit_of(b, k),
    ensures
        a == b,
{
    assert(bit_of(a, 0) == bit_of(b, 0));
    assert(bit_of(a, 1) == bit_of(b, 1));
    assert(bit_of(a, 2) == bit_of(b, 2));
    assert(bit_of(a, 3) == bit_of(b, 3));
    assert(bit_of(a, 4) == bit_of(b, 4));
    assert(bit_of(a, 5) == bit_of(b, 5));
    assert(bit_of(a, 6) == bit_of(b, 6));
    assert(bit_of(a, 7) == bit_of(b, 7));
    lemma_bits_determine_byte(a, b);
}

/// A byte equals `byte_from_bits(f)` when its bits are those of `f`.
pub proof fn lemma_byte_is_from_bits(b: u8, f: spec_fn(u8) -> bool)
    requires
        forall|k: u8| k < 8 ==> bit_of(b, k) == f(k),
    ensures
        b == byte_from_bits(f),
{
    assert forall|k: u8| k < 8 implies bit_of(b, k) == bit_of(byte_from_bits(f), k) by {
        lemma_byte_from_bits(f, k);
    }
    lemma_byte_ext(b, byte_from_bits(f));
}

pub proof fn lemma_bit_and(a: u8, b: u8, k: u8)
    by (bit_vector)
    requires
        k < 8,
    ensures
        bit_of(a & b, k) == (bit_of(a, k) && bit_of(b, k)),
{
}

pub proof fn lemma_bit_or(a: u8, b: u8, k: u8)
    by (bit_vector)
    requires
        k < 8,
    ensures
        bit_of(a | b, k) == (bit_of(a, k) || bit_of(b, k)),
{
}

pub proof fn lemma_bit_not(a: u8, k: u8)
    by (bit_vector)
    requires
        k < 8,
    ensures
        bit_of(!a, k) == !bit_of(a, k),
{
}

pub proof fn lemma_bit_shr(a: u8, s: u8, k: u8)
    by (bit_vector)
    requires
        k < 8,
        s < 8,
    ensures
        bit_of(a >> s, k) == (k + s < 8 && bit_of(a, (k + s) as u8)),
{
}

pub proof fn lemma_bit_shl(a: u8, s: u8, k: u8)
    by (bit_vector)
    requires
        k < 8,
        s < 8,
    ensures
        bit_of(a << s, k) == (k >= s && bit_of(a, (k - s) as u8)),
{
}

pub proof fn lemma_bit_zero(k: u8)
    by (bit_vector)
    ensures
        !bit_of(0u8, k),
{
}

proof fn lemma_bit_one_shl(i: u8, k: u8)
    by (bit_vector)
    requires
        k < 8,
        i < 8,
    ensures
        bit_of(1u8 << i, k) == (k == i),
{
}

/// A byte with bits `from .. to` set (`from == to` gives 0, `(0, 8)` gives
/// `0xFF`).
pub fn filled_byte(from: u8, to: u8) -> (r: u8)
    requires
        to <= 8,
    ensures
        r == fill_spec(from, to),
        forall|k: u8| k < 8 ==> bit_of(r, k) == (from <= k < to),
{
    let mut res: u8 = 0;
    let mut i: u8 = from;
    assert forall|k: u8| k < 8 implies !bit_of(0u8, k) by {
        lemma_bit_zero(k);
    }
    while i < to
        invariant
            from <= i,
            i == from || i <= to,
            to <= 8,
            forall|k: u8| k < 8 ==> bit_of(res, k) == (from <= k < i),
        decreases to - i,
    {
        let bit: u8 = 1u8 << i;
        proof {
            assert forall|k: u8| k < 8 implies bit_of(res | bit, k) == (from <= k < i + 1) by {
                lemma_bit_or(res, bit, k);
                lemma_bit_one_shl(i, k);
            }
        }
        res = res | bit;
        i = i + 1;
    }
    proof {
        lemma_byte_is_from_bits(res, |k: u8| from <= k < to);
    }
    res
}

/// `byte_from_bits` reads its argument on the bits `0 .. 8` only.
pub proof fn lemma_byte_from_bits_ext(f: spec_fn(u8) -> bool, g: spec_fn(u8) -> bool)
    requires
        forall|k: u8| k < 8 ==> #[trigger] f(k) == g(k),
    ensures
        byte_from_bits(f) == byte_from_bits(g),
{
    assert(f(0) == g(0));
    assert(f(1) == g(1));
    assert(f(2) == g(2));
    assert(f(3) == g(3));
    assert(f(4) == g(4));
    assert(f(5) == g(5));
    assert(f(6) == g(6));
    assert(f(7) == g(7));
}

} // verus!
