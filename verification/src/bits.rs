//! Bits of a 64-bit word, as the packed form of a mask reads them: bit 0 is
//! the least significant one.
use vstd::prelude::*;

verus! {

/// Whether bit `i` of `x` is set, for `i` from 0 to 63.
pub open spec fn bit(x: u64, i: int) -> bool {
    (x >> (i as u64)) & 1 == 1
}

/// The word whose `n` lowest bits are set and no others.
pub open spec fn low_mask(n: nat) -> u64 {
    if n >= 64 {
        0xffff_ffff_ffff_ffffu64
    } else {
        ((1u64 << (n as u64)) - 1) as u64
    }
}

/// `low_mask(n)`, computed.
pub fn low_mask_of(n: usize) -> (r: u64)
    requires
        n <= 64,
    ensures
        r == low_mask(n as nat),
{
    if n >= 64 {
        0xffff_ffff_ffff_ffffu64
    } else {
        let k = n as u64;
        assert((1u64 << k) >= 1) by (bit_vector)
            requires
                k < 64,
        ;
        (1u64 << k) - 1
    }
}

/// Bit `i` is set in `low_mask(n)` exactly for `i` below `n`.
pub proof fn lemma_bit_low_mask(n: nat, i: int)
    requires
        n <= 64,
        0 <= i < 64,
    ensures
        bit(low_mask(n), i) == (i < n),
{
    let k = i as u64;
    let m = n as u64;
    if n >= 64 {
        assert((0xffff_ffff_ffff_ffffu64 >> k) & 1 == 1) by (bit_vector)
            requires
                k < 64,
        ;
    } else {
        assert((((((1u64 << m) - 1) as u64) >> k) & 1 == 1) == (k < m)) by (bit_vector)
            requires
                k < 64,
                m < 64,
        ;
    }
}

/// No bit of zero is set.
pub proof fn lemma_bit_zero(i: int)
    requires
        0 <= i < 64,
    ensures
        !bit(0, i),
{
    let k = i as u64;
    assert((0u64 >> k) & 1 == 0) by (bit_vector);
}

/// The bits of "and", "or", "exclusive or" and "not" are those of the
/// operands, combined bit by bit.
pub proof fn lemma_bit_ops(a: u64, b: u64, i: int)
    requires
        0 <= i < 64,
    ensures
        bit(a & b, i) == (bit(a, i) && bit(b, i)),
        bit(a | b, i) == (bit(a, i) || bit(b, i)),
        bit(a ^ b, i) == (bit(a, i) != bit(b, i)),
        bit(!a, i) == !bit(a, i),
{
    let k = i as u64;
    assert({
        &&& (((a & b) >> k) & 1 == 1) == ((a >> k) & 1 == 1 && (b >> k) & 1 == 1)
        &&& (((a | b) >> k) & 1 == 1) == ((a >> k) & 1 == 1 || (b >> k) & 1 == 1)
        &&& (((a ^ b) >> k) & 1 == 1) == (((a >> k) & 1 == 1) != ((b >> k) & 1 == 1))
        &&& (((!a) >> k) & 1 == 1) == !((a >> k) & 1 == 1)
    }) by (bit_vector)
        requires
            k < 64,
    ;
}

/// Setting bit `i` sets that bit and changes no other.
pub proof fn lemma_bit_set(a: u64, i: int, j: int)
    requires
        0 <= i < 64,
        0 <= j < 64,
    ensures
        bit(a | (1u64 << (i as u64)), j) == (i == j || bit(a, j)),
{
    let k = i as u64;
    let l = j as u64;
    assert((((a | (1u64 << k)) >> l) & 1 == 1) == (k == l || (a >> l) & 1 == 1)) by (bit_vector)
        requires
            k < 64,
            l < 64,
    ;
}

/// Clearing bit `i` clears that bit and changes no other.
pub proof fn lemma_bit_clear(a: u64, i: int, j: int)
    requires
        0 <= i < 64,
        0 <= j < 64,
    ensures
        bit(a & !(1u64 << (i as u64)), j) == (i != j && bit(a, j)),
{
    let k = i as u64;
    let l = j as u64;
    assert((((a & !(1u64 << k)) >> l) & 1 == 1) == (k != l && (a >> l) & 1 == 1)) by (bit_vector)
        requires
            k < 64,
            l < 64,
    ;
}

/// Whether bit `j` of the byte `b` is set, for `j` from 0 to 7.
pub open spec fn byte_bit(b: u8, j: int) -> bool {
    (b >> (j as u8)) & 1 == 1
}

/// Byte `k` of a word, the lowest byte being byte 0.
pub open spec fn byte_of(x: u64, k: int) -> u8 {
    ((x >> ((8 * k) as u64)) & 0xff) as u8
}

/// A byte as byte `k` of a word that is zero elsewhere.
pub open spec fn byte_at(b: u8, k: int) -> u64 {
    (b as u64) << ((8 * k) as u64)
}

/// Bit `j` of byte `k` of a word is bit `8 * k + j` of the word.
pub proof fn lemma_byte_of(x: u64, k: int, j: int)
    requires
        0 <= k < 8,
        0 <= j < 8,
    ensures
        byte_bit(byte_of(x, k), j) == bit(x, 8 * k + j),
{
    let s = (8 * k) as u64;
    let t = j as u8;
    let u = (8 * k + j) as u64;
    assert(((((x >> s) & 0xff) as u8 >> t) & 1 == 1) == ((x >> u) & 1 == 1)) by (bit_vector)
        requires
            s <= 56,
            t < 8,
            u == s + t as u64,
    ;
}

/// The bits of a byte put at place `k` of a word are the bits of the byte,
/// `8 * k` places up.
pub proof fn lemma_byte_at(b: u8, k: int, i: int)
    requires
        0 <= k < 8,
        0 <= i < 64,
    ensures
        bit(byte_at(b, k), i) == (8 * k <= i < 8 * k + 8 && byte_bit(b, i - 8 * k)),
{
    let s = (8 * k) as u64;
    let u = i as u64;
    if 8 * k <= i < 8 * k + 8 {
        let t = (i - 8 * k) as u8;
        assert(((((b as u64) << s) >> u) & 1 == 1) == ((b >> t) & 1 == 1)) by (bit_vector)
            requires
                s <= 56,
                t < 8,
                u == s + t as u64,
        ;
    } else {
        assert((((b as u64) << s) >> u) & 1 == 0) by (bit_vector)
            requires
                s <= 56,
                u < 64,
                u < s || u >= s + 8,
        ;
    }
}

/// Words that agree in their `n` lowest bits agree under `low_mask(n)`.
proof fn lemma_low_bits_equal(a: u64, b: u64, n: nat)
    requires
        n <= 64,
        forall|i: int| 0 <= i < n ==> bit(a, i) == bit(b, i),
    ensures
        a & low_mask(n) == b & low_mask(n),
    decreases n,
{
    if n == 0 {
        assert(a & 0 == b & 0) by (bit_vector);
        assert(low_mask(0) == 0) by (bit_vector);
    } else {
        let p = (n - 1) as nat;
        lemma_low_bits_equal(a, b, p);
        assert(bit(a, p as int) == bit(b, p as int));
        let k = p as u64;
        let low = low_mask(p);
        let next = low_mask(n);
        assert(low == ((1u64 << k) - 1) as u64);
        assert(next == low | (1u64 << k)) by (bit_vector)
            requires
                k < 64,
                low == ((1u64 << k) - 1) as u64,
                next == (if k == 63 {
                    0xffff_ffff_ffff_ffffu64
                } else {
                    ((1u64 << ((k + 1) as u64)) - 1) as u64
                }),
        ;
        assert(a & next == b & next) by (bit_vector)
            requires
                k < 64,
                a & low == b & low,
                ((a >> k) & 1 == 1) == ((b >> k) & 1 == 1),
                next == low | (1u64 << k),
        ;
    }
}

/// Words with the same bits are the same word.
pub proof fn lemma_bits_equal(a: u64, b: u64)
    requires
        forall|i: int| 0 <= i < 64 ==> bit(a, i) == bit(b, i),
    ensures
        a == b,
{
    lemma_low_bits_equal(a, b, 64);
    assert(a & 0xffff_ffff_ffff_ffffu64 == a) by (bit_vector);
    assert(b & 0xffff_ffff_ffff_ffffu64 == b) by (bit_vector);
}

/// A word other than zero has a bit set.
pub proof fn lemma_nonzero_has_bit(a: u64)
    requires
        a != 0,
    ensures
        exists|i: int| 0 <= i < 64 && bit(a, i),
{
    if forall|i: int| 0 <= i < 64 ==> !bit(a, i) {
        assert forall|i: int| 0 <= i < 64 implies bit(a, i) == bit(0, i) by {
            lemma_bit_zero(i);
        }
        lemma_bits_equal(a, 0);
    }
}

} // verus!
