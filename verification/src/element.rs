//! Element kinds: what may be a lane of a vector, and the integer model over
//! which lane arithmetic is stated.
//!
//! Every integer lane stands for a mathematical integer, its `value()`, inside
//! the range `min_value() ..= max_value()` of its kind. Arithmetic on lanes is
//! arithmetic on those integers, brought back into the range by `wrap_into`
//! (wrapping operations) or `clamp_into` (saturating ones).
use vstd::prelude::*;
use crate::sealed::Sealed;
use vstd::arithmetic::div_mod::{
    lemma_div_nonincreasing,
    lemma_div_pos_is_pos,
    lemma_fundamental_div_mod,
    lemma_fundamental_div_mod_converse,
    lemma_mod_bound,
};

verus! {

/// A type that may be a lane of a vector: one of the integer kinds and the
/// floating-point kinds of this crate.
pub trait SimdElement: Copy + Sealed {
    /// The signed integer kind of the same width, of which the lanes of a
    /// full-width mask over this kind are made.
    type Mask;
}

/// The integer in `lo ..= hi` that differs from `x` by a multiple of the
/// number of integers in that range.
pub open spec fn wrap_into(lo: int, hi: int, x: int) -> int {
    lo + (x - lo) % (hi - lo + 1)
}

/// The integer in `lo ..= hi` that is nearest to `x`.
pub open spec fn clamp_into(lo: int, hi: int, x: int) -> int {
    if x < lo {
        lo
    } else if x > hi {
        hi
    } else {
        x
    }
}

/// The quotient of `a` by `b`, rounded toward zero.
pub open spec fn trunc_div(a: int, b: int) -> int {
    if a >= 0 && b > 0 {
        a / b
    } else if a < 0 && b < 0 {
        (-a) / (-b)
    } else if a < 0 {
        -((-a) / b)
    } else {
        -(a / (-b))
    }
}

/// What is left of `a` after `b` has been taken out `trunc_div(a, b)` times;
/// it has the sign of `a`.
pub open spec fn trunc_rem(a: int, b: int) -> int {
    a - b * trunc_div(a, b)
}

/// The model of an integer kind: the integer that a lane stands for, the
/// range of the kind, and what the bitwise operations make of two lanes.
pub trait IntModel: SimdElement {
    /// The least integer of this kind.
    spec fn min_value() -> int;

    /// The greatest integer of this kind.
    spec fn max_value() -> int;

    /// The width of this kind in bits.
    spec fn bits() -> nat;

    /// The integer that a lane stands for.
    spec fn value(self) -> int;

    /// The lane that stands for `v`, for `v` in the range of this kind.
    spec fn from_value(v: int) -> Self;

    /// Bitwise "and" of two lanes.
    spec fn bits_and(self, rhs: Self) -> Self;

    /// Bitwise "or" of two lanes.
    spec fn bits_or(self, rhs: Self) -> Self;

    /// Bitwise "exclusive or" of two lanes.
    spec fn bits_xor(self, rhs: Self) -> Self;

    /// The lane with every bit flipped.
    spec fn bits_not(self) -> Self;

    /// The lane shifted left by `amount` bits; bits shifted out are lost.
    spec fn bits_shl(self, amount: Self) -> Self;

    /// The lane shifted right by `amount` bits, the sign bit filling in for
    /// signed kinds and zero for unsigned ones.
    spec fn bits_shr(self, amount: Self) -> Self;

    /// The range holds 0 and 1, is that of an unsigned or of a two's
    /// complement kind, and fits in 64 bits.
    proof fn lemma_range()
        ensures
            Self::min_value() <= 0,
            1 <= Self::max_value(),
            Self::min_value() == 0 || Self::min_value() == -Self::max_value() - 1,
            -0x8000_0000_0000_0000 <= Self::min_value(),
            Self::max_value() <= 0xffff_ffff_ffff_ffff,
            8 <= Self::bits() <= 64,
    ;

    /// The value of a lane lies in the range of the kind.
    proof fn lemma_value_in_range(self)
        ensures
            Self::min_value() <= self.value() <= Self::max_value(),
    ;

    /// Every integer of the range is the value of the lane made from it.
    proof fn lemma_from_value(v: int)
        requires
            Self::min_value() <= v <= Self::max_value(),
        ensures
            Self::from_value(v).value() == v,
    ;

    /// Lanes with the same value are the same lane.
    proof fn lemma_value_injective(self, other: Self)
        requires
            self.value() == other.value(),
        ensures
            self == other,
    ;

}

/// An integer kind: a lane that stands for an integer of a bounded range, with
/// the scalar operations that the lanewise operations of a vector are made of.
pub trait IntElement: IntModel {
    /// The least lane of the kind.
    fn min_lane() -> (r: Self)
        ensures
            r.value() == Self::min_value(),
    ;

    /// The greatest lane of the kind.
    fn max_lane() -> (r: Self)
        ensures
            r.value() == Self::max_value(),
    ;

    /// The lane that stands for 0.
    fn zero() -> (r: Self)
        ensures
            r.value() == 0,
    ;

    /// The lane that stands for 1.
    fn one() -> (r: Self)
        ensures
            r.value() == 1,
    ;

    /// The width of the kind in bits, as a lane.
    fn width() -> (r: Self)
        ensures
            r.value() == Self::bits(),
    ;

    /// The sum, wrapped into the range of the kind.
    fn wrapping_add(self, rhs: Self) -> (r: Self)
        ensures
            r == spec_wrapping_add(self, rhs),
    ;

    /// The difference, wrapped into the range of the kind.
    fn wrapping_sub(self, rhs: Self) -> (r: Self)
        ensures
            r == spec_wrapping_sub(self, rhs),
    ;

    /// The product, wrapped into the range of the kind.
    fn wrapping_mul(self, rhs: Self) -> (r: Self)
        ensures
            r == spec_wrapping_mul(self, rhs),
    ;

    /// Division that rounds toward zero. The one quotient that leaves the
    /// range, the least value of a signed kind by -1, wraps to the least value.
    fn wrapping_div(self, rhs: Self) -> (r: Self)
        requires
            rhs.value() != 0,
        ensures
            r == spec_wrapping_div(self, rhs),
    ;

    /// The remainder of the division that rounds toward zero.
    fn wrapping_rem(self, rhs: Self) -> (r: Self)
        requires
            rhs.value() != 0,
        ensures
            r == spec_wrapping_rem(self, rhs),
    ;

    /// Bitwise "and".
    fn bitand(self, rhs: Self) -> (r: Self)
        ensures
            r == self.bits_and(rhs),
    ;

    /// Bitwise "or".
    fn bitor(self, rhs: Self) -> (r: Self)
        ensures
            r == self.bits_or(rhs),
    ;

    /// Bitwise "exclusive or".
    fn bitxor(self, rhs: Self) -> (r: Self)
        ensures
            r == self.bits_xor(rhs),
    ;

    /// The lane with every bit flipped.
    fn not(self) -> (r: Self)
        ensures
            r == self.bits_not(),
    ;

    /// The lane shifted left by an amount that is at least 0 and below the
    /// width of the kind.
    fn shl(self, amount: Self) -> (r: Self)
        requires
            0 <= amount.value() < Self::bits(),
        ensures
            r == self.bits_shl(amount),
    ;

    /// The lane shifted right by an amount that is at least 0 and below the
    /// width of the kind.
    fn shr(self, amount: Self) -> (r: Self)
        requires
            0 <= amount.value() < Self::bits(),
        ensures
            r == self.bits_shr(amount),
    ;

    /// Whether two lanes have the same value.
    fn lane_eq(self, rhs: Self) -> (r: bool)
        ensures
            r == (self.value() == rhs.value()),
    ;

    /// Whether the value of this lane is less than that of the other.
    fn lane_lt(self, rhs: Self) -> (r: bool)
        ensures
            r == (self.value() < rhs.value()),
    ;
}

/// Whether a lane is one that a full-width mask is made of: 0, no bit set,
/// or -1, every bit set.
pub open spec fn is_mask_lane<T: IntModel>(lane: T) -> bool {
    lane.value() == 0 || lane.value() == -1
}

/// A signed integer kind: the lanes of a full-width mask are of such a kind,
/// -1 (every bit set) for true and 0 for false.
pub trait MaskElement: IntElement {
    /// The kind has negative values.
    proof fn lemma_signed()
        ensures
            Self::min_value() < 0,
    ;

    /// On mask lanes the bitwise operations are the boolean ones.
    proof fn lemma_mask_lanes(a: Self, b: Self)
        requires
            is_mask_lane(a),
            is_mask_lane(b),
        ensures
            a.bits_and(b).value() == (if a.value() == -1 && b.value() == -1 {
                -1int
            } else {
                0int
            }),
            a.bits_or(b).value() == (if a.value() == -1 || b.value() == -1 {
                -1int
            } else {
                0int
            }),
            a.bits_xor(b).value() == (if a.value() != b.value() {
                -1int
            } else {
                0int
            }),
            a.bits_not().value() == (if a.value() == -1 {
                0int
            } else {
                -1int
            }),
    ;
}

/// The lane of kind `T` that `x` wraps to.
pub open spec fn wrapped<T: IntModel>(x: int) -> T {
    T::from_value(wrap_into(T::min_value(), T::max_value(), x))
}

/// The lane of kind `T` that `x` saturates to.
pub open spec fn saturated<T: IntModel>(x: int) -> T {
    T::from_value(clamp_into(T::min_value(), T::max_value(), x))
}

/// The sum of two lanes, wrapped into the range of the kind.
pub open spec fn spec_wrapping_add<T: IntModel>(a: T, b: T) -> T {
    wrapped::<T>(a.value() + b.value())
}

/// The difference of two lanes, wrapped into the range of the kind.
pub open spec fn spec_wrapping_sub<T: IntModel>(a: T, b: T) -> T {
    wrapped::<T>(a.value() - b.value())
}

/// The product of two lanes, wrapped into the range of the kind.
pub open spec fn spec_wrapping_mul<T: IntModel>(a: T, b: T) -> T {
    wrapped::<T>(a.value() * b.value())
}

/// The quotient of two lanes, rounded toward zero and wrapped into the range
/// of the kind; only the least value of a signed kind divided by -1 wraps.
pub open spec fn spec_wrapping_div<T: IntModel>(a: T, b: T) -> T {
    wrapped::<T>(trunc_div(a.value(), b.value()))
}

/// The remainder of the division that rounds toward zero.
pub open spec fn spec_wrapping_rem<T: IntModel>(a: T, b: T) -> T {
    wrapped::<T>(trunc_rem(a.value(), b.value()))
}

/// The negation of a lane, wrapped into the range of the kind.
pub open spec fn spec_wrapping_neg<T: IntModel>(a: T) -> T {
    wrapped::<T>(-a.value())
}

/// The lane of a full-width mask that stands for `b`.
pub open spec fn spec_truth<T: IntModel>(b: bool) -> T {
    T::from_value(if b { -1 } else { 0 })
}

/// `wrap_into` lands in the range, moves `x` by a multiple of the range's
/// size, and leaves alone what is in the range already.
pub proof fn lemma_wrap_into(lo: int, hi: int, x: int)
    requires
        lo <= hi,
    ensures
        lo <= wrap_into(lo, hi, x) <= hi,
        (x - wrap_into(lo, hi, x)) % (hi - lo + 1) == 0,
        lo <= x <= hi ==> wrap_into(lo, hi, x) == x,
{
    let m = hi - lo + 1;
    lemma_mod_bound(x - lo, m);
    lemma_fundamental_div_mod(x - lo, m);
    let q = (x - lo) / m;
    assert(x - wrap_into(lo, hi, x) == m * q);
    lemma_fundamental_div_mod_converse(m * q, m, q, 0);
    if lo <= x <= hi {
        lemma_fundamental_div_mod_converse(x - lo, m, 0, x - lo);
    }
}

/// What `wrap_into` makes of an integer that is no further than one range
/// away from the range.
pub proof fn lemma_wrap_into_near(lo: int, hi: int, x: int)
    requires
        lo <= hi,
    ensures
        lo <= x <= hi ==> wrap_into(lo, hi, x) == x,
        hi < x <= hi + (hi - lo + 1) ==> wrap_into(lo, hi, x) == x - (hi - lo + 1),
        lo - (hi - lo + 1) <= x < lo ==> wrap_into(lo, hi, x) == x + (hi - lo + 1),
{
    let m = hi - lo + 1;
    if lo <= x <= hi {
        lemma_fundamental_div_mod_converse(x - lo, m, 0, x - lo);
    } else if hi < x <= hi + m {
        lemma_fundamental_div_mod_converse(x - lo, m, 1, x - lo - m);
    } else if lo - m <= x < lo {
        lemma_fundamental_div_mod_converse(x - lo, m, -1, x - lo + m);
    }
}

/// `wrap_into` by way of the remainder that is never negative.
pub proof fn lemma_wrap_into_mod(lo: int, hi: int, x: int)
    requires
        lo <= 0 <= hi,
    ensures
        wrap_into(lo, hi, x) == (if x % (hi - lo + 1) > hi {
            x % (hi - lo + 1) - (hi - lo + 1)
        } else {
            x % (hi - lo + 1)
        }),
{
    let m = hi - lo + 1;
    lemma_mod_bound(x, m);
    lemma_fundamental_div_mod(x, m);
    assert(x == x % m + (x / m) * m) by (nonlinear_arith)
        requires
            x == m * (x / m) + x % m,
    ;
    lemma_wrap_into_congruent(lo, hi, x, x % m, x / m);
    lemma_wrap_into_near(lo, hi, x % m);
}

/// Two integers that differ by a multiple of the range's size wrap to the same.
pub proof fn lemma_wrap_into_congruent(lo: int, hi: int, x: int, y: int, k: int)
    requires
        lo <= hi,
        x == y + k * (hi - lo + 1),
    ensures
        wrap_into(lo, hi, x) == wrap_into(lo, hi, y),
{
    let m = hi - lo + 1;
    lemma_mod_bound(y - lo, m);
    lemma_fundamental_div_mod(y - lo, m);
    let q = (y - lo) / m;
    let r = (y - lo) % m;
    assert(x - lo == m * (q + k) + r) by (nonlinear_arith)
        requires
            x == y + k * m,
            y - lo == m * q + r,
    ;
    lemma_fundamental_div_mod_converse(x - lo, m, q + k, r);
}

/// Wrapping an operand first does not change what a sum wraps to.
pub proof fn lemma_wrap_into_add(lo: int, hi: int, x: int, y: int)
    requires
        lo <= hi,
    ensures
        wrap_into(lo, hi, wrap_into(lo, hi, x) + y) == wrap_into(lo, hi, x + y),
{
    let m = hi - lo + 1;
    lemma_fundamental_div_mod(x - lo, m);
    let q = (x - lo) / m;
    assert(x + y == wrap_into(lo, hi, x) + y + q * m) by (nonlinear_arith)
        requires
            x - lo == m * q + (x - lo) % m,
            wrap_into(lo, hi, x) == lo + (x - lo) % m,
    ;
    lemma_wrap_into_congruent(lo, hi, x + y, wrap_into(lo, hi, x) + y, q);
}

/// Wrapping an operand first does not change what a product wraps to.
pub proof fn lemma_wrap_into_mul(lo: int, hi: int, x: int, y: int)
    requires
        lo <= hi,
    ensures
        wrap_into(lo, hi, wrap_into(lo, hi, x) * y) == wrap_into(lo, hi, x * y),
{
    let m = hi - lo + 1;
    lemma_fundamental_div_mod(x - lo, m);
    let q = (x - lo) / m;
    assert(x * y == wrap_into(lo, hi, x) * y + (q * y) * m) by (nonlinear_arith)
        requires
            x - lo == m * q + (x - lo) % m,
            wrap_into(lo, hi, x) == lo + (x - lo) % m,
    ;
    lemma_wrap_into_congruent(lo, hi, x * y, wrap_into(lo, hi, x) * y, q * y);
}

/// The value of a wrapped lane.
pub proof fn lemma_wrapped_value<T: IntModel>(x: int)
    ensures
        wrapped::<T>(x).value() == wrap_into(T::min_value(), T::max_value(), x),
        T::min_value() <= x <= T::max_value() ==> wrapped::<T>(x).value() == x,
{
    T::lemma_range();
    lemma_wrap_into(T::min_value(), T::max_value(), x);
    T::lemma_from_value(wrap_into(T::min_value(), T::max_value(), x));
}

/// A lane is the lane of its value.
pub proof fn lemma_from_value_of_value<T: IntModel>(a: T)
    ensures
        T::from_value(a.value()) == a,
        wrapped::<T>(a.value()) == a,
        saturated::<T>(a.value()) == a,
{
    a.lemma_value_in_range();
    T::lemma_from_value(a.value());
    T::from_value(a.value()).lemma_value_injective(a);
    T::lemma_range();
    lemma_wrap_into(T::min_value(), T::max_value(), a.value());
}

/// The quotient that rounds toward zero is no further from zero than the
/// dividend, and the remainder is nearer to zero than the divisor.
pub proof fn lemma_trunc_div_bounds(a: int, b: int)
    requires
        b != 0,
    ensures
        a >= 0 ==> -a <= trunc_div(a, b) <= a,
        a < 0 ==> a <= trunc_div(a, b) <= -a,
        a >= 0 ==> 0 <= trunc_rem(a, b) <= a,
        a < 0 ==> a <= trunc_rem(a, b) <= 0,
        b > 0 ==> -b < trunc_rem(a, b) < b,
        b < 0 ==> b < trunc_rem(a, b) < -b,
{
    let x = if a >= 0 { a } else { -a };
    let d = if b > 0 { b } else { -b };
    lemma_div_pos_is_pos(x, d);
    lemma_div_nonincreasing(x, d);
    lemma_fundamental_div_mod(x, d);
    lemma_mod_bound(x, d);
    let q = x / d;
    assert(d * q == q * d) by (nonlinear_arith);
    assert(b * (-q) == -(b * q)) by (nonlinear_arith);
    assert((-d) * q == -(d * q)) by (nonlinear_arith);
    assert((-d) * (-q) == d * q) by (nonlinear_arith);
}

/// The lane that stands for `b` in a full-width mask.
pub fn truth<T: MaskElement>(b: bool) -> (r: T)
    ensures
        r == spec_truth::<T>(b),
        r.value() == (if b { -1int } else { 0int }),
{
    let zero = T::zero();
    let r = if b {
        zero.wrapping_sub(T::one())
    } else {
        zero
    };
    proof {
        T::lemma_signed();
        T::lemma_range();
        lemma_wrapped_value::<T>(-1);
        lemma_from_value_of_value(r);
    }
    r
}

} // verus!
