//! `i16` as an element kind.
use vstd::prelude::*;
use vstd::arithmetic::div_mod::{lemma_div_basics_1, lemma_fundamental_div_mod};
use crate::cast::SimdCast;
use crate::element::{
    lemma_trunc_div_bounds,
    lemma_wrap_into_mod,
    lemma_wrap_into_near,
    trunc_div,
    trunc_rem,
    IntElement,
    IntModel,
    MaskElement,
    SimdElement,
};
use crate::sealed::Sealed;

verus! {

impl Sealed for i16 {

}

impl SimdElement for i16 {
    type Mask = i16;
}

impl IntModel for i16 {
    open spec fn min_value() -> int {
        i16::MIN as int
    }

    open spec fn max_value() -> int {
        i16::MAX as int
    }

    open spec fn bits() -> nat {
        i16::BITS as nat
    }

    open spec fn value(self) -> int {
        self as int
    }

    open spec fn from_value(v: int) -> Self {
        v as i16
    }

    open spec fn bits_and(self, rhs: Self) -> Self {
        self & rhs
    }

    open spec fn bits_or(self, rhs: Self) -> Self {
        self | rhs
    }

    open spec fn bits_xor(self, rhs: Self) -> Self {
        self ^ rhs
    }

    open spec fn bits_not(self) -> Self {
        !self
    }

    open spec fn bits_shl(self, amount: Self) -> Self {
        self << amount
    }

    open spec fn bits_shr(self, amount: Self) -> Self {
        self >> amount
    }

    proof fn lemma_range() {
    }

    proof fn lemma_value_in_range(self) {
    }

    proof fn lemma_from_value(v: int) {
    }

    proof fn lemma_value_injective(self, other: Self) {
    }
}

impl IntElement for i16 {
    fn min_lane() -> (r: Self) {
        i16::MIN
    }

    fn max_lane() -> (r: Self) {
        i16::MAX
    }

    fn zero() -> (r: Self) {
        0
    }

    fn one() -> (r: Self) {
        1
    }

    fn width() -> (r: Self) {
        i16::BITS as i16
    }

    fn wrapping_add(self, rhs: Self) -> (r: Self) {
        proof {
            lemma_wrap_into_near(i16::MIN as int, i16::MAX as int, self + rhs);
        }
        i16::wrapping_add(self, rhs)
    }

    fn wrapping_sub(self, rhs: Self) -> (r: Self) {
        proof {
            lemma_wrap_into_near(i16::MIN as int, i16::MAX as int, self - rhs);
        }
        i16::wrapping_sub(self, rhs)
    }

    fn wrapping_mul(self, rhs: Self) -> (r: Self) {
        proof {
            lemma_wrap_into_mod(i16::MIN as int, i16::MAX as int, self * rhs);
        }
        i16::wrapping_mul(self, rhs)
    }

    fn wrapping_div(self, rhs: Self) -> (r: Self) {
        proof {
            lemma_trunc_div_bounds(self as int, rhs as int);
            lemma_div_basics_1(rhs as int);
            lemma_div_basics_1(-(rhs as int));
            lemma_wrap_into_near(i16::MIN as int, i16::MAX as int, trunc_div(self as int, rhs as int));
        }
        match i16::checked_div(self, rhs) {
            Some(quotient) => quotient,
            None => i16::MIN,
        }
    }

    fn wrapping_rem(self, rhs: Self) -> (r: Self) {
        proof {
            let a = self as int;
            let b = rhs as int;
            lemma_trunc_div_bounds(a, b);
            lemma_div_basics_1(b);
            lemma_div_basics_1(-b);
            let x = if a >= 0 { a } else { -a };
            let d = if b > 0 { b } else { -b };
            lemma_fundamental_div_mod(x, d);
            assert(b * (-(x / d)) == -(d * (x / d)) || b * (-(x / d)) == d * (x / d)) by (nonlinear_arith)
                requires
                    d == b || d == -b,
            ;
            assert(b * (x / d) == d * (x / d) || b * (x / d) == -(d * (x / d))) by (nonlinear_arith)
                requires
                    d == b || d == -b,
            ;
            lemma_wrap_into_near(i16::MIN as int, i16::MAX as int, trunc_rem(a, b));
        }
        match i16::checked_rem(self, rhs) {
            Some(remainder) => remainder,
            None => 0,
        }
    }

    fn bitand(self, rhs: Self) -> (r: Self) {
        self & rhs
    }

    fn bitor(self, rhs: Self) -> (r: Self) {
        self | rhs
    }

    fn bitxor(self, rhs: Self) -> (r: Self) {
        self ^ rhs
    }

    fn not(self) -> (r: Self) {
        !self
    }

    fn shl(self, amount: Self) -> (r: Self) {
        self << amount
    }

    fn shr(self, amount: Self) -> (r: Self) {
        self >> amount
    }

    fn lane_eq(self, rhs: Self) -> (r: bool) {
        self == rhs
    }

    fn lane_lt(self, rhs: Self) -> (r: bool) {
        self < rhs
    }
}

impl MaskElement for i16 {
    proof fn lemma_signed() {
    }

    proof fn lemma_mask_lanes(a: Self, b: Self) {
        assert({
            &&& a & b == (if a == -1 && b == -1 {
                -1i16
            } else {
                0i16
            })
            &&& a | b == (if a == -1 || b == -1 {
                -1i16
            } else {
                0i16
            })
            &&& a ^ b == (if a != b {
                -1i16
            } else {
                0i16
            })
            &&& !a == (if a == -1 {
                0i16
            } else {
                -1i16
            })
        }) by (bit_vector)
            requires
                a == 0 || a == -1,
                b == 0 || b == -1,
        ;
    }
}

impl SimdCast for i16 {
    fn to_wide(self) -> (r: i128) {
        self as i128
    }

    fn from_wide(wide: i128) -> (r: Self) {
        let r = #[verifier::truncate] (wide as i16);
        proof {
            assert(wide as i16 as int == (0 - 0x8000) + (wide - (0 - 0x8000)) % 0x1_0000) by (bit_vector);
        }
        r
    }
}

} // verus!
