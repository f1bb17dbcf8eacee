//! `i8` as an element kind.
use vstd::prelude::*;
use vstd::arithmetic::div_mod::{lemma_div_basics_1, lemma_fundamental_div_mod};
use crate::cast::SimdCast;
use crate::element::{
    lemma_trunc_div_bounds,
    lemma_wrap_into_mod,
    lemma_wrap_into_near,
    trunc_div,
    trunc_rem,
    IntElement,
    IntModel,
    MaskElement,
    SimdElement,
};
use crate::sealed::Sealed;

verus! {

impl Sealed for i8 {

}

impl SimdElement for i8 {
    type Mask = i8;
}

impl IntModel for i8 {
    open spec fn min_value() -> int {
        i8::MIN as int
    }

    open spec fn max_value() -> int {
        i8::MAX as int
    }

    open spec fn bits() -> nat {
        i8::BITS as nat
    }

    open spec fn value(self) -> int {
        self as int
    }

    open spec fn from_value(v: int) -> Self {
        v as i8
    }

    open spec fn bits_and(self, rhs: Self) -> Self {
        self & rhs
    }

    open spec fn bits_or(self, rhs: Self) -> Self {
        self | rhs
    }

    open spec fn bits_xor(self, rhs: Self) -> Self {
        self ^ rhs
    }

    open spec fn bits_not(self) -> Self {
        !self
    }

    open spec fn bits_shl(self, amount: Self) -> Self {
        self << amount
    }

    open spec fn bits_shr(self, amount: Self) -> Self {
        self >> amount
    }

    proof fn lemma_range() {
    }

    proof fn lemma_value_in_range(self) {
    }

    proof fn lemma_from_value(v: int) {
    }

    proof fn lemma_value_injective(self, other: Self) {
    }
}

impl IntElement for i8 {
    fn min_lane() -> (r: Self) {
        i8::MIN
    }

    fn max_lane() -> (r: Self) {
        i8::MAX
    }

    fn zero() -> (r: Self) {
        0
    }

    fn one() -> (r: Self) {
        1
    }

    fn width() -> (r: Self) {
        i8::BITS as i8
    }

    fn wrapping_add(self, rhs: Self) -> (r: Self) {
        proof {
            lemma_wrap_into_near(i8::MIN as int, i8::MAX as int, self + rhs);
        }
        i8::wrapping_add(self, rhs)
    }

    fn wrapping_sub(self, rhs: Self) -> (r: Self) {
        proof {
            lemma_wrap_into_near(i8::MIN as int, i8::MAX as int, self - rhs);
        }
        i8::wrapping_sub(self, rhs)
    }

    fn wrapping_mul(self, rhs: Self) -> (r: Self) {
        proof {
            lemma_wrap_into_mod(i8::MIN as int, i8::MAX as int, self * rhs);
        }
        i8::wrapping_mul(self, rhs)
    }

    fn wrapping_div(self, rhs: Self) -> (r: Self) {
        proof {
            lemma_trunc_div_bounds(self as int, rhs as int);
            lemma_div_basics_1(rhs as int);
            lemma_div_basics_1(-(rhs as int));
            lemma_wrap_into_near(i8::MIN as int, i8::MAX as int, trunc_div(self as int, rhs as int));
        }
        match i8::checked_div(self, rhs) {
            Some(quotient) => quotient,
            None => i8::MIN,
        }
    }

    fn wrapping_rem(self, rhs: Self) -> (r: Self) {
        proof {
            let a = self as int;
            let b = rhs as int;
            lemma_trunc_div_bounds(a, b);
            lemma_div_basics_1(b);
            lemma_div_basics_1(-b);
            let x = if a >= 0 { a } else { -a };
            let d = if b > 0 { b } else { -b };
            lemma_fundamental_div_mod(x, d);
            assert(b * (-(x / d)) == -(d * (x / d)) || b * (-(x / d)) == d * (x / d)) by (nonlinear_arith)
                requires
                    d == b || d == -b,
            ;
            assert(b * (x / d) == d * (x / d) || b * (x / d) == -(d * (x / d))) by (nonlinear_arith)
                requires
                    d == b || d == -b,
            ;
            lemma_wrap_into_near(i8::MIN as int, i8::MAX as int, trunc_rem(a, b));
        }
        match i8::checked_rem(self, rhs) {
            Some(remainder) => remainder,
            None => 0,
        }
    }

    fn bitand(self, rhs: Self) -> (r: Self) {
        self & rhs
    }

    fn bitor(self, rhs: Self) -> (r: Self) {
        self | rhs
    }

    fn bitxor(self, rhs: Self) -> (r: Self) {
        self ^ rhs
    }

    fn not(self) -> (r: Self) {
        !self
    }

    fn shl(self, amount: Self) -> (r: Self) {
        self << amount
    }

    fn shr(self, amount: Self) -> (r: Self) {
        self >> amount
    }

    fn lane_eq(self, rhs: Self) -> (r: bool) {
        self == rhs
    }

    fn lane_lt(self, rhs: Self) -> (r: bool) {
        self < rhs
    }
}

impl MaskElement for i8 {
    proof fn lemma_signed() {
    }

    proof fn lemma_mask_lanes(a: Self, b: Self) {
        assert({
            &&& a & b == (if a == -1 && b == -1 {
                -1i8
            } else {
                0i8
            })
            &&& a | b == (if a == -1 || b == -1 {
                -1i8
            } else {
                0i8
            })
            &&& a ^ b == (if a != b {
                -1i8
            } else {
                0i8
            })
            &&& !a == (if a == -1 {
                0i8
            } else {
                -1i8
            })
        }) by (bit_vector)
            requires
                a == 0 || a == -1,
                b == 0 || b == -1,
        ;
    }
}

impl SimdCast for i8 {
    fn to_wide(self) -> (r: i128) {
        self as i128
    }

    fn from_wide(wide: i128) -> (r: Self) {
        let r = #[verifier::truncate] (wide as i8);
        proof {
            assert(wide as i8 as int == (0 - 0x80) + (wide - (0 - 0x80)) % 0x100) by (bit_vector);
        }
        r
    }
}

} // verus!
