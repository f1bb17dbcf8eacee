//! `u16` as an element kind.
use vstd::prelude::*;
use vstd::arithmetic::div_mod::lemma_fundamental_div_mod;
use crate::cast::SimdCast;
use crate::element::{
    lemma_trunc_div_bounds,
    lemma_wrap_into_mod,
    lemma_wrap_into_near,
    trunc_div,
    trunc_rem,
    IntElement,
    IntModel,
    SimdElement,
};
use crate::sealed::Sealed;

verus! {

impl Sealed for u16 {

}

impl SimdElement for u16 {
    type Mask = i16;
}

impl IntModel for u16 {
    open spec fn min_value() -> int {
        u16::MIN as int
    }

    open spec fn max_value() -> int {
        u16::MAX as int
    }

    open spec fn bits() -> nat {
        u16::BITS as nat
    }

    open spec fn value(self) -> int {
        self as int
    }

    open spec fn from_value(v: int) -> Self {
        v as u16
    }

    open spec fn bits_and(self, rhs: Self) -> Self {
        self & rhs
    }

    open spec fn bits_or(self, rhs: Self) -> Self {
        self | rhs
    }

    open spec fn bits_xor(self, rhs: Self) -> Self {
        self ^ rhs
    }

    open spec fn bits_not(self) -> Self {
        !self
    }

    open spec fn bits_shl(self, amount: Self) -> Self {
        self << amount
    }

    open spec fn bits_shr(self, amount: Self) -> Self {
        self >> amount
    }

    proof fn lemma_range() {
    }

    proof fn lemma_value_in_range(self) {
    }

    proof fn lemma_from_value(v: int) {
    }

    proof fn lemma_value_injective(self, other: Self) {
    }
}

impl IntElement for u16 {
    fn min_lane() -> (r: Self) {
        u16::MIN
    }

    fn max_lane() -> (r: Self) {
        u16::MAX
    }

    fn zero() -> (r: Self) {
        0
    }

    fn one() -> (r: Self) {
        1
    }

    fn width() -> (r: Self) {
        u16::BITS as u16
    }

    fn wrapping_add(self, rhs: Self) -> (r: Self) {
        proof {
            lemma_wrap_into_near(u16::MIN as int, u16::MAX as int, self + rhs);
        }
        u16::wrapping_add(self, rhs)
    }

    fn wrapping_sub(self, rhs: Self) -> (r: Self) {
        proof {
            lemma_wrap_into_near(u16::MIN as int, u16::MAX as int, self - rhs);
        }
        u16::wrapping_sub(self, rhs)
    }

    fn wrapping_mul(self, rhs: Self) -> (r: Self) {
        proof {
            lemma_wrap_into_mod(u16::MIN as int, u16::MAX as int, self * rhs);
        }
        u16::wrapping_mul(self, rhs)
    }

    fn wrapping_div(self, rhs: Self) -> (r: Self) {
        proof {
            lemma_trunc_div_bounds(self as int, rhs as int);
            lemma_wrap_into_near(u16::MIN as int, u16::MAX as int, trunc_div(self as int, rhs as int));
        }
        self / rhs
    }

    fn wrapping_rem(self, rhs: Self) -> (r: Self) {
        proof {
            lemma_trunc_div_bounds(self as int, rhs as int);
            lemma_fundamental_div_mod(self as int, rhs as int);
            lemma_wrap_into_near(u16::MIN as int, u16::MAX as int, trunc_rem(self as int, rhs as int));
        }
        self % rhs
    }

    fn bitand(self, rhs: Self) -> (r: Self) {
        self & rhs
    }

    fn bitor(self, rhs: Self) -> (r: Self) {
        self | rhs
    }

    fn bitxor(self, rhs: Self) -> (r: Self) {
        self ^ rhs
    }

    fn not(self) -> (r: Self) {
        !self
    }

    fn shl(self, amount: Self) -> (r: Self) {
        self << amount
    }

    fn shr(self, amount: Self) -> (r: Self) {
        self >> amount
    }

    fn lane_eq(self, rhs: Self) -> (r: bool) {
        self == rhs
    }

    fn lane_lt(self, rhs: Self) -> (r: bool) {
        self < rhs
    }
}

impl SimdCast for u16 {
    fn to_wide(self) -> (r: i128) {
        self as i128
    }

    fn from_wide(wide: i128) -> (r: Self) {
        let r = #[verifier::truncate] (wide as u16);
        proof {
            assert(wide as u16 as int == wide % 0x1_0000) by (bit_vector);
        }
        r
    }
}

} // verus!
