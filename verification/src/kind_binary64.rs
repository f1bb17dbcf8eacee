//! The 64-bit binary floating-point format as an element kind.
use vstd::prelude::*;
use vstd::arithmetic::power2::{lemma2_to64, lemma2_to64_rest};
use crate::cast::SimdCast;
use crate::element::{saturated, IntModel, SimdElement};
use crate::error::SimdError;
use crate::float::{
    float_eq,
    float_le,
    float_lt,
    float_max,
    float_min,
    float_signum,
    int_part,
    is_finite,
    is_float_max_of,
    is_float_min_of,
    is_infinite,
    is_nan,
    is_normal,
    is_subnormal,
    with_sign,
    FloatElement,
    FloatModel,
};
use crate::float_ops::{
    fits_int,
    float_clamp,
    ordered_float_bounds,
    vector_abs,
    vector_copysign,
    vector_float_clamp,
    vector_float_eq,
    vector_float_le,
    vector_float_lt,
    vector_float_max,
    vector_float_min,
    vector_is_finite,
    vector_is_infinite,
    vector_is_nan,
    vector_is_normal,
    vector_is_sign_negative,
    vector_is_subnormal,
    vector_neg,
    vector_reduce_max,
    vector_reduce_min,
    vector_signum,
    vector_to_int,
    vector_to_int_unchecked,
};
use crate::lane_count::{LaneCount, SupportedLaneCount};
use crate::masks::Mask;
use crate::sealed::Sealed;
use crate::vector::Simd;

verus! {

/// A number of the 64-bit binary floating-point format, held as its bits:
/// the sign in the highest bit, below it the exponent field, and the mantissa
/// field in the lowest 52 bits.
#[derive(Debug)]
pub struct Binary64 {
    pub bits: u64,
}

impl Clone for Binary64 {
    fn clone(&self) -> (r: Self)
        ensures
            r == *self,
    {
        *self
    }
}

impl Copy for Binary64 {

}

impl Binary64 {
    /// The number with the given bits.
    pub fn from_bits(bits: u64) -> (r: Self)
        ensures
            r.bits == bits,
    {
        Binary64 { bits }
    }

    /// The bits of the number.
    pub fn to_bits(self) -> (r: u64)
        ensures
            r == self.bits,
    {
        self.bits
    }
}

impl Sealed for Binary64 {

}

impl SimdElement for Binary64 {
    type Mask = i64;
}

impl FloatModel for Binary64 {
    open spec fn mantissa_width() -> nat {
        52
    }

    open spec fn max_exponent() -> int {
        2047
    }

    open spec fn bias() -> int {
        1023
    }

    open spec fn sign_bit(self) -> bool {
        self.bits >= 0x8000_0000_0000_0000
    }

    open spec fn exponent(self) -> int {
        (self.bits as int / 0x10_0000_0000_0000) % 0x800
    }

    open spec fn mantissa(self) -> int {
        self.bits as int % 0x10_0000_0000_0000
    }

    open spec fn from_parts(sign: bool, exponent: int, mantissa: int) -> Self {
        Binary64 {
            bits: ((if sign {
                0x8000_0000_0000_0000int
            } else {
                0int
            }) + exponent * 0x10_0000_0000_0000 + mantissa) as u64,
        }
    }

    proof fn lemma_layout() {
    }

    proof fn lemma_parts(self) {
        lemma2_to64();
        lemma2_to64_rest();
    }

    proof fn lemma_from_parts(sign: bool, exponent: int, mantissa: int) {
        lemma2_to64();
        lemma2_to64_rest();
    }
}

impl FloatElement for Binary64 {
    fn mantissa_width_of() -> (r: u32) {
        52
    }

    fn max_exponent_of() -> (r: u32) {
        2047
    }

    fn bias_of() -> (r: u32) {
        1023
    }

    fn sign_of(self) -> (r: bool) {
        self.bits >= 0x8000_0000_0000_0000
    }

    fn exponent_of(self) -> (r: u32) {
        ((self.bits / 0x10_0000_0000_0000) % 0x800) as u32
    }

    fn mantissa_of(self) -> (r: u64) {
        (self.bits % 0x10_0000_0000_0000) as u64
    }

    fn make(sign: bool, exponent: u32, mantissa: u64) -> (r: Self) {
        proof {
            lemma2_to64();
            lemma2_to64_rest();
        }
        let high: u64 = if sign {
            0x8000_0000_0000_0000
        } else {
            0
        };
        Binary64 { bits: high + (exponent as u64) * 0x10_0000_0000_0000 + (mantissa as u64) }
    }
}

impl<const N: usize> Simd<Binary64, N> where LaneCount<N>: SupportedLaneCount {
    /// The bits of the lanes, as a vector of integers.
    pub fn to_bits(self) -> (r: Simd<u64, N>)
        ensures
            r@ == Seq::new(N as nat, |i: int| self@[i].bits),
    {
        let a = self.to_array();
        let mut out = [0u64; N];
        let mut i: usize = 0;
        while i < N
            invariant
                i <= N,
                a@ == self@,
                forall|j: int| 0 <= j < i ==> out@[j] == a@[j].bits,
            decreases N - i,
        {
            out[i] = a[i].to_bits();
            i += 1;
        }
        let r = Simd::from_array(out);
        assert(r@ =~= Seq::new(N as nat, |i: int| self@[i].bits));
        r
    }

    /// The vector whose lanes have the bits that the lanes of `bits` hold.
    pub fn from_bits(bits: Simd<u64, N>) -> (r: Self)
        ensures
            r@ == Seq::new(N as nat, |i: int| Binary64 { bits: bits@[i] }),
    {
        let a = bits.to_array();
        let mut out = [Binary64::from_bits(0); N];
        let mut i: usize = 0;
        while i < N
            invariant
                i <= N,
                a@ == bits@,
                forall|j: int| 0 <= j < i ==> out@[j] == (Binary64 { bits: a@[j] }),
            decreases N - i,
        {
            out[i] = Binary64::from_bits(a[i]);
            i += 1;
        }
        let r = Simd::from_array(out);
        assert(r@ =~= Seq::new(N as nat, |i: int| Binary64 { bits: bits@[i] }));
        r
    }

    /// The lanes with the sign bit cleared.
    pub fn abs(self) -> (r: Self)
        ensures
            r@ == Seq::new(N as nat, |i: int| with_sign(self@[i], false)),
    {
        vector_abs(self)
    }

    /// The lanes with the sign bit flipped.
    pub fn neg(self) -> (r: Self)
        ensures
            r@ == Seq::new(N as nat, |i: int| with_sign(self@[i], !self@[i].sign_bit())),
    {
        vector_neg(self)
    }

    /// The lanes with the signs of the lanes of `sign`.
    pub fn copysign(self, sign: Self) -> (r: Self)
        ensures
            r@ == Seq::new(N as nat, |i: int| with_sign(self@[i], sign@[i].sign_bit())),
    {
        vector_copysign(self, sign)
    }

    /// In each lane, 1 with the sign of the lane; a lane that is not a number
    /// stays as it is.
    pub fn signum(self) -> (r: Self)
        ensures
            r@ == Seq::new(N as nat, |i: int| float_signum(self@[i])),
    {
        vector_signum(self)
    }

    /// The mask of the lanes whose sign bit is clear, whatever else they hold.
    pub fn is_sign_positive(self) -> (r: Mask<i64, N>)
        ensures
            r@ == Seq::new(N as nat, |i: int| !self@[i].sign_bit()),
    {
        let r = std::ops::Not::not(vector_is_sign_negative(self));
        assert(r@ =~= Seq::new(N as nat, |i: int| !self@[i].sign_bit()));
        r
    }

    /// The mask of the lanes whose sign bit is set, whatever else they hold.
    pub fn is_sign_negative(self) -> (r: Mask<i64, N>)
        ensures
            r@ == Seq::new(N as nat, |i: int| self@[i].sign_bit()),
    {
        vector_is_sign_negative(self)
    }

    /// The mask of the lanes that are not a number.
    pub fn is_nan(self) -> (r: Mask<i64, N>)
        ensures
            r@ == Seq::new(N as nat, |i: int| is_nan(self@[i])),
    {
        vector_is_nan(self)
    }

    /// The mask of the lanes that are infinities.
    pub fn is_infinite(self) -> (r: Mask<i64, N>)
        ensures
            r@ == Seq::new(N as nat, |i: int| is_infinite(self@[i])),
    {
        vector_is_infinite(self)
    }

    /// The mask of the lanes that are numbers and no infinities.
    pub fn is_finite(self) -> (r: Mask<i64, N>)
        ensures
            r@ == Seq::new(N as nat, |i: int| is_finite(self@[i])),
    {
        vector_is_finite(self)
    }

    /// The mask of the lanes that are subnormal.
    pub fn is_subnormal(self) -> (r: Mask<i64, N>)
        ensures
            r@ == Seq::new(N as nat, |i: int| is_subnormal(self@[i])),
    {
        vector_is_subnormal(self)
    }

    /// The mask of the lanes that are normal.
    pub fn is_normal(self) -> (r: Mask<i64, N>)
        ensures
            r@ == Seq::new(N as nat, |i: int| is_normal(self@[i])),
    {
        vector_is_normal(self)
    }

    /// The mask of the lanes that are equal as numbers.
    pub fn simd_eq(self, other: Self) -> (r: Mask<i64, N>)
        ensures
            r@ == Seq::new(N as nat, |i: int| float_eq(self@[i], other@[i])),
    {
        vector_float_eq(self, other)
    }

    /// The mask of the lanes that are not equal as numbers; a lane that is not
    /// a number is equal to nothing.
    pub fn simd_ne(self, other: Self) -> (r: Mask<i64, N>)
        ensures
            r@ == Seq::new(N as nat, |i: int| !float_eq(self@[i], other@[i])),
    {
        let r = std::ops::Not::not(vector_float_eq(self, other));
        assert(r@ =~= Seq::new(N as nat, |i: int| !float_eq(self@[i], other@[i])));
        r
    }

    /// The mask of the lanes in which `self` is less than `other`.
    pub fn simd_lt(self, other: Self) -> (r: Mask<i64, N>)
        ensures
            r@ == Seq::new(N as nat, |i: int| float_lt(self@[i], other@[i])),
    {
        vector_float_lt(self, other)
    }

    /// The mask of the lanes in which `self` is less than or equal to `other`.
    pub fn simd_le(self, other: Self) -> (r: Mask<i64, N>)
        ensures
            r@ == Seq::new(N as nat, |i: int| float_le(self@[i], other@[i])),
    {
        vector_float_le(self, other)
    }

    /// The mask of the lanes in which `self` is greater than `other`.
    pub fn simd_gt(self, other: Self) -> (r: Mask<i64, N>)
        ensures
            r@ == Seq::new(N as nat, |i: int| float_lt(other@[i], self@[i])),
    {
        let r = vector_float_lt(other, self);
        assert(r@ =~= Seq::new(N as nat, |i: int| float_lt(other@[i], self@[i])));
        r
    }

    /// The mask of the lanes in which `self` is greater than or equal to
    /// `other`.
    pub fn simd_ge(self, other: Self) -> (r: Mask<i64, N>)
        ensures
            r@ == Seq::new(N as nat, |i: int| float_le(other@[i], self@[i])),
    {
        let r = vector_float_le(other, self);
        assert(r@ =~= Seq::new(N as nat, |i: int| float_le(other@[i], self@[i])));
        r
    }

    /// The lanewise greater of two vectors; where one lane is not a number,
    /// the other lane.
    pub fn simd_max(self, other: Self) -> (r: Self)
        ensures
            r@ == Seq::new(N as nat, |i: int| float_max(self@[i], other@[i])),
    {
        vector_float_max(self, other)
    }

    /// The lanewise lesser of two vectors; where one lane is not a number, the
    /// other lane.
    pub fn simd_min(self, other: Self) -> (r: Self)
        ensures
            r@ == Seq::new(N as nat, |i: int| float_min(self@[i], other@[i])),
    {
        vector_float_min(self, other)
    }

    /// Each lane brought into the interval from the lane of `min` to the lane
    /// of `max`, or the report that a lane of `min` is greater than that of
    /// `max`. A lane that is not a number stays as it is.
    pub fn simd_clamp(self, min: Self, max: Self) -> (r: Result<Self, SimdError>)
        ensures
            ordered_float_bounds(min@, max@) ==> r is Ok && r->Ok_0@ == Seq::new(
                N as nat,
                |i: int| float_clamp(self@[i], min@[i], max@[i]),
            ),
            !ordered_float_bounds(min@, max@) ==> r == Err::<Self, SimdError>(
                SimdError::MinAboveMax,
            ),
    {
        vector_float_clamp(self, min, max)
    }

    /// The greatest lane. Lanes that are not a number are passed over; only if
    /// every lane is such, the result is.
    pub fn reduce_max(self) -> (r: Binary64)
        ensures
            is_float_max_of(self@, r),
    {
        vector_reduce_max(self)
    }

    /// The least lane. Lanes that are not a number are passed over; only if
    /// every lane is such, the result is.
    pub fn reduce_min(self) -> (r: Binary64)
        ensures
            is_float_min_of(self@, r),
    {
        vector_reduce_min(self)
    }

    /// The vector of the integer kind `U` whose lanes are the integer parts of
    /// the lanes: fractions are cut off, what lies beyond the range of the
    /// kind is held at the end of the range, and what is not a number gives 0.
    pub fn cast<U: SimdCast>(self) -> (r: Simd<U, N>)
        ensures
            r@ == Seq::new(N as nat, |i: int| saturated::<U>(int_part(self@[i]))),
    {
        vector_to_int::<Binary64, U, N>(self)
    }

    /// The vector of the integer kind `U` whose lanes are the integer parts of
    /// the lanes, each of which is a number that is no infinity and whose
    /// integer part the kind has.
    pub fn to_int_unchecked<U: SimdCast>(self) -> (r: Simd<U, N>)
        requires
            fits_int::<Binary64, U>(self@),
        ensures
            r@ == Seq::new(N as nat, |i: int| U::from_value(int_part(self@[i]))),
    {
        vector_to_int_unchecked::<Binary64, U, N>(self)
    }
}

} // verus!
