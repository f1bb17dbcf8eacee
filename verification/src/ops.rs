//! The lanewise operators of integer vectors.
//!
//! Each operator makes lane `i` of its result from lane `i` of its operands,
//! with the scalar operation of the element kind. Arithmetic wraps: no lane
//! overflows, traps or changes another lane.
use vstd::prelude::*;
use vstd::std_specs::ops::{
    AddSpec,
    AddSpecImpl,
    BitAndSpecImpl,
    BitOrSpecImpl,
    BitXorSpecImpl,
    DivSpecImpl,
    MulSpec,
    MulSpecImpl,
    NegSpecImpl,
    NotSpecImpl,
    RemSpecImpl,
    ShlSpecImpl,
    ShrSpecImpl,
    SubSpec,
    SubSpecImpl,
};
use std::ops::{Add, BitAnd, BitOr, BitXor, Div, Mul, Neg, Not, Rem, Shl, Shr, Sub};
use crate::element::{
    spec_wrapping_add,
    spec_wrapping_div,
    spec_wrapping_mul,
    spec_wrapping_neg,
    spec_wrapping_rem,
    spec_wrapping_sub,
    IntElement,
    IntModel,
    MaskElement,
};
use crate::error::SimdError;
use crate::lane_count::{LaneCount, SupportedLaneCount};
use crate::vector::Simd;

verus! {

/// No lane of `divisor` is zero.
pub open spec fn no_zero_lane<T: IntModel>(divisor: Seq<T>) -> bool {
    forall|i: int| 0 <= i < divisor.len() ==> (#[trigger] divisor[i]).value() != 0
}

/// Every lane of `amounts` is a shift amount of the kind: at least 0 and below
/// the width in bits.
pub open spec fn shift_amounts<T: IntModel>(amounts: Seq<T>) -> bool {
    forall|i: int| 0 <= i < amounts.len() ==> 0 <= (#[trigger] amounts[i]).value() < T::bits()
}

impl<T: IntElement, const N: usize> AddSpecImpl for Simd<T, N> where LaneCount<N>: SupportedLaneCount {
    open spec fn obeys_add_spec() -> bool {
        true
    }

    open spec fn add_req(self, rhs: Self) -> bool {
        true
    }

    open spec fn add_spec(self, rhs: Self) -> Self {
        Self::from_lanes(Seq::new(N as nat, |i: int| spec_wrapping_add(self@[i], rhs@[i])))
    }
}

impl<T: IntElement, const N: usize> Add for Simd<T, N> where LaneCount<N>: SupportedLaneCount {
    type Output = Self;

    /// Lanewise sum; a sum that leaves the range of the kind wraps.
    fn add(self, rhs: Self) -> (r: Self)
        ensures
            r@ == Seq::new(N as nat, |i: int| spec_wrapping_add(self@[i], rhs@[i])),
    {
        let a = self.to_array();
        let b = rhs.to_array();
        let mut out = a;
        let mut i: usize = 0;
        while i < N
            invariant
                i <= N,
                a@ == self@,
                b@ == rhs@,
                forall|j: int| 0 <= j < i ==> out@[j] == spec_wrapping_add(a@[j], b@[j]),
            decreases N - i,
        {
            out[i] = a[i].wrapping_add(b[i]);
            i += 1;
        }
        let r = Simd::from_array(out);
        proof {
            assert(r@ =~= Seq::new(N as nat, |i: int| spec_wrapping_add(self@[i], rhs@[i])));
            r.lemma_from_lanes();
        }
        r
    }
}

impl<T: IntElement, const N: usize> SubSpecImpl for Simd<T, N> where LaneCount<N>: SupportedLaneCount {
    open spec fn obeys_sub_spec() -> bool {
        true
    }

    open spec fn sub_req(self, rhs: Self) -> bool {
        true
    }

    open spec fn sub_spec(self, rhs: Self) -> Self {
        Self::from_lanes(Seq::new(N as nat, |i: int| spec_wrapping_sub(self@[i], rhs@[i])))
    }
}

impl<T: IntElement, const N: usize> Sub for Simd<T, N> where LaneCount<N>: SupportedLaneCount {
    type Output = Self;

    /// Lanewise difference; a difference that leaves the range of the kind wraps.
    fn sub(self, rhs: Self) -> (r: Self)
        ensures
            r@ == Seq::new(N as nat, |i: int| spec_wrapping_sub(self@[i], rhs@[i])),
    {
        let a = self.to_array();
        let b = rhs.to_array();
        let mut out = a;
        let mut i: usize = 0;
        while i < N
            invariant
                i <= N,
                a@ == self@,
                b@ == rhs@,
                forall|j: int| 0 <= j < i ==> out@[j] == spec_wrapping_sub(a@[j], b@[j]),
            decreases N - i,
        {
            out[i] = a[i].wrapping_sub(b[i]);
            i += 1;
        }
        let r = Simd::from_array(out);
        proof {
            assert(r@ =~= Seq::new(N as nat, |i: int| spec_wrapping_sub(self@[i], rhs@[i])));
            r.lemma_from_lanes();
        }
        r
    }
}

impl<T: IntElement, const N: usize> MulSpecImpl for Simd<T, N> where LaneCount<N>: SupportedLaneCount {
    open spec fn obeys_mul_spec() -> bool {
        true
    }

    open spec fn mul_req(self, rhs: Self) -> bool {
        true
    }

    open spec fn mul_spec(self, rhs: Self) -> Self {
        Self::from_lanes(Seq::new(N as nat, |i: int| spec_wrapping_mul(self@[i], rhs@[i])))
    }
}

impl<T: IntElement, const N: usize> Mul for Simd<T, N> where LaneCount<N>: SupportedLaneCount {
    type Output = Self;

    /// Lanewise product; a product that leaves the range of the kind wraps.
    fn mul(self, rhs: Self) -> (r: Self)
        ensures
            r@ == Seq::new(N as nat, |i: int| spec_wrapping_mul(self@[i], rhs@[i])),
    {
        let a = self.to_array();
        let b = rhs.to_array();
        let mut out = a;
        let mut i: usize = 0;
        while i < N
            invariant
                i <= N,
                a@ == self@,
                b@ == rhs@,
                forall|j: int| 0 <= j < i ==> out@[j] == spec_wrapping_mul(a@[j], b@[j]),
            decreases N - i,
        {
            out[i] = a[i].wrapping_mul(b[i]);
            i += 1;
        }
        let r = Simd::from_array(out);
        proof {
            assert(r@ =~= Seq::new(N as nat, |i: int| spec_wrapping_mul(self@[i], rhs@[i])));
            r.lemma_from_lanes();
        }
        r
    }
}

impl<T: IntElement, const N: usize> DivSpecImpl for Simd<T, N> where LaneCount<N>: SupportedLaneCount {
    open spec fn obeys_div_spec() -> bool {
        true
    }

    open spec fn div_req(self, rhs: Self) -> bool {
        no_zero_lane(rhs@)
    }

    open spec fn div_spec(self, rhs: Self) -> Self {
        Self::from_lanes(Seq::new(N as nat, |i: int| spec_wrapping_div(self@[i], rhs@[i])))
    }
}

impl<T: IntElement, const N: usize> Div for Simd<T, N> where LaneCount<N>: SupportedLaneCount {
    type Output = Self;

    /// Lanewise quotient, rounded toward zero, for a divisor without a zero lane.
    /// The least value of a signed kind divided by -1 gives the least value.
    fn div(self, rhs: Self) -> (r: Self)
        ensures
            r@ == Seq::new(N as nat, |i: int| spec_wrapping_div(self@[i], rhs@[i])),
    {
        let a = self.to_array();
        let b = rhs.to_array();
        let mut out = a;
        let mut i: usize = 0;
        while i < N
            invariant
                i <= N,
                a@ == self@,
                b@ == rhs@,
                no_zero_lane(rhs@),
                forall|j: int| 0 <= j < i ==> out@[j] == spec_wrapping_div(a@[j], b@[j]),
            decreases N - i,
        {
            out[i] = a[i].wrapping_div(b[i]);
            i += 1;
        }
        let r = Simd::from_array(out);
        proof {
            assert(r@ =~= Seq::new(N as nat, |i: int| spec_wrapping_div(self@[i], rhs@[i])));
            r.lemma_from_lanes();
        }
        r
    }
}

impl<T: IntElement, const N: usize> RemSpecImpl for Simd<T, N> where LaneCount<N>: SupportedLaneCount {
    open spec fn obeys_rem_spec() -> bool {
        true
    }

    open spec fn rem_req(self, rhs: Self) -> bool {
        no_zero_lane(rhs@)
    }

    open spec fn rem_spec(self, rhs: Self) -> Self {
        Self::from_lanes(Seq::new(N as nat, |i: int| spec_wrapping_rem(self@[i], rhs@[i])))
    }
}

impl<T: IntElement, const N: usize> Rem for Simd<T, N> where LaneCount<N>: SupportedLaneCount {
    type Output = Self;

    /// Lanewise remainder of the division that rounds toward zero, for a divisor
    /// without a zero lane. The least value of a signed kind leaves 0 when divided by -1.
    fn rem(self, rhs: Self) -> (r: Self)
        ensures
            r@ == Seq::new(N as nat, |i: int| spec_wrapping_rem(self@[i], rhs@[i])),
    {
        let a = self.to_array();
        let b = rhs.to_array();
        let mut out = a;
        let mut i: usize = 0;
        while i < N
            invariant
                i <= N,
                a@ == self@,
                b@ == rhs@,
                no_zero_lane(rhs@),
                forall|j: int| 0 <= j < i ==> out@[j] == spec_wrapping_rem(a@[j], b@[j]),
            decreases N - i,
        {
            out[i] = a[i].wrapping_rem(b[i]);
            i += 1;
        }
        let r = Simd::from_array(out);
        proof {
            assert(r@ =~= Seq::new(N as nat, |i: int| spec_wrapping_rem(self@[i], rhs@[i])));
            r.lemma_from_lanes();
        }
        r
    }
}

impl<T: IntElement, const N: usize> BitAndSpecImpl for Simd<T, N> where LaneCount<N>: SupportedLaneCount {
    open spec fn obeys_bitand_spec() -> bool {
        true
    }

    open spec fn bitand_req(self, rhs: Self) -> bool {
        true
    }

    open spec fn bitand_spec(self, rhs: Self) -> Self {
        Self::from_lanes(Seq::new(N as nat, |i: int| self@[i].bits_and(rhs@[i])))
    }
}

impl<T: IntElement, const N: usize> BitAnd for Simd<T, N> where LaneCount<N>: SupportedLaneCount {
    type Output = Self;

    /// Lanewise bitwise "and".
    fn bitand(self, rhs: Self) -> (r: Self)
        ensures
            r@ == Seq::new(N as nat, |i: int| self@[i].bits_and(rhs@[i])),
    {
        let a = self.to_array();
        let b = rhs.to_array();
        let mut out = a;
        let mut i: usize = 0;
        while i < N
            invariant
                i <= N,
                a@ == self@,
                b@ == rhs@,
                forall|j: int| 0 <= j < i ==> out@[j] == a@[j].bits_and(b@[j]),
            decreases N - i,
        {
            out[i] = a[i].bitand(b[i]);
            i += 1;
        }
        let r = Simd::from_array(out);
        proof {
            assert(r@ =~= Seq::new(N as nat, |i: int| self@[i].bits_and(rhs@[i])));
            r.lemma_from_lanes();
        }
        r
    }
}

impl<T: IntElement, const N: usize> BitOrSpecImpl for Simd<T, N> where LaneCount<N>: SupportedLaneCount {
    open spec fn obeys_bitor_spec() -> bool {
        true
    }

    open spec fn bitor_req(self, rhs: Self) -> bool {
        true
    }

    open spec fn bitor_spec(self, rhs: Self) -> Self {
        Self::from_lanes(Seq::new(N as nat, |i: int| self@[i].bits_or(rhs@[i])))
    }
}

impl<T: IntElement, const N: usize> BitOr for Simd<T, N> where LaneCount<N>: SupportedLaneCount {
    type Output = Self;

    /// Lanewise bitwise "or".
    fn bitor(self, rhs: Self) -> (r: Self)
        ensures
            r@ == Seq::new(N as nat, |i: int| self@[i].bits_or(rhs@[i])),
    {
        let a = self.to_array();
        let b = rhs.to_array();
        let mut out = a;
        let mut i: usize = 0;
        while i < N
            invariant
                i <= N,
                a@ == self@,
                b@ == rhs@,
                forall|j: int| 0 <= j < i ==> out@[j] == a@[j].bits_or(b@[j]),
            decreases N - i,
        {
            out[i] = a[i].bitor(b[i]);
            i += 1;
        }
        let r = Simd::from_array(out);
        proof {
            assert(r@ =~= Seq::new(N as nat, |i: int| self@[i].bits_or(rhs@[i])));
            r.lemma_from_lanes();
        }
        r
    }
}

impl<T: IntElement, const N: usize> BitXorSpecImpl for Simd<T, N> where LaneCount<N>: SupportedLaneCount {
    open spec fn obeys_bitxor_spec() -> bool {
        true
    }

    open spec fn bitxor_req(self, rhs: Self) -> bool {
        true
    }

    open spec fn bitxor_spec(self, rhs: Self) -> Self {
        Self::from_lanes(Seq::new(N as nat, |i: int| self@[i].bits_xor(rhs@[i])))
    }
}

impl<T: IntElement, const N: usize> BitXor for Simd<T, N> where LaneCount<N>: SupportedLaneCount {
    type Output = Self;

    /// Lanewise bitwise "exclusive or".
    fn bitxor(self, rhs: Self) -> (r: Self)
        ensures
            r@ == Seq::new(N as nat, |i: int| self@[i].bits_xor(rhs@[i])),
    {
        let a = self.to_array();
        let b = rhs.to_array();
        let mut out = a;
        let mut i: usize = 0;
        while i < N
            invariant
                i <= N,
                a@ == self@,
                b@ == rhs@,
                forall|j: int| 0 <= j < i ==> out@[j] == a@[j].bits_xor(b@[j]),
            decreases N - i,
        {
            out[i] = a[i].bitxor(b[i]);
            i += 1;
        }
        let r = Simd::from_array(out);
        proof {
            assert(r@ =~= Seq::new(N as nat, |i: int| self@[i].bits_xor(rhs@[i])));
            r.lemma_from_lanes();
        }
        r
    }
}

impl<T: IntElement, const N: usize> ShlSpecImpl for Simd<T, N> where LaneCount<N>: SupportedLaneCount {
    open spec fn obeys_shl_spec() -> bool {
        true
    }

    open spec fn shl_req(self, rhs: Self) -> bool {
        shift_amounts(rhs@)
    }

    open spec fn shl_spec(self, rhs: Self) -> Self {
        Self::from_lanes(Seq::new(N as nat, |i: int| self@[i].bits_shl(rhs@[i])))
    }
}

impl<T: IntElement, const N: usize> Shl for Simd<T, N> where LaneCount<N>: SupportedLaneCount {
    type Output = Self;

    /// Lanewise shift to the left, each lane by the amount in the same lane of
    /// `rhs`, which has to be at least 0 and below the width of the kind.
    fn shl(self, rhs: Self) -> (r: Self)
        ensures
            r@ == Seq::new(N as nat, |i: int| self@[i].bits_shl(rhs@[i])),
    {
        let a = self.to_array();
        let b = rhs.to_array();
        let mut out = a;
        let mut i: usize = 0;
        while i < N
            invariant
                i <= N,
                a@ == self@,
                b@ == rhs@,
                shift_amounts(rhs@),
                forall|j: int| 0 <= j < i ==> out@[j] == a@[j].bits_shl(b@[j]),
            decreases N - i,
        {
            out[i] = a[i].shl(b[i]);
            i += 1;
        }
        let r = Simd::from_array(out);
        proof {
            assert(r@ =~= Seq::new(N as nat, |i: int| self@[i].bits_shl(rhs@[i])));
            r.lemma_from_lanes();
        }
        r
    }
}

impl<T: IntElement, const N: usize> ShrSpecImpl for Simd<T, N> where LaneCount<N>: SupportedLaneCount {
    open spec fn obeys_shr_spec() -> bool {
        true
    }

    open spec fn shr_req(self, rhs: Self) -> bool {
        shift_amounts(rhs@)
    }

    open spec fn shr_spec(self, rhs: Self) -> Self {
        Self::from_lanes(Seq::new(N as nat, |i: int| self@[i].bits_shr(rhs@[i])))
    }
}

impl<T: IntElement, const N: usize> Shr for Simd<T, N> where LaneCount<N>: SupportedLaneCount {
    type Output = Self;

    /// Lanewise shift to the right, each lane by the amount in the same lane of
    /// `rhs`, which has to be at least 0 and below the width of the kind.
    fn shr(self, rhs: Self) -> (r: Self)
        ensures
            r@ == Seq::new(N as nat, |i: int| self@[i].bits_shr(rhs@[i])),
    {
        let a = self.to_array();
        let b = rhs.to_array();
        let mut out = a;
        let mut i: usize = 0;
        while i < N
            invariant
                i <= N,
                a@ == self@,
                b@ == rhs@,
                shift_amounts(rhs@),
                forall|j: int| 0 <= j < i ==> out@[j] == a@[j].bits_shr(b@[j]),
            decreases N - i,
        {
            out[i] = a[i].shr(b[i]);
            i += 1;
        }
        let r = Simd::from_array(out);
        proof {
            assert(r@ =~= Seq::new(N as nat, |i: int| self@[i].bits_shr(rhs@[i])));
            r.lemma_from_lanes();
        }
        r
    }
}

impl<T: MaskElement, const N: usize> NegSpecImpl for Simd<T, N> where LaneCount<N>: SupportedLaneCount {
    open spec fn obeys_neg_spec() -> bool {
        true
    }

    open spec fn neg_req(self) -> bool {
        true
    }

    open spec fn neg_spec(self) -> Self {
        Self::from_lanes(Seq::new(N as nat, |i: int| spec_wrapping_neg(self@[i])))
    }
}

impl<T: MaskElement, const N: usize> Neg for Simd<T, N> where LaneCount<N>: SupportedLaneCount {
    type Output = Self;

    /// Lanewise negation; the least value of the kind is its own negation.
    fn neg(self) -> (r: Self)
        ensures
            r@ == Seq::new(N as nat, |i: int| spec_wrapping_neg(self@[i])),
    {
        let a = self.to_array();
        let zero = T::zero();
        let mut out = a;
        let mut i: usize = 0;
        while i < N
            invariant
                i <= N,
                a@ == self@,
                zero.value() == 0,
                forall|j: int| 0 <= j < i ==> out@[j] == spec_wrapping_neg(a@[j]),
            decreases N - i,
        {
            out[i] = zero.wrapping_sub(a[i]);
            i += 1;
        }
        let r = Simd::from_array(out);
        proof {
            assert(r@ =~= Seq::new(N as nat, |i: int| spec_wrapping_neg(self@[i])));
            r.lemma_from_lanes();
        }
        r
    }
}

impl<T: IntElement, const N: usize> NotSpecImpl for Simd<T, N> where LaneCount<N>: SupportedLaneCount {
    open spec fn obeys_not_spec() -> bool {
        true
    }

    open spec fn not_req(self) -> bool {
        true
    }

    open spec fn not_spec(self) -> Self {
        Self::from_lanes(Seq::new(N as nat, |i: int| self@[i].bits_not()))
    }
}

impl<T: IntElement, const N: usize> Not for Simd<T, N> where LaneCount<N>: SupportedLaneCount {
    type Output = Self;

    /// Lanewise bitwise "not".
    fn not(self) -> (r: Self)
        ensures
            r@ == Seq::new(N as nat, |i: int| self@[i].bits_not()),
    {
        let a = self.to_array();
        let mut out = a;
        let mut i: usize = 0;
        while i < N
            invariant
                i <= N,
                a@ == self@,
                forall|j: int| 0 <= j < i ==> out@[j] == a@[j].bits_not(),
            decreases N - i,
        {
            out[i] = a[i].not();
            i += 1;
        }
        let r = Simd::from_array(out);
        proof {
            assert(r@ =~= Seq::new(N as nat, |i: int| self@[i].bits_not()));
            r.lemma_from_lanes();
        }
        r
    }
}

/// What the operators of sum, difference and product make of two vectors, as
/// values: the vector whose lanes are the wrapping sums, differences and
/// products of the lanes.
pub proof fn lemma_arithmetic_is_lanewise<T: IntElement, const N: usize>(
    a: Simd<T, N>,
    b: Simd<T, N>,
) where LaneCount<N>: SupportedLaneCount
    ensures
        AddSpec::add_spec(a, b)@ == Seq::new(N as nat, |i: int| spec_wrapping_add(a@[i], b@[i])),
        SubSpec::sub_spec(a, b)@ == Seq::new(N as nat, |i: int| spec_wrapping_sub(a@[i], b@[i])),
        MulSpec::mul_spec(a, b)@ == Seq::new(N as nat, |i: int| spec_wrapping_mul(a@[i], b@[i])),
        AddSpec::add_spec(a, b) == Simd::<T, N>::from_array(AddSpec::add_spec(a, b).to_array()),
{
    Simd::<T, N>::lemma_from_lanes_view(
        Seq::new(N as nat, |i: int| spec_wrapping_add(a@[i], b@[i])),
    );
    Simd::<T, N>::lemma_from_lanes_view(
        Seq::new(N as nat, |i: int| spec_wrapping_sub(a@[i], b@[i])),
    );
    Simd::<T, N>::lemma_from_lanes_view(
        Seq::new(N as nat, |i: int| spec_wrapping_mul(a@[i], b@[i])),
    );
    Simd::<T, N>::lemma_array_round_trip(a.to_array(), AddSpec::add_spec(a, b));
}

impl<T: IntElement, const N: usize> Simd<T, N> where LaneCount<N>: SupportedLaneCount {
    /// Whether no lane is zero.
    pub fn has_no_zero_lane(self) -> (r: bool)
        ensures
            r == no_zero_lane(self@),
    {
        let a = self.to_array();
        let zero = T::zero();
        let mut i: usize = 0;
        while i < N
            invariant
                i <= N,
                a@ == self@,
                zero.value() == 0,
                forall|j: int| 0 <= j < i ==> (#[trigger] a@[j]).value() != 0,
            decreases N - i,
        {
            if a[i].lane_eq(zero) {
                return false;
            }
            i += 1;
        }
        true
    }

    /// Whether every lane is a shift amount of the kind: at least 0 and below
    /// the width in bits.
    pub fn has_shift_amounts(self) -> (r: bool)
        ensures
            r == shift_amounts(self@),
    {
        let a = self.to_array();
        let zero = T::zero();
        let width = T::width();
        let mut i: usize = 0;
        while i < N
            invariant
                i <= N,
                a@ == self@,
                zero.value() == 0,
                width.value() == T::bits(),
                forall|j: int| 0 <= j < i ==> 0 <= (#[trigger] a@[j]).value() < T::bits(),
            decreases N - i,
        {
            if a[i].lane_lt(zero) || !a[i].lane_lt(width) {
                return false;
            }
            i += 1;
        }
        true
    }

    /// The lanes shifted to the left, or the report that a lane of `rhs` is no
    /// shift amount of the kind.
    pub fn checked_shl(self, rhs: Self) -> (r: Result<Self, SimdError>)
        ensures
            shift_amounts(rhs@) ==> r is Ok && r->Ok_0@ == Seq::new(
                N as nat,
                |i: int| self@[i].bits_shl(rhs@[i]),
            ),
            !shift_amounts(rhs@) ==> r == Err::<Self, SimdError>(SimdError::ShiftOutOfRange),
    {
        if rhs.has_shift_amounts() {
            Ok(self << rhs)
        } else {
            Err(SimdError::ShiftOutOfRange)
        }
    }

    /// The lanes shifted to the right, or the report that a lane of `rhs` is
    /// no shift amount of the kind.
    pub fn checked_shr(self, rhs: Self) -> (r: Result<Self, SimdError>)
        ensures
            shift_amounts(rhs@) ==> r is Ok && r->Ok_0@ == Seq::new(
                N as nat,
                |i: int| self@[i].bits_shr(rhs@[i]),
            ),
            !shift_amounts(rhs@) ==> r == Err::<Self, SimdError>(SimdError::ShiftOutOfRange),
    {
        if rhs.has_shift_amounts() {
            Ok(self >> rhs)
        } else {
            Err(SimdError::ShiftOutOfRange)
        }
    }

    /// The lanewise quotient, or the report that a lane of `rhs` is zero.
    pub fn checked_div(self, rhs: Self) -> (r: Result<Self, SimdError>)
        ensures
            no_zero_lane(rhs@) ==> r is Ok && r->Ok_0@ == Seq::new(
                N as nat,
                |i: int| spec_wrapping_div(self@[i], rhs@[i]),
            ),
            !no_zero_lane(rhs@) ==> r == Err::<Self, SimdError>(SimdError::DivisionByZero),
    {
        if rhs.has_no_zero_lane() {
            Ok(self / rhs)
        } else {
            Err(SimdError::DivisionByZero)
        }
    }

    /// The lanewise remainder, or the report that a lane of `rhs` is zero.
    pub fn checked_rem(self, rhs: Self) -> (r: Result<Self, SimdError>)
        ensures
            no_zero_lane(rhs@) ==> r is Ok && r->Ok_0@ == Seq::new(
                N as nat,
                |i: int| spec_wrapping_rem(self@[i], rhs@[i]),
            ),
            !no_zero_lane(rhs@) ==> r == Err::<Self, SimdError>(SimdError::DivisionByZero),
    {
        if rhs.has_no_zero_lane() {
            Ok(self % rhs)
        } else {
            Err(SimdError::DivisionByZero)
        }
    }
}

} // verus!
