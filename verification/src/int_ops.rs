//! Lanewise operations of integer vectors beyond the operators: saturating
//! arithmetic, and for the signed kinds absolute value and sign.
use vstd::prelude::*;
use crate::element::{
    lemma_from_value_of_value,
    lemma_wrap_into_near,
    lemma_wrapped_value,
    saturated,
    wrapped,
    IntElement,
    IntModel,
    MaskElement,
};
use crate::lane_count::{LaneCount, SupportedLaneCount};
use crate::masks::{Mask, MaskEncoding};
use crate::vector::Simd;

verus! {

/// The sum of two lanes, held at the nearest end of the range where it leaves
/// the range.
pub open spec fn spec_saturating_add<T: IntModel>(a: T, b: T) -> T {
    saturated::<T>(a.value() + b.value())
}

/// The difference of two lanes, held at the nearest end of the range where it
/// leaves the range.
pub open spec fn spec_saturating_sub<T: IntModel>(a: T, b: T) -> T {
    saturated::<T>(a.value() - b.value())
}

/// The absolute value of an integer.
pub open spec fn abs_int(x: int) -> int {
    if x < 0 {
        -x
    } else {
        x
    }
}

/// The sign of an integer: -1, 0 or 1.
pub open spec fn signum_int(x: int) -> int {
    if x < 0 {
        -1
    } else if x > 0 {
        1
    } else {
        0
    }
}

/// The saturating sum of two lanes.
pub fn lane_saturating_add<T: IntElement>(a: T, b: T) -> (r: T)
    ensures
        r == spec_saturating_add(a, b),
{
    let sum = a.wrapping_add(b);
    let zero = T::zero();
    proof {
        T::lemma_range();
        a.lemma_value_in_range();
        b.lemma_value_in_range();
        lemma_wrap_into_near(T::min_value(), T::max_value(), a.value() + b.value());
        lemma_wrapped_value::<T>(a.value() + b.value());
    }
    let r = if b.lane_lt(zero) {
        if a.lane_lt(sum) {
            T::min_lane()
        } else {
            sum
        }
    } else {
        if sum.lane_lt(a) {
            T::max_lane()
        } else {
            sum
        }
    };
    proof {
        lemma_from_value_of_value(r);
    }
    r
}

/// The saturating difference of two lanes.
pub fn lane_saturating_sub<T: IntElement>(a: T, b: T) -> (r: T)
    ensures
        r == spec_saturating_sub(a, b),
{
    let difference = a.wrapping_sub(b);
    let zero = T::zero();
    proof {
        T::lemma_range();
        a.lemma_value_in_range();
        b.lemma_value_in_range();
        lemma_wrap_into_near(T::min_value(), T::max_value(), a.value() - b.value());
        lemma_wrapped_value::<T>(a.value() - b.value());
    }
    let r = if b.lane_lt(zero) {
        if difference.lane_lt(a) {
            T::max_lane()
        } else {
            difference
        }
    } else {
        if a.lane_lt(difference) {
            T::min_lane()
        } else {
            difference
        }
    };
    proof {
        lemma_from_value_of_value(r);
    }
    r
}

impl<T: IntElement, const N: usize> Simd<T, N> where LaneCount<N>: SupportedLaneCount {
    /// Lanewise sum that stops at the ends of the range of the kind.
    pub fn saturating_add(self, second: Self) -> (r: Self)
        ensures
            r@ == Seq::new(N as nat, |i: int| spec_saturating_add(self@[i], second@[i])),
    {
        let a = self.to_array();
        let b = second.to_array();
        let mut out = a;
        let mut i: usize = 0;
        while i < N
            invariant
                i <= N,
                a@ == self@,
                b@ == second@,
                forall|j: int| 0 <= j < i ==> out@[j] == spec_saturating_add(a@[j], b@[j]),
            decreases N - i,
        {
            out[i] = lane_saturating_add(a[i], b[i]);
            i += 1;
        }
        let r = Simd::from_array(out);
        assert(r@ =~= Seq::new(N as nat, |i: int| spec_saturating_add(self@[i], second@[i])));
        r
    }

    /// Lanewise difference that stops at the ends of the range of the kind.
    pub fn saturating_sub(self, second: Self) -> (r: Self)
        ensures
            r@ == Seq::new(N as nat, |i: int| spec_saturating_sub(self@[i], second@[i])),
    {
        let a = self.to_array();
        let b = second.to_array();
        let mut out = a;
        let mut i: usize = 0;
        while i < N
            invariant
                i <= N,
                a@ == self@,
                b@ == second@,
                forall|j: int| 0 <= j < i ==> out@[j] == spec_saturating_sub(a@[j], b@[j]),
            decreases N - i,
        {
            out[i] = lane_saturating_sub(a[i], b[i]);
            i += 1;
        }
        let r = Simd::from_array(out);
        assert(r@ =~= Seq::new(N as nat, |i: int| spec_saturating_sub(self@[i], second@[i])));
        r
    }
}

impl<T: MaskElement, const N: usize> Simd<T, N> where
    LaneCount<N>: SupportedLaneCount,
    T::Mask: MaskElement,
 {
    /// Lanewise absolute value. The least value of the kind has no absolute
    /// value in the kind and stays as it is.
    pub fn abs(self) -> (r: Self)
        ensures
            r@ == Seq::new(N as nat, |i: int| wrapped::<T>(abs_int(self@[i].value()))),
    {
        let a = self.to_array();
        let zero = T::zero();
        let mut out = a;
        let mut i: usize = 0;
        while i < N
            invariant
                i <= N,
                a@ == self@,
                zero.value() == 0,
                forall|j: int| 0 <= j < i ==> out@[j] == wrapped::<T>(abs_int(a@[j].value())),
            decreases N - i,
        {
            if a[i].lane_lt(zero) {
                out[i] = zero.wrapping_sub(a[i]);
            } else {
                proof {
                    lemma_from_value_of_value(a@[i as int]);
                }
                out[i] = a[i];
            }
            i += 1;
        }
        let r = Simd::from_array(out);
        assert(r@ =~= Seq::new(N as nat, |i: int| wrapped::<T>(abs_int(self@[i].value()))));
        r
    }

    /// Lanewise absolute value; that of the least value of the kind is the
    /// greatest value.
    pub fn saturating_abs(self) -> (r: Self)
        ensures
            r@ == Seq::new(N as nat, |i: int| saturated::<T>(abs_int(self@[i].value()))),
    {
        let a = self.to_array();
        let zero = T::zero();
        let mut out = a;
        let mut i: usize = 0;
        while i < N
            invariant
                i <= N,
                a@ == self@,
                zero.value() == 0,
                forall|j: int| 0 <= j < i ==> out@[j] == saturated::<T>(abs_int(a@[j].value())),
            decreases N - i,
        {
            if a[i].lane_lt(zero) {
                out[i] = lane_saturating_sub(zero, a[i]);
            } else {
                proof {
                    lemma_from_value_of_value(a@[i as int]);
                }
                out[i] = a[i];
            }
            i += 1;
        }
        let r = Simd::from_array(out);
        assert(r@ =~= Seq::new(N as nat, |i: int| saturated::<T>(abs_int(self@[i].value()))));
        r
    }

    /// Lanewise negation; that of the least value of the kind is the greatest
    /// value.
    pub fn saturating_neg(self) -> (r: Self)
        ensures
            r@ == Seq::new(N as nat, |i: int| saturated::<T>(-self@[i].value())),
    {
        let zero = T::zero();
        let r = Simd::splat(zero).saturating_sub(self);
        assert(r@ =~= Seq::new(N as nat, |i: int| saturated::<T>(-self@[i].value())));
        r
    }

    /// The mask of the lanes that are greater than zero.
    pub fn is_positive(self) -> (r: Mask<T::Mask, N>)
        ensures
            r@ == Seq::new(N as nat, |i: int| self@[i].value() > 0),
            r.spec_encoding() == MaskEncoding::FullWidth,
    {
        let zero = T::zero();
        let r = self.simd_gt(Simd::splat(zero));
        assert(r@ =~= Seq::new(N as nat, |i: int| self@[i].value() > 0));
        r
    }

    /// The mask of the lanes that are less than zero.
    pub fn is_negative(self) -> (r: Mask<T::Mask, N>)
        ensures
            r@ == Seq::new(N as nat, |i: int| self@[i].value() < 0),
            r.spec_encoding() == MaskEncoding::FullWidth,
    {
        let zero = T::zero();
        let r = self.simd_lt(Simd::splat(zero));
        assert(r@ =~= Seq::new(N as nat, |i: int| self@[i].value() < 0));
        r
    }

    /// Lanewise sign: 1 for a lane above zero, -1 for a lane below zero, 0 for
    /// zero.
    pub fn signum(self) -> (r: Self)
        ensures
            r@ == Seq::new(N as nat, |i: int| T::from_value(signum_int(self@[i].value()))),
    {
        let zero = T::zero();
        let one = T::one();
        let minus_one = zero.wrapping_sub(one);
        proof {
            T::lemma_signed();
            T::lemma_range();
            lemma_wrapped_value::<T>(-1);
            lemma_from_value_of_value(zero);
            lemma_from_value_of_value(one);
            lemma_from_value_of_value(minus_one);
        }
        let r = self.is_positive().select(
            Simd::splat(one),
            self.is_negative().select(Simd::splat(minus_one), Simd::splat(zero)),
        );
        assert(r@ =~= Seq::new(N as nat, |i: int| T::from_value(signum_int(self@[i].value()))));
        r
    }
}

} // verus!
