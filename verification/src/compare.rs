//! Lanewise comparison of integer vectors: the masks of equality and order,
//! and the lanewise greater, lesser and clamped vector.
use vstd::prelude::*;
use std::ops::Not;
use crate::element::{IntElement, IntModel, MaskElement};
use crate::error::SimdError;
use crate::lane_count::{LaneCount, SupportedLaneCount};
use crate::masks::{Mask, MaskEncoding};
use crate::vector::Simd;

verus! {

/// The greater of two lanes, by value.
pub open spec fn lane_max<T: IntModel>(a: T, b: T) -> T {
    if a.value() < b.value() {
        b
    } else {
        a
    }
}

/// The lesser of two lanes, by value.
pub open spec fn lane_min<T: IntModel>(a: T, b: T) -> T {
    if a.value() > b.value() {
        b
    } else {
        a
    }
}

/// The lane brought into the interval from `min` to `max`.
pub open spec fn lane_clamp<T: IntModel>(a: T, min: T, max: T) -> T {
    lane_min(lane_max(a, min), max)
}

/// No lane of `min` lies above the same lane of `max`.
pub open spec fn ordered_bounds<T: IntModel>(min: Seq<T>, max: Seq<T>) -> bool {
    forall|i: int| 0 <= i < min.len() ==> (#[trigger] min[i]).value() <= max[i].value()
}

impl<T: IntElement, const N: usize> Simd<T, N> where
    LaneCount<N>: SupportedLaneCount,
    T::Mask: MaskElement,
 {
    /// The mask of the lanes that are equal.
    pub fn simd_eq(self, other: Self) -> (r: Mask<T::Mask, N>)
        ensures
            r@ == Seq::new(N as nat, |i: int| self@[i] == other@[i]),
            r.spec_encoding() == MaskEncoding::FullWidth,
    {
        let a = self.to_array();
        let b = other.to_array();
        let mut out = [false; N];
        let mut i: usize = 0;
        while i < N
            invariant
                i <= N,
                a@ == self@,
                b@ == other@,
                forall|j: int| 0 <= j < i ==> out@[j] == (a@[j] == b@[j]),
            decreases N - i,
        {
            out[i] = a[i].lane_eq(b[i]);
            proof {
                if a@[i as int].value() == b@[i as int].value() {
                    a@[i as int].lemma_value_injective(b@[i as int]);
                }
            }
            i += 1;
        }
        let r = Mask::from_array(out);
        assert(r@ =~= Seq::new(N as nat, |i: int| self@[i] == other@[i]));
        r
    }

    /// The mask of the lanes that differ.
    pub fn simd_ne(self, other: Self) -> (r: Mask<T::Mask, N>)
        ensures
            r@ == Seq::new(N as nat, |i: int| self@[i] != other@[i]),
            r.spec_encoding() == MaskEncoding::FullWidth,
    {
        let r = Not::not(self.simd_eq(other));
        assert(r@ =~= Seq::new(N as nat, |i: int| self@[i] != other@[i]));
        r
    }

    /// The mask of the lanes in which `self` is less than `other`.
    pub fn simd_lt(self, other: Self) -> (r: Mask<T::Mask, N>)
        ensures
            r@ == Seq::new(N as nat, |i: int| self@[i].value() < other@[i].value()),
            r.spec_encoding() == MaskEncoding::FullWidth,
    {
        let a = self.to_array();
        let b = other.to_array();
        let mut out = [false; N];
        let mut i: usize = 0;
        while i < N
            invariant
                i <= N,
                a@ == self@,
                b@ == other@,
                forall|j: int| 0 <= j < i ==> out@[j] == (a@[j].value() < b@[j].value()),
            decreases N - i,
        {
            out[i] = a[i].lane_lt(b[i]);
            i += 1;
        }
        let r = Mask::from_array(out);
        assert(r@ =~= Seq::new(N as nat, |i: int| self@[i].value() < other@[i].value()));
        r
    }

    /// The mask of the lanes in which `self` is less than or equal to `other`.
    pub fn simd_le(self, other: Self) -> (r: Mask<T::Mask, N>)
        ensures
            r@ == Seq::new(N as nat, |i: int| self@[i].value() <= other@[i].value()),
            r.spec_encoding() == MaskEncoding::FullWidth,
    {
        let r = Not::not(other.simd_lt(self));
        assert(r@ =~= Seq::new(N as nat, |i: int| self@[i].value() <= other@[i].value()));
        r
    }

    /// The mask of the lanes in which `self` is greater than `other`.
    pub fn simd_gt(self, other: Self) -> (r: Mask<T::Mask, N>)
        ensures
            r@ == Seq::new(N as nat, |i: int| self@[i].value() > other@[i].value()),
            r.spec_encoding() == MaskEncoding::FullWidth,
    {
        let r = other.simd_lt(self);
        assert(r@ =~= Seq::new(N as nat, |i: int| self@[i].value() > other@[i].value()));
        r
    }

    /// The mask of the lanes in which `self` is greater than or equal to
    /// `other`.
    pub fn simd_ge(self, other: Self) -> (r: Mask<T::Mask, N>)
        ensures
            r@ == Seq::new(N as nat, |i: int| self@[i].value() >= other@[i].value()),
            r.spec_encoding() == MaskEncoding::FullWidth,
    {
        let r = Not::not(self.simd_lt(other));
        assert(r@ =~= Seq::new(N as nat, |i: int| self@[i].value() >= other@[i].value()));
        r
    }

    /// The lanewise greater of two vectors.
    pub fn simd_max(self, other: Self) -> (r: Self)
        ensures
            r@ == Seq::new(N as nat, |i: int| lane_max(self@[i], other@[i])),
    {
        let r = self.simd_lt(other).select(other, self);
        assert(r@ =~= Seq::new(N as nat, |i: int| lane_max(self@[i], other@[i])));
        r
    }

    /// The lanewise lesser of two vectors.
    pub fn simd_min(self, other: Self) -> (r: Self)
        ensures
            r@ == Seq::new(N as nat, |i: int| lane_min(self@[i], other@[i])),
    {
        let r = self.simd_gt(other).select(other, self);
        assert(r@ =~= Seq::new(N as nat, |i: int| lane_min(self@[i], other@[i])));
        r
    }

    /// Each lane brought into the interval from the lane of `min` to the lane
    /// of `max`, or the report that a lane of `min` lies above that of `max`.
    pub fn simd_clamp(self, min: Self, max: Self) -> (r: Result<Self, SimdError>)
        ensures
            ordered_bounds(min@, max@) ==> r is Ok && r->Ok_0@ == Seq::new(
                N as nat,
                |i: int| lane_clamp(self@[i], min@[i], max@[i]),
            ),
            !ordered_bounds(min@, max@) ==> r == Err::<Self, SimdError>(SimdError::MinAboveMax),
    {
        proof {
            self.lemma_len();
            min.lemma_len();
            max.lemma_len();
        }
        let in_order = min.simd_le(max);
        if !in_order.all() {
            proof {
                let i = choose|i: int| 0 <= i < N && !in_order@[i];
                assert(!(min@[i].value() <= max@[i].value()));
            }
            return Err(SimdError::MinAboveMax);
        }
        proof {
            assert forall|i: int| 0 <= i < N implies (#[trigger] min@[i]).value()
                <= max@[i].value() by {
                assert(in_order@[i]);
            }
        }
        let r = self.simd_max(min).simd_min(max);
        assert(r@ =~= Seq::new(N as nat, |i: int| lane_clamp(self@[i], min@[i], max@[i])));
        Ok(r)
    }
}

} // verus!
