//! Choosing lanes by a mask.
use vstd::prelude::*;
use std::ops::Not;
use crate::element::{MaskElement, SimdElement};
use crate::lane_count::{LaneCount, SupportedLaneCount};
use crate::masks::Mask;
use crate::vector::Simd;

verus! {

/// Lane by lane, the element of `on_true` where `choice` is true and that of
/// `on_false` where it is false.
pub open spec fn select_lanes<A>(choice: Seq<bool>, on_true: Seq<A>, on_false: Seq<A>) -> Seq<A> {
    Seq::new(
        choice.len(),
        |i: int|
            if choice[i] {
                on_true[i]
            } else {
                on_false[i]
            },
    )
}

impl<T: MaskElement, const N: usize> Mask<T, N> where LaneCount<N>: SupportedLaneCount {
    /// The vector that has, in each lane, the lane of `true_values` where the
    /// mask is true and the lane of `false_values` where it is false.
    pub fn select<U: SimdElement<Mask = T>>(
        self,
        true_values: Simd<U, N>,
        false_values: Simd<U, N>,
    ) -> (r: Simd<U, N>)
        ensures
            r@ == select_lanes(self@, true_values@, false_values@),
    {
        let choice = self.to_array();
        let yes = true_values.to_array();
        let no = false_values.to_array();
        let mut out = no;
        let mut i: usize = 0;
        while i < N
            invariant
                i <= N,
                forall|j: int|
                    0 <= j < i ==> out@[j] == (if choice@[j] {
                        yes@[j]
                    } else {
                        no@[j]
                    }),
                forall|j: int| i <= j < N ==> out@[j] == no@[j],
            decreases N - i,
        {
            if choice[i] {
                out[i] = yes[i];
            }
            i += 1;
        }
        proof {
            self.lemma_len();
        }
        let r = Simd::from_array(out);
        assert(r@ =~= select_lanes(self@, true_values@, false_values@));
        r
    }

    /// The mask that has, in each lane, the lane of `true_values` where this
    /// mask is true and the lane of `false_values` where it is false; in the
    /// encoding of `self`.
    pub fn select_mask(self, true_values: Self, false_values: Self) -> (r: Self)
        ensures
            r@ == select_lanes(self@, true_values@, false_values@),
            r.spec_encoding() == self.spec_encoding(),
    {
        let r = (self & true_values) | (Not::not(self) & false_values);
        proof {
            self.lemma_len();
            assert(r@ =~= select_lanes(self@, true_values@, false_values@));
        }
        r
    }
}

} // verus!
