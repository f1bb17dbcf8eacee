//! The vector type: `N` lanes of one element kind, seen as a sequence.
use vstd::prelude::*;
use vstd::std_specs::cmp::PartialEqSpecImpl;
use vstd::std_specs::convert::FromSpecImpl;
use crate::element::{lemma_from_value_of_value, IntElement, IntModel, SimdElement};
use crate::error::SimdError;
use crate::lane_count::{lemma_lane_count, supported_lane_count, LaneCount, SupportedLaneCount};

verus! {

/// `array` with its first `k` elements replaced by those of `lanes`.
spec fn filled<A, const N: usize>(array: [A; N], lanes: Seq<A>, k: nat) -> [A; N]
    decreases k,
{
    if k == 0 {
        array
    } else {
        vstd::array::spec_array_update(filled(array, lanes, (k - 1) as nat), k - 1, lanes[k - 1])
    }
}

proof fn lemma_filled<A, const N: usize>(array: [A; N], lanes: Seq<A>, k: nat)
    requires
        k <= N,
    ensures
        forall|i: int| 0 <= i < k ==> filled(array, lanes, k)@[i] == lanes[i],
    decreases k,
{
    if k > 0 {
        lemma_filled(array, lanes, (k - 1) as nat);
    }
}

/// Every sequence of `N` elements is the view of an array.
pub proof fn lemma_array_of<A, const N: usize>(lanes: Seq<A>)
    requires
        lanes.len() == N,
    ensures
        exists|array: [A; N]| array@ == lanes,
{
    let start = vstd::pervasive::arbitrary::<[A; N]>();
    let array = filled(start, lanes, N as nat);
    lemma_filled(start, lanes, N as nat);
    assert(array@ =~= lanes);
}

/// A vector of `N` lanes of kind `T`.
///
/// Its view is the sequence of its lanes, lane 0 first; all contracts speak of
/// that sequence, and two vectors with the same lanes are the same vector.
#[derive(Debug, Hash)]
pub struct Simd<T: SimdElement, const N: usize> where LaneCount<N>: SupportedLaneCount {
    lanes: [T; N],
}

impl<T: SimdElement, const N: usize> Clone for Simd<T, N> where LaneCount<N>: SupportedLaneCount {
    fn clone(&self) -> (r: Self)
        ensures
            r == *self,
    {
        *self
    }
}

impl<T: SimdElement, const N: usize> Copy for Simd<T, N> where LaneCount<N>: SupportedLaneCount {

}

impl<T: SimdElement, const N: usize> View for Simd<T, N> where LaneCount<N>: SupportedLaneCount {
    type V = Seq<T>;

    closed spec fn view(&self) -> Seq<T> {
        self.lanes@
    }
}

impl<T: SimdElement, const N: usize> Simd<T, N> where LaneCount<N>: SupportedLaneCount {
    /// The vector whose lanes are `lanes`, for a sequence of `N` elements.
    pub open spec fn from_lanes(lanes: Seq<T>) -> Self {
        choose|v: Self| v@ == lanes
    }

    /// A vector has `N` lanes, and `N` is a supported lane count.
    pub proof fn lemma_len(self)
        ensures
            self@.len() == N,
            supported_lane_count(N as nat),
    {
        lemma_lane_count::<N>();
    }

    /// Vectors with the same lanes are equal.
    pub proof fn lemma_view_injective(self, other: Self)
        requires
            self@ == other@,
        ensures
            self == other,
    {
        assert(self.lanes =~= other.lanes);
    }

    /// A vector is the vector of its lanes.
    pub proof fn lemma_from_lanes(self)
        ensures
            Self::from_lanes(self@) == self,
    {
        self.lemma_view_injective(Self::from_lanes(self@));
    }

    /// For every sequence of `N` elements there is the vector with those
    /// lanes.
    pub proof fn lemma_from_lanes_view(lanes: Seq<T>)
        requires
            lanes.len() == N,
        ensures
            Self::from_lanes(lanes)@ == lanes,
    {
        lemma_array_of::<T, N>(lanes);
        let array = choose|array: [T; N]| array@ == lanes;
        let v = Simd::<T, N> { lanes: array };
        assert(v@ == lanes);
    }

    /// What `from_array` returns.
    pub closed spec fn spec_from_array(array: [T; N]) -> Self {
        Simd { lanes: array }
    }

    /// What `to_array` returns.
    pub closed spec fn spec_to_array(self) -> [T; N] {
        self.lanes
    }

    /// What `splat` returns.
    pub open spec fn spec_splat(value: T) -> Self {
        Self::from_lanes(Seq::new(N as nat, |i: int| value))
    }

    /// A vector made from an array gives the array back, and a vector is the
    /// vector made from its array.
    pub proof fn lemma_array_round_trip(array: [T; N], vector: Self)
        ensures
            Self::from_array(array).to_array() == array,
            Self::from_array(array)@ == array@,
            Self::from_array(vector.to_array()) == vector,
            vector.to_array()@ == vector@,
    {
    }

    /// The number of lanes.
    pub fn lanes(&self) -> (r: usize)
        ensures
            r == N,
    {
        N
    }

    /// The vector with `value` in every lane.
    #[verifier::when_used_as_spec(spec_splat)]
    pub fn splat(value: T) -> (r: Self)
        ensures
            r == Self::spec_splat(value),
            r@ == Seq::new(N as nat, |i: int| value),
    {
        let r = Simd { lanes: [value; N] };
        proof {
            assert(r@ =~= Seq::new(N as nat, |i: int| value));
            r.lemma_from_lanes();
        }
        r
    }

    /// The vector whose lanes are the elements of `array`.
    #[verifier::when_used_as_spec(spec_from_array)]
    pub fn from_array(array: [T; N]) -> (r: Self)
        ensures
            r == Self::spec_from_array(array),
            r@ == array@,
    {
        Simd { lanes: array }
    }

    /// The lanes as an array.
    #[verifier::when_used_as_spec(spec_to_array)]
    pub fn to_array(self) -> (r: [T; N])
        ensures
            r == self.spec_to_array(),
            r@ == self@,
    {
        self.lanes
    }

    /// The lanes as a borrowed array.
    pub fn as_array(&self) -> (r: &[T; N])
        ensures
            r@ == self@,
    {
        &self.lanes
    }

    /// The lanes as an array to write to; the vector ends up with what the
    /// array holds when the borrow ends.
    pub fn as_mut_array(&mut self) -> (r: &mut [T; N])
        ensures
            r@ == old(self)@,
            final(self)@ == final(r)@,
    {
        &mut self.lanes
    }

    /// The first `N` elements of `slice` as a vector, unless the slice is
    /// shorter than that.
    pub fn from_slice(slice: &[T]) -> (r: Result<Self, SimdError>)
        ensures
            slice@.len() >= N ==> r is Ok && r->Ok_0@ == slice@.subrange(0, N as int),
            slice@.len() < N ==> r == Err::<Self, SimdError>(SimdError::SliceTooShort),
    {
        if slice.len() < N {
            return Err(SimdError::SliceTooShort);
        }
        proof {
            lemma_lane_count::<N>();
        }
        let mut lanes = [slice[0]; N];
        let mut i: usize = 1;
        while i < N
            invariant
                1 <= i <= N,
                slice@.len() >= N,
                forall|j: int| 0 <= j < i ==> lanes@[j] == slice@[j],
            decreases N - i,
        {
            lanes[i] = slice[i];
            i += 1;
        }
        Ok(Simd { lanes })
    }

    /// Writes the lanes to the first `N` elements of `slice`, unless the slice
    /// is shorter than that; then it is left as it was.
    pub fn copy_to_slice(self, slice: &mut [T]) -> (r: Result<(), SimdError>)
        ensures
            final(slice)@.len() == old(slice)@.len(),
            old(slice)@.len() >= N ==> r is Ok && final(slice)@ == self@ + old(slice)@.subrange(
                N as int,
                old(slice)@.len() as int,
            ),
            old(slice)@.len() < N ==> r == Err::<(), SimdError>(SimdError::SliceTooShort)
                && final(slice)@ == old(slice)@,
    {
        if slice.len() < N {
            return Err(SimdError::SliceTooShort);
        }
        let mut i: usize = 0;
        while i < N
            invariant
                i <= N,
                slice@.len() == old(slice)@.len(),
                slice@.len() >= N,
                forall|j: int| 0 <= j < i ==> slice@[j] == self.lanes@[j],
                forall|j: int| i <= j < slice@.len() ==> slice@[j] == old(slice)@[j],
            decreases N - i,
        {
            slice[i] = self.lanes[i];
            i += 1;
        }
        Ok(())
    }
}

impl<T: SimdElement, const N: usize> FromSpecImpl<[T; N]> for Simd<T, N> where LaneCount<N>: SupportedLaneCount {
    open spec fn obeys_from_spec() -> bool {
        true
    }

    open spec fn from_spec(array: [T; N]) -> Self {
        Self::spec_from_array(array)
    }
}

impl<T: SimdElement, const N: usize> From<[T; N]> for Simd<T, N> where LaneCount<N>: SupportedLaneCount {
    /// The vector whose lanes are the elements of `array`.
    fn from(array: [T; N]) -> (r: Self)
        ensures
            r@ == array@,
    {
        Self::from_array(array)
    }
}

impl<T: IntElement, const N: usize> Default for Simd<T, N> where LaneCount<N>: SupportedLaneCount {
    /// The vector with zero in every lane.
    fn default() -> (r: Self)
        ensures
            r@ == Seq::new(N as nat, |i: int| T::from_value(0)),
    {
        let zero = T::zero();
        proof {
            lemma_from_value_of_value(zero);
        }
        Self::splat(zero)
    }
}

impl<T: IntElement, const N: usize> PartialEqSpecImpl for Simd<T, N> where LaneCount<N>: SupportedLaneCount {
    open spec fn obeys_eq_spec() -> bool {
        true
    }

    open spec fn eq_spec(&self, other: &Self) -> bool {
        self@ == other@
    }
}

impl<T: IntElement, const N: usize> PartialEq for Simd<T, N> where LaneCount<N>: SupportedLaneCount {
    /// Vectors are equal when all their lanes are.
    fn eq(&self, other: &Self) -> (r: bool) {
        let mut i: usize = 0;
        while i < N
            invariant
                i <= N,
                forall|j: int| 0 <= j < i ==> self.lanes@[j] == other.lanes@[j],
            decreases N - i,
        {
            if !self.lanes[i].lane_eq(other.lanes[i]) {
                return false;
            }
            proof {
                self.lanes@[i as int].lemma_value_injective(other.lanes@[i as int]);
            }
            i += 1;
        }
        assert(self@ =~= other@);
        true
    }
}

impl<T: IntElement, const N: usize> Eq for Simd<T, N> where LaneCount<N>: SupportedLaneCount {

}

} // verus!
