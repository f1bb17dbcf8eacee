//! Reading and writing a slice at the indices that a vector holds, lane by
//! lane, under a mask.
//!
//! A lane takes part if the mask enables it and its index is within the
//! slice. A lane that does not take part reads nothing and writes nothing.
//! Where several lanes write to one place, the place ends up with the value of
//! the highest of those lanes.
use vstd::prelude::*;
use crate::element::{lemma_from_value_of_value, IntElement, SimdElement};
use crate::lane_count::{LaneCount, SupportedLaneCount};
use crate::masks::Mask;
use crate::vector::Simd;

verus! {

/// Lane by lane: whether the lane is enabled and its index lies within a slice
/// of `len` elements.
pub open spec fn in_bounds(enable: Seq<bool>, idxs: Seq<usize>, len: nat) -> Seq<bool> {
    Seq::new(enable.len(), |i: int| enable[i] && idxs[i] < len)
}

/// Every enabled lane has an index within a slice of `len` elements.
pub open spec fn enabled_in_bounds(enable: Seq<bool>, idxs: Seq<usize>, len: nat) -> bool {
    forall|i: int| 0 <= i < enable.len() && #[trigger] enable[i] ==> idxs[i] < len
}

/// Lane by lane: the element of `source` at the lane's index where the lane is
/// enabled and the index lies within `source`, else the lane of `or`.
pub open spec fn gather_lanes<A>(
    source: Seq<A>,
    enable: Seq<bool>,
    idxs: Seq<usize>,
    or: Seq<A>,
) -> Seq<A> {
    Seq::new(
        or.len(),
        |i: int|
            if enable[i] && idxs[i] < source.len() {
                source[idxs[i] as int]
            } else {
                or[i]
            },
    )
}

/// The highest lane below `n` that is enabled and has the index `place`, or -1
/// if there is none.
pub open spec fn last_writer(enable: Seq<bool>, idxs: Seq<usize>, place: int, n: nat) -> int
    decreases n,
{
    if n == 0 {
        -1
    } else if enable[n - 1] && idxs[n - 1] == place {
        n - 1
    } else {
        last_writer(enable, idxs, place, (n - 1) as nat)
    }
}

/// `target` after the lanes of `values` have been written to it: each place
/// holds the value of the highest enabled lane that has its index, and what it
/// held before if no enabled lane has its index.
pub open spec fn scatter_lanes<A>(
    target: Seq<A>,
    enable: Seq<bool>,
    idxs: Seq<usize>,
    values: Seq<A>,
) -> Seq<A> {
    Seq::new(
        target.len(),
        |place: int|
            {
                let lane = last_writer(enable, idxs, place, values.len());
                if lane >= 0 {
                    values[lane]
                } else {
                    target[place]
                }
            },
    )
}

/// `last_writer` is what its name says: a lane below `n` that is enabled and
/// has the index `place`, above which no such lane is; and -1 only if there is
/// no such lane at all.
pub proof fn lemma_last_writer(enable: Seq<bool>, idxs: Seq<usize>, place: int, n: nat)
    ensures
        -1 <= last_writer(enable, idxs, place, n) < n,
        last_writer(enable, idxs, place, n) >= 0 ==> enable[last_writer(enable, idxs, place, n)]
            && idxs[last_writer(enable, idxs, place, n)] == place,
        forall|j: int|
            last_writer(enable, idxs, place, n) < j < n ==> !(#[trigger] enable[j] && idxs[j]
                == place),
    decreases n,
{
    if n > 0 {
        lemma_last_writer(enable, idxs, place, (n - 1) as nat);
    }
}

impl<T: SimdElement, const N: usize> Simd<T, N> where LaneCount<N>: SupportedLaneCount {
    /// Reads `slice` at the indices in `idxs`. A lane whose index is not
    /// within the slice takes the lane of `or` instead.
    pub fn gather_or(slice: &[T], idxs: Simd<usize, N>, or: Self) -> (r: Self)
        ensures
            r@ == gather_lanes(slice@, Seq::new(N as nat, |i: int| true), idxs@, or@),
    {
        let r = Self::gather_select(slice, Mask::splat(true), idxs, or);
        proof {
            or.lemma_len();
            assert(r@ =~= gather_lanes(slice@, Seq::new(N as nat, |i: int| true), idxs@, or@));
        }
        r
    }

    /// Reads `slice` at the indices in `idxs`, in the lanes that `enable`
    /// enables. A lane that is not enabled, or whose index is not within the
    /// slice, takes the lane of `or` instead, and nothing is read for it.
    pub fn gather_select(
        slice: &[T],
        enable: Mask<isize, N>,
        idxs: Simd<usize, N>,
        or: Self,
    ) -> (r: Self)
        ensures
            r@ == gather_lanes(slice@, enable@, idxs@, or@),
    {
        proof {
            or.lemma_len();
            idxs.lemma_len();
            enable.lemma_len();
        }
        let checked = enable & idxs.simd_lt(Simd::splat(slice.len()));
        let r = Self::gather_select_unchecked(slice, checked, idxs, or);
        proof {
            assert(r@ =~= gather_lanes(slice@, enable@, idxs@, or@));
        }
        r
    }

    /// Reads `slice` at the indices in `idxs`, in the lanes that `enable`
    /// enables, each of which has an index within the slice. A lane that is
    /// not enabled takes the lane of `or`, and nothing is read for it.
    pub fn gather_select_unchecked(
        slice: &[T],
        enable: Mask<isize, N>,
        idxs: Simd<usize, N>,
        or: Self,
    ) -> (r: Self)
        requires
            enabled_in_bounds(enable@, idxs@, slice@.len()),
        ensures
            r@ == gather_lanes(slice@, enable@, idxs@, or@),
    {
        proof {
            or.lemma_len();
            idxs.lemma_len();
            enable.lemma_len();
        }
        let enabled = enable.to_array();
        let index = idxs.to_array();
        let mut out = or.to_array();
        let mut i: usize = 0;
        while i < N
            invariant
                i <= N,
                enabled@ == enable@,
                index@ == idxs@,
                enabled_in_bounds(enable@, idxs@, slice@.len()),
                forall|j: int|
                    0 <= j < i ==> out@[j] == (if enabled@[j] {
                        slice@[index@[j] as int]
                    } else {
                        or@[j]
                    }),
                forall|j: int| i <= j < N ==> out@[j] == or@[j],
            decreases N - i,
        {
            if enabled[i] {
                assert(enable@[i as int]);
                out[i] = slice[index[i]];
            }
            i += 1;
        }
        let r = Simd::from_array(out);
        assert(r@ =~= gather_lanes(slice@, enable@, idxs@, or@));
        r
    }

    /// Writes the lanes to `slice` at the indices in `idxs`. A lane whose
    /// index is not within the slice writes nothing. Where several lanes have
    /// the same index, the highest of them is the one whose value stays.
    pub fn scatter(self, slice: &mut [T], idxs: Simd<usize, N>)
        ensures
            final(slice)@ == scatter_lanes(
                old(slice)@,
                in_bounds(Seq::new(N as nat, |i: int| true), idxs@, old(slice)@.len()),
                idxs@,
                self@,
            ),
    {
        let every = Mask::splat(true);
        self.scatter_select(slice, every, idxs);
        proof {
            assert(in_bounds(Seq::new(N as nat, |i: int| true), idxs@, old(slice)@.len())
                =~= in_bounds(every@, idxs@, old(slice)@.len()));
        }
    }

    /// Writes the lanes that `enable` enables to `slice` at the indices in
    /// `idxs`. A lane that is not enabled, or whose index is not within the
    /// slice, writes nothing. Where several lanes that write have the same
    /// index, the highest of them is the one whose value stays.
    pub fn scatter_select(self, slice: &mut [T], enable: Mask<isize, N>, idxs: Simd<usize, N>)
        ensures
            final(slice)@ == scatter_lanes(
                old(slice)@,
                in_bounds(enable@, idxs@, old(slice)@.len()),
                idxs@,
                self@,
            ),
    {
        proof {
            idxs.lemma_len();
            enable.lemma_len();
        }
        let checked = enable & idxs.simd_lt(Simd::splat(slice.len()));
        proof {
            assert(checked@ =~= in_bounds(enable@, idxs@, old(slice)@.len()));
        }
        self.scatter_select_unchecked(slice, checked, idxs);
    }

    /// Writes the lanes that `enable` enables to `slice` at the indices in
    /// `idxs`, each of which lies within the slice. Where several enabled
    /// lanes have the same index, the highest of them is the one whose value
    /// stays.
    pub fn scatter_select_unchecked(
        self,
        slice: &mut [T],
        enable: Mask<isize, N>,
        idxs: Simd<usize, N>,
    )
        requires
            enabled_in_bounds(enable@, idxs@, old(slice)@.len()),
        ensures
            final(slice)@ == scatter_lanes(old(slice)@, enable@, idxs@, self@),
    {
        proof {
            self.lemma_len();
            idxs.lemma_len();
            enable.lemma_len();
        }
        let enabled = enable.to_array();
        let index = idxs.to_array();
        let values = self.to_array();
        let mut i: usize = 0;
        while i < N
            invariant
                i <= N,
                enabled@ == enable@,
                index@ == idxs@,
                values@ == self@,
                slice@.len() == old(slice)@.len(),
                enabled_in_bounds(enable@, idxs@, slice@.len()),
                forall|place: int|
                    0 <= place < slice@.len() ==> #[trigger] slice@[place] == ({
                        let lane = last_writer(enable@, idxs@, place, i as nat);
                        if lane >= 0 {
                            self@[lane]
                        } else {
                            old(slice)@[place]
                        }
                    }),
            decreases N - i,
        {
            if enabled[i] {
                assert(enable@[i as int]);
                slice[index[i]] = values[i];
            }
            i += 1;
        }
        assert(slice@ =~= scatter_lanes(old(slice)@, enable@, idxs@, self@));
    }
}

impl<T: IntElement, const N: usize> Simd<T, N> where LaneCount<N>: SupportedLaneCount {
    /// Reads `slice` at the indices in `idxs`. A lane whose index is not
    /// within the slice is zero.
    pub fn gather_or_default(slice: &[T], idxs: Simd<usize, N>) -> (r: Self)
        ensures
            r@ == gather_lanes(
                slice@,
                Seq::new(N as nat, |i: int| true),
                idxs@,
                Seq::new(N as nat, |i: int| T::from_value(0)),
            ),
    {
        let zero = T::zero();
        proof {
            lemma_from_value_of_value(zero);
        }
        Self::gather_or(slice, idxs, Simd::splat(zero))
    }
}

} // verus!
