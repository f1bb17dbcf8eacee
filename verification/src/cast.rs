//! Lanewise conversion between element kinds.
use vstd::prelude::*;
use crate::element::{wrapped, IntElement};
use crate::lane_count::{LaneCount, SupportedLaneCount};
use crate::vector::Simd;

verus! {

/// An element kind whose lanes convert to the lanes of every other such kind.
///
/// The conversion goes through `i128`, which holds the value of every lane of
/// every kind: a lane widens to its value, and a wide integer narrows to the
/// lane it wraps to.
pub trait SimdCast: IntElement {
    /// The value of the lane, as a wide integer.
    fn to_wide(self) -> (r: i128)
        ensures
            r == self.value(),
    ;

    /// The lane that a wide integer wraps to.
    fn from_wide(wide: i128) -> (r: Self)
        ensures
            r == wrapped::<Self>(wide as int),
    ;
}

impl<T: SimdCast, const N: usize> Simd<T, N> where LaneCount<N>: SupportedLaneCount {
    /// The vector of kind `U` with the same values, lane by lane. A value that
    /// the kind `U` does not have wraps into its range: a narrower kind keeps
    /// the low bits, a kind of the other signedness reads the same bits anew.
    pub fn cast<U: SimdCast>(self) -> (r: Simd<U, N>)
        ensures
            r@ == Seq::new(N as nat, |i: int| wrapped::<U>(self@[i].value())),
    {
        let a = self.to_array();
        let mut out = [U::from_wide(0); N];
        let mut i: usize = 0;
        while i < N
            invariant
                i <= N,
                a@ == self@,
                forall|j: int| 0 <= j < i ==> out@[j] == wrapped::<U>(a@[j].value()),
            decreases N - i,
        {
            out[i] = U::from_wide(a[i].to_wide());
            i += 1;
        }
        let r = Simd::from_array(out);
        assert(r@ =~= Seq::new(N as nat, |i: int| wrapped::<U>(self@[i].value())));
        r
    }
}

} // verus!
