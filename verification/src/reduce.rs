//! Horizontal reductions: all lanes of an integer vector folded into one
//! scalar.
//!
//! Sum and product are those of the values of the lanes, wrapped once at the
//! end: in whatever order and grouping the lanes are combined, with wrapping
//! at every step or not, the result is the same.
use vstd::prelude::*;
use crate::element::{
    lemma_from_value_of_value,
    lemma_wrap_into_add,
    lemma_wrap_into_mul,
    lemma_wrapped_value,
    spec_wrapping_add,
    spec_wrapping_mul,
    wrap_into,
    wrapped,
    IntElement,
    IntModel,
};
use crate::lane_count::{lemma_lane_count, LaneCount, SupportedLaneCount};
use crate::vector::Simd;

verus! {

/// The sum of the values of the lanes.
pub open spec fn sum_of<T: IntModel>(lanes: Seq<T>) -> int
    decreases lanes.len(),
{
    if lanes.len() == 0 {
        0
    } else {
        sum_of(lanes.drop_last()) + lanes.last().value()
    }
}

/// The product of the values of the lanes.
pub open spec fn product_of<T: IntModel>(lanes: Seq<T>) -> int
    decreases lanes.len(),
{
    if lanes.len() == 0 {
        1
    } else {
        product_of(lanes.drop_last()) * lanes.last().value()
    }
}

/// The lanes combined by bitwise "and", lane 0 first.
pub open spec fn and_of<T: IntModel>(lanes: Seq<T>) -> T
    recommends
        lanes.len() > 0,
    decreases lanes.len(),
{
    if lanes.len() <= 1 {
        lanes[0]
    } else {
        and_of(lanes.drop_last()).bits_and(lanes.last())
    }
}

/// The lanes combined by bitwise "or", lane 0 first.
pub open spec fn or_of<T: IntModel>(lanes: Seq<T>) -> T
    recommends
        lanes.len() > 0,
    decreases lanes.len(),
{
    if lanes.len() <= 1 {
        lanes[0]
    } else {
        or_of(lanes.drop_last()).bits_or(lanes.last())
    }
}

/// The lanes combined by bitwise "exclusive or", lane 0 first.
pub open spec fn xor_of<T: IntModel>(lanes: Seq<T>) -> T
    recommends
        lanes.len() > 0,
    decreases lanes.len(),
{
    if lanes.len() <= 1 {
        lanes[0]
    } else {
        xor_of(lanes.drop_last()).bits_xor(lanes.last())
    }
}

/// `m` is a lane of `lanes` that no lane is greater than.
pub open spec fn is_max_of<T: IntModel>(lanes: Seq<T>, m: T) -> bool {
    &&& exists|i: int| 0 <= i < lanes.len() && lanes[i] == m
    &&& forall|i: int| 0 <= i < lanes.len() ==> (#[trigger] lanes[i]).value() <= m.value()
}

/// `m` is a lane of `lanes` that no lane is less than.
pub open spec fn is_min_of<T: IntModel>(lanes: Seq<T>, m: T) -> bool {
    &&& exists|i: int| 0 <= i < lanes.len() && lanes[i] == m
    &&& forall|i: int| 0 <= i < lanes.len() ==> (#[trigger] lanes[i]).value() >= m.value()
}

/// The sum of two groups of lanes is the sum of the sums.
pub proof fn lemma_sum_of_concat<T: IntModel>(a: Seq<T>, b: Seq<T>)
    ensures
        sum_of(a + b) == sum_of(a) + sum_of(b),
    decreases b.len(),
{
    if b.len() == 0 {
        assert(a + b =~= a);
    } else {
        assert((a + b).drop_last() =~= a + b.drop_last());
        lemma_sum_of_concat(a, b.drop_last());
    }
}

/// The product of two groups of lanes is the product of the products.
pub proof fn lemma_product_of_concat<T: IntModel>(a: Seq<T>, b: Seq<T>)
    ensures
        product_of(a + b) == product_of(a) * product_of(b),
    decreases b.len(),
{
    if b.len() == 0 {
        assert(a + b =~= a);
        assert(product_of(a) * 1 == product_of(a)) by (nonlinear_arith);
    } else {
        assert((a + b).drop_last() =~= a + b.drop_last());
        lemma_product_of_concat(a, b.drop_last());
        let x = product_of(a);
        let y = product_of(b.drop_last());
        let z = b.last().value();
        assert((x * y) * z == x * (y * z)) by (nonlinear_arith);
    }
}

/// Summing two groups of lanes apart, each with wrapping, and adding the two
/// sums with wrapping gives the wrapped sum of all the lanes.
pub proof fn lemma_reduce_sum_grouping<T: IntModel>(a: Seq<T>, b: Seq<T>)
    ensures
        spec_wrapping_add(wrapped::<T>(sum_of(a)), wrapped::<T>(sum_of(b))) == wrapped::<T>(
            sum_of(a + b),
        ),
{
    let lo = T::min_value();
    let hi = T::max_value();
    T::lemma_range();
    lemma_sum_of_concat(a, b);
    lemma_wrapped_value::<T>(sum_of(a));
    lemma_wrapped_value::<T>(sum_of(b));
    lemma_wrap_into_add(lo, hi, sum_of(a), wrap_into(lo, hi, sum_of(b)));
    lemma_wrap_into_add(lo, hi, sum_of(b), sum_of(a));
}

/// Multiplying two groups of lanes apart, each with wrapping, and multiplying
/// the two products with wrapping gives the wrapped product of all the lanes.
pub proof fn lemma_reduce_product_grouping<T: IntModel>(a: Seq<T>, b: Seq<T>)
    ensures
        spec_wrapping_mul(wrapped::<T>(product_of(a)), wrapped::<T>(product_of(b))) == wrapped::<T>(
            product_of(a + b),
        ),
{
    let lo = T::min_value();
    let hi = T::max_value();
    T::lemma_range();
    lemma_product_of_concat(a, b);
    lemma_wrapped_value::<T>(product_of(a));
    lemma_wrapped_value::<T>(product_of(b));
    let x = product_of(a);
    let y = product_of(b);
    let wy = wrap_into(lo, hi, y);
    lemma_wrap_into_mul(lo, hi, x, wy);
    lemma_wrap_into_mul(lo, hi, y, x);
    assert(x * wy == wy * x) by (nonlinear_arith);
    assert(x * y == y * x) by (nonlinear_arith);
}

impl<T: IntElement, const N: usize> Simd<T, N> where LaneCount<N>: SupportedLaneCount {
    /// The sum of the lanes, wrapped into the range of the kind.
    pub fn reduce_sum(self) -> (r: T)
        ensures
            r == wrapped::<T>(sum_of(self@)),
    {
        proof {
            self.lemma_len();
            T::lemma_range();
        }
        let a = self.to_array();
        let mut acc = T::zero();
        let mut i: usize = 0;
        proof {
            lemma_from_value_of_value(acc);
            assert(a@.subrange(0, 0) =~= Seq::<T>::empty());
        }
        while i < N
            invariant
                i <= N,
                a@ == self@,
                a@.len() == N,
                acc == wrapped::<T>(sum_of(a@.subrange(0, i as int))),
            decreases N - i,
        {
            let ghost before = a@.subrange(0, i as int);
            proof {
                let next = a@.subrange(0, i + 1);
                assert(next.drop_last() =~= before);
                T::lemma_range();
                lemma_wrapped_value::<T>(sum_of(before));
                lemma_wrap_into_add(
                    T::min_value(),
                    T::max_value(),
                    sum_of(before),
                    a@[i as int].value(),
                );
            }
            acc = acc.wrapping_add(a[i]);
            i += 1;
        }
        assert(a@.subrange(0, N as int) =~= self@);
        acc
    }

    /// The product of the lanes, wrapped into the range of the kind.
    pub fn reduce_product(self) -> (r: T)
        ensures
            r == wrapped::<T>(product_of(self@)),
    {
        proof {
            self.lemma_len();
            T::lemma_range();
        }
        let a = self.to_array();
        let mut acc = T::one();
        let mut i: usize = 0;
        proof {
            lemma_from_value_of_value(acc);
            assert(a@.subrange(0, 0) =~= Seq::<T>::empty());
        }
        while i < N
            invariant
                i <= N,
                a@ == self@,
                a@.len() == N,
                acc == wrapped::<T>(product_of(a@.subrange(0, i as int))),
            decreases N - i,
        {
            let ghost before = a@.subrange(0, i as int);
            proof {
                let next = a@.subrange(0, i + 1);
                assert(next.drop_last() =~= before);
                T::lemma_range();
                lemma_wrapped_value::<T>(product_of(before));
                lemma_wrap_into_mul(
                    T::min_value(),
                    T::max_value(),
                    product_of(before),
                    a@[i as int].value(),
                );
            }
            acc = acc.wrapping_mul(a[i]);
            i += 1;
        }
        assert(a@.subrange(0, N as int) =~= self@);
        acc
    }

    /// The greatest lane.
    pub fn reduce_max(self) -> (r: T)
        ensures
            is_max_of(self@, r),
    {
        proof {
            self.lemma_len();
            lemma_lane_count::<N>();
        }
        let a = self.to_array();
        let mut best = a[0];
        let mut i: usize = 1;
        let ghost mut at: int = 0;
        while i < N
            invariant
                1 <= i <= N,
                a@ == self@,
                0 <= at < i,
                a@[at] == best,
                forall|j: int| 0 <= j < i ==> (#[trigger] a@[j]).value() <= best.value(),
            decreases N - i,
        {
            if best.lane_lt(a[i]) {
                best = a[i];
                proof {
                    at = i as int;
                }
            }
            i += 1;
        }
        assert(self@[at] == best);
        best
    }

    /// The least lane.
    pub fn reduce_min(self) -> (r: T)
        ensures
            is_min_of(self@, r),
    {
        proof {
            self.lemma_len();
            lemma_lane_count::<N>();
        }
        let a = self.to_array();
        let mut best = a[0];
        let mut i: usize = 1;
        let ghost mut at: int = 0;
        while i < N
            invariant
                1 <= i <= N,
                a@ == self@,
                0 <= at < i,
                a@[at] == best,
                forall|j: int| 0 <= j < i ==> (#[trigger] a@[j]).value() >= best.value(),
            decreases N - i,
        {
            if a[i].lane_lt(best) {
                best = a[i];
                proof {
                    at = i as int;
                }
            }
            i += 1;
        }
        assert(self@[at] == best);
        best
    }

    /// The bitwise "and" of all lanes.
    pub fn reduce_and(self) -> (r: T)
        ensures
            r == and_of(self@),
    {
        proof {
            self.lemma_len();
            lemma_lane_count::<N>();
        }
        let a = self.to_array();
        let mut acc = a[0];
        let mut i: usize = 1;
        while i < N
            invariant
                1 <= i <= N,
                a@ == self@,
                a@.len() == N,
                acc == and_of(a@.subrange(0, i as int)),
            decreases N - i,
        {
            proof {
                assert(a@.subrange(0, i + 1).drop_last() =~= a@.subrange(0, i as int));
            }
            acc = acc.bitand(a[i]);
            i += 1;
        }
        assert(a@.subrange(0, N as int) =~= self@);
        acc
    }

    /// The bitwise "or" of all lanes.
    pub fn reduce_or(self) -> (r: T)
        ensures
            r == or_of(self@),
    {
        proof {
            self.lemma_len();
            lemma_lane_count::<N>();
        }
        let a = self.to_array();
        let mut acc = a[0];
        let mut i: usize = 1;
        while i < N
            invariant
                1 <= i <= N,
                a@ == self@,
                a@.len() == N,
                acc == or_of(a@.subrange(0, i as int)),
            decreases N - i,
        {
            proof {
                assert(a@.subrange(0, i + 1).drop_last() =~= a@.subrange(0, i as int));
            }
            acc = acc.bitor(a[i]);
            i += 1;
        }
        assert(a@.subrange(0, N as int) =~= self@);
        acc
    }

    /// The bitwise "exclusive or" of all lanes.
    pub fn reduce_xor(self) -> (r: T)
        ensures
            r == xor_of(self@),
    {
        proof {
            self.lemma_len();
            lemma_lane_count::<N>();
        }
        let a = self.to_array();
        let mut acc = a[0];
        let mut i: usize = 1;
        while i < N
            invariant
                1 <= i <= N,
                a@ == self@,
                a@.len() == N,
                acc == xor_of(a@.subrange(0, i as int)),
            decreases N - i,
        {
            proof {
                assert(a@.subrange(0, i + 1).drop_last() =~= a@.subrange(0, i as int));
            }
            acc = acc.bitxor(a[i]);
            i += 1;
        }
        assert(a@.subrange(0, N as int) =~= self@);
        acc
    }
}

} // verus!
