//! The operations of floating-point vectors that need no rounding: telling
//! the lanes' classes and signs apart, comparing, picking the greater or the
//! lesser, and cutting lanes down to integers.
use vstd::prelude::*;
use vstd::arithmetic::power2::lemma_pow2_pos;
use crate::cast::SimdCast;
use crate::element::{saturated, IntModel, MaskElement};
use crate::error::SimdError;
use crate::float::{
    float_eq,
    float_le,
    float_lt,
    float_max,
    float_min,
    float_signum,
    int_part,
    is_finite,
    is_float_max_of,
    is_float_min_of,
    is_infinite,
    is_nan,
    is_normal,
    is_subnormal,
    lane_float_eq,
    lane_float_lt,
    lane_float_max,
    lane_float_min,
    lane_float_signum,
    lane_from_int,
    lane_is_finite,
    lane_is_infinite,
    lane_is_nan,
    lane_is_normal,
    lane_is_subnormal,
    lane_to_int,
    lane_with_sign,
    lemma_float_order,
    nearest_float,
    with_sign,
    FloatElement,
    FloatModel,
};
use crate::lane_count::{lemma_lane_count, LaneCount, SupportedLaneCount};
use crate::masks::Mask;
use crate::vector::Simd;

verus! {

/// No lane of `min` is greater than the same lane of `max`; a lane that is not
/// a number is not greater than anything.
pub open spec fn ordered_float_bounds<T: FloatModel>(min: Seq<T>, max: Seq<T>) -> bool {
    forall|i: int| 0 <= i < min.len() ==> !float_lt(max[i], #[trigger] min[i])
}

/// A lane brought into the interval from `min` to `max`. A lane that is not a
/// number stays as it is.
pub open spec fn float_clamp<T: FloatModel>(x: T, min: T, max: T) -> T {
    let raised = if float_lt(x, min) {
        min
    } else {
        x
    };
    if float_lt(max, raised) {
        max
    } else {
        raised
    }
}

/// The mask of the lanes that are not a number.
pub fn vector_is_nan<T: FloatElement, const N: usize>(v: Simd<T, N>) -> (r: Mask<T::Mask, N>) where
    LaneCount<N>: SupportedLaneCount,
    T::Mask: MaskElement,

    ensures
        r@ == Seq::new(N as nat, |i: int| is_nan(v@[i])),
{
    let a = v.to_array();
    let mut out = [false; N];
    let mut i: usize = 0;
    while i < N
        invariant
            i <= N,
            a@ == v@,
            forall|j: int| 0 <= j < i ==> out@[j] == is_nan(a@[j]),
        decreases N - i,
    {
        out[i] = lane_is_nan(a[i]);
        i += 1;
    }
    let r = Mask::from_array(out);
    assert(r@ =~= Seq::new(N as nat, |i: int| is_nan(v@[i])));
    r
}

/// The mask of the lanes that are infinities.
pub fn vector_is_infinite<T: FloatElement, const N: usize>(v: Simd<T, N>) -> (r: Mask<
    T::Mask,
    N,
>) where LaneCount<N>: SupportedLaneCount, T::Mask: MaskElement
    ensures
        r@ == Seq::new(N as nat, |i: int| is_infinite(v@[i])),
{
    let a = v.to_array();
    let mut out = [false; N];
    let mut i: usize = 0;
    while i < N
        invariant
            i <= N,
            a@ == v@,
            forall|j: int| 0 <= j < i ==> out@[j] == is_infinite(a@[j]),
        decreases N - i,
    {
        out[i] = lane_is_infinite(a[i]);
        i += 1;
    }
    let r = Mask::from_array(out);
    assert(r@ =~= Seq::new(N as nat, |i: int| is_infinite(v@[i])));
    r
}

/// The mask of the lanes that are numbers and no infinities.
pub fn vector_is_finite<T: FloatElement, const N: usize>(v: Simd<T, N>) -> (r: Mask<
    T::Mask,
    N,
>) where LaneCount<N>: SupportedLaneCount, T::Mask: MaskElement
    ensures
        r@ == Seq::new(N as nat, |i: int| is_finite(v@[i])),
{
    let a = v.to_array();
    let mut out = [false; N];
    let mut i: usize = 0;
    while i < N
        invariant
            i <= N,
            a@ == v@,
            forall|j: int| 0 <= j < i ==> out@[j] == is_finite(a@[j]),
        decreases N - i,
    {
        out[i] = lane_is_finite(a[i]);
        i += 1;
    }
    let r = Mask::from_array(out);
    assert(r@ =~= Seq::new(N as nat, |i: int| is_finite(v@[i])));
    r
}

/// The mask of the lanes that are subnormal.
pub fn vector_is_subnormal<T: FloatElement, const N: usize>(v: Simd<T, N>) -> (r: Mask<
    T::Mask,
    N,
>) where LaneCount<N>: SupportedLaneCount, T::Mask: MaskElement
    ensures
        r@ == Seq::new(N as nat, |i: int| is_subnormal(v@[i])),
{
    let a = v.to_array();
    let mut out = [false; N];
    let mut i: usize = 0;
    while i < N
        invariant
            i <= N,
            a@ == v@,
            forall|j: int| 0 <= j < i ==> out@[j] == is_subnormal(a@[j]),
        decreases N - i,
    {
        out[i] = lane_is_subnormal(a[i]);
        i += 1;
    }
    let r = Mask::from_array(out);
    assert(r@ =~= Seq::new(N as nat, |i: int| is_subnormal(v@[i])));
    r
}

/// The mask of the lanes that are normal.
pub fn vector_is_normal<T: FloatElement, const N: usize>(v: Simd<T, N>) -> (r: Mask<
    T::Mask,
    N,
>) where LaneCount<N>: SupportedLaneCount, T::Mask: MaskElement
    ensures
        r@ == Seq::new(N as nat, |i: int| is_normal(v@[i])),
{
    let a = v.to_array();
    let mut out = [false; N];
    let mut i: usize = 0;
    while i < N
        invariant
            i <= N,
            a@ == v@,
            forall|j: int| 0 <= j < i ==> out@[j] == is_normal(a@[j]),
        decreases N - i,
    {
        out[i] = lane_is_normal(a[i]);
        i += 1;
    }
    let r = Mask::from_array(out);
    assert(r@ =~= Seq::new(N as nat, |i: int| is_normal(v@[i])));
    r
}

/// The mask of the lanes whose sign bit is set.
pub fn vector_is_sign_negative<T: FloatElement, const N: usize>(v: Simd<T, N>) -> (r: Mask<
    T::Mask,
    N,
>) where LaneCount<N>: SupportedLaneCount, T::Mask: MaskElement
    ensures
        r@ == Seq::new(N as nat, |i: int| v@[i].sign_bit()),
{
    let a = v.to_array();
    let mut out = [false; N];
    let mut i: usize = 0;
    while i < N
        invariant
            i <= N,
            a@ == v@,
            forall|j: int| 0 <= j < i ==> out@[j] == a@[j].sign_bit(),
        decreases N - i,
    {
        out[i] = a[i].sign_of();
        i += 1;
    }
    let r = Mask::from_array(out);
    assert(r@ =~= Seq::new(N as nat, |i: int| v@[i].sign_bit()));
    r
}

/// The mask of the lanes in which `a` equals `b` as a number.
pub fn vector_float_eq<T: FloatElement, const N: usize>(a: Simd<T, N>, b: Simd<T, N>) -> (r: Mask<
    T::Mask,
    N,
>) where LaneCount<N>: SupportedLaneCount, T::Mask: MaskElement
    ensures
        r@ == Seq::new(N as nat, |i: int| float_eq(a@[i], b@[i])),
{
    let x = a.to_array();
    let y = b.to_array();
    let mut out = [false; N];
    let mut i: usize = 0;
    while i < N
        invariant
            i <= N,
            x@ == a@,
            y@ == b@,
            forall|j: int| 0 <= j < i ==> out@[j] == float_eq(x@[j], y@[j]),
        decreases N - i,
    {
        out[i] = lane_float_eq(x[i], y[i]);
        i += 1;
    }
    let r = Mask::from_array(out);
    assert(r@ =~= Seq::new(N as nat, |i: int| float_eq(a@[i], b@[i])));
    r
}

/// The mask of the lanes in which `a` is less than `b`.
pub fn vector_float_lt<T: FloatElement, const N: usize>(a: Simd<T, N>, b: Simd<T, N>) -> (r: Mask<
    T::Mask,
    N,
>) where LaneCount<N>: SupportedLaneCount, T::Mask: MaskElement
    ensures
        r@ == Seq::new(N as nat, |i: int| float_lt(a@[i], b@[i])),
{
    let x = a.to_array();
    let y = b.to_array();
    let mut out = [false; N];
    let mut i: usize = 0;
    while i < N
        invariant
            i <= N,
            x@ == a@,
            y@ == b@,
            forall|j: int| 0 <= j < i ==> out@[j] == float_lt(x@[j], y@[j]),
        decreases N - i,
    {
        out[i] = lane_float_lt(x[i], y[i]);
        i += 1;
    }
    let r = Mask::from_array(out);
    assert(r@ =~= Seq::new(N as nat, |i: int| float_lt(a@[i], b@[i])));
    r
}

/// The mask of the lanes in which `a` is less than or equal to `b`.
pub fn vector_float_le<T: FloatElement, const N: usize>(a: Simd<T, N>, b: Simd<T, N>) -> (r: Mask<
    T::Mask,
    N,
>) where LaneCount<N>: SupportedLaneCount, T::Mask: MaskElement
    ensures
        r@ == Seq::new(N as nat, |i: int| float_le(a@[i], b@[i])),
{
    let x = a.to_array();
    let y = b.to_array();
    let mut out = [false; N];
    let mut i: usize = 0;
    while i < N
        invariant
            i <= N,
            x@ == a@,
            y@ == b@,
            forall|j: int| 0 <= j < i ==> out@[j] == float_le(x@[j], y@[j]),
        decreases N - i,
    {
        out[i] = lane_float_lt(x[i], y[i]) || lane_float_eq(x[i], y[i]);
        i += 1;
    }
    let r = Mask::from_array(out);
    assert(r@ =~= Seq::new(N as nat, |i: int| float_le(a@[i], b@[i])));
    r
}

/// The lanes of `v` with the signs of the lanes of `sign`.
pub fn vector_copysign<T: FloatElement, const N: usize>(v: Simd<T, N>, sign: Simd<T, N>) -> (r:
    Simd<T, N>) where LaneCount<N>: SupportedLaneCount
    ensures
        r@ == Seq::new(N as nat, |i: int| with_sign(v@[i], sign@[i].sign_bit())),
{
    let a = v.to_array();
    let s = sign.to_array();
    let mut out = a;
    let mut i: usize = 0;
    while i < N
        invariant
            i <= N,
            a@ == v@,
            s@ == sign@,
            forall|j: int| 0 <= j < i ==> out@[j] == with_sign(a@[j], s@[j].sign_bit()),
        decreases N - i,
    {
        out[i] = lane_with_sign(a[i], s[i].sign_of());
        i += 1;
    }
    let r = Simd::from_array(out);
    assert(r@ =~= Seq::new(N as nat, |i: int| with_sign(v@[i], sign@[i].sign_bit())));
    r
}

/// The lanes of `v` with the sign bit cleared.
pub fn vector_abs<T: FloatElement, const N: usize>(v: Simd<T, N>) -> (r: Simd<T, N>) where
    LaneCount<N>: SupportedLaneCount,

    ensures
        r@ == Seq::new(N as nat, |i: int| with_sign(v@[i], false)),
{
    let a = v.to_array();
    let mut out = a;
    let mut i: usize = 0;
    while i < N
        invariant
            i <= N,
            a@ == v@,
            forall|j: int| 0 <= j < i ==> out@[j] == with_sign(a@[j], false),
        decreases N - i,
    {
        out[i] = lane_with_sign(a[i], false);
        i += 1;
    }
    let r = Simd::from_array(out);
    assert(r@ =~= Seq::new(N as nat, |i: int| with_sign(v@[i], false)));
    r
}

/// The lanes of `v` with the sign bit flipped.
pub fn vector_neg<T: FloatElement, const N: usize>(v: Simd<T, N>) -> (r: Simd<T, N>) where
    LaneCount<N>: SupportedLaneCount,

    ensures
        r@ == Seq::new(N as nat, |i: int| with_sign(v@[i], !v@[i].sign_bit())),
{
    let a = v.to_array();
    let mut out = a;
    let mut i: usize = 0;
    while i < N
        invariant
            i <= N,
            a@ == v@,
            forall|j: int| 0 <= j < i ==> out@[j] == with_sign(a@[j], !a@[j].sign_bit()),
        decreases N - i,
    {
        out[i] = lane_with_sign(a[i], !a[i].sign_of());
        i += 1;
    }
    let r = Simd::from_array(out);
    assert(r@ =~= Seq::new(N as nat, |i: int| with_sign(v@[i], !v@[i].sign_bit())));
    r
}

/// The signs of the lanes of `v`, as lanes.
pub fn vector_signum<T: FloatElement, const N: usize>(v: Simd<T, N>) -> (r: Simd<T, N>) where
    LaneCount<N>: SupportedLaneCount,

    ensures
        r@ == Seq::new(N as nat, |i: int| float_signum(v@[i])),
{
    let a = v.to_array();
    let mut out = a;
    let mut i: usize = 0;
    while i < N
        invariant
            i <= N,
            a@ == v@,
            forall|j: int| 0 <= j < i ==> out@[j] == float_signum(a@[j]),
        decreases N - i,
    {
        out[i] = lane_float_signum(a[i]);
        i += 1;
    }
    let r = Simd::from_array(out);
    assert(r@ =~= Seq::new(N as nat, |i: int| float_signum(v@[i])));
    r
}

/// The lanewise greater of two vectors.
pub fn vector_float_max<T: FloatElement, const N: usize>(a: Simd<T, N>, b: Simd<T, N>) -> (r: Simd<
    T,
    N,
>) where LaneCount<N>: SupportedLaneCount
    ensures
        r@ == Seq::new(N as nat, |i: int| float_max(a@[i], b@[i])),
{
    let x = a.to_array();
    let y = b.to_array();
    let mut out = x;
    let mut i: usize = 0;
    while i < N
        invariant
            i <= N,
            x@ == a@,
            y@ == b@,
            forall|j: int| 0 <= j < i ==> out@[j] == float_max(x@[j], y@[j]),
        decreases N - i,
    {
        out[i] = lane_float_max(x[i], y[i]);
        i += 1;
    }
    let r = Simd::from_array(out);
    assert(r@ =~= Seq::new(N as nat, |i: int| float_max(a@[i], b@[i])));
    r
}

/// The lanewise lesser of two vectors.
pub fn vector_float_min<T: FloatElement, const N: usize>(a: Simd<T, N>, b: Simd<T, N>) -> (r: Simd<
    T,
    N,
>) where LaneCount<N>: SupportedLaneCount
    ensures
        r@ == Seq::new(N as nat, |i: int| float_min(a@[i], b@[i])),
{
    let x = a.to_array();
    let y = b.to_array();
    let mut out = x;
    let mut i: usize = 0;
    while i < N
        invariant
            i <= N,
            x@ == a@,
            y@ == b@,
            forall|j: int| 0 <= j < i ==> out@[j] == float_min(x@[j], y@[j]),
        decreases N - i,
    {
        out[i] = lane_float_min(x[i], y[i]);
        i += 1;
    }
    let r = Simd::from_array(out);
    assert(r@ =~= Seq::new(N as nat, |i: int| float_min(a@[i], b@[i])));
    r
}

/// Each lane brought into the interval from the lane of `min` to the lane of
/// `max`, or the report that a lane of `min` is greater than that of `max`.
pub fn vector_float_clamp<T: FloatElement, const N: usize>(
    v: Simd<T, N>,
    min: Simd<T, N>,
    max: Simd<T, N>,
) -> (r: Result<Simd<T, N>, SimdError>) where LaneCount<N>: SupportedLaneCount
    ensures
        ordered_float_bounds(min@, max@) ==> r is Ok && r->Ok_0@ == Seq::new(
            N as nat,
            |i: int| float_clamp(v@[i], min@[i], max@[i]),
        ),
        !ordered_float_bounds(min@, max@) ==> r == Err::<Simd<T, N>, SimdError>(
            SimdError::MinAboveMax,
        ),
{
    proof {
        min.lemma_len();
    }
    let a = v.to_array();
    let lo = min.to_array();
    let hi = max.to_array();
    let mut out = a;
    let mut i: usize = 0;
    while i < N
        invariant
            i <= N,
            a@ == v@,
            lo@ == min@,
            hi@ == max@,
            min@.len() == N,
            forall|j: int| 0 <= j < i ==> !float_lt(hi@[j], #[trigger] lo@[j]),
            forall|j: int| 0 <= j < i ==> out@[j] == float_clamp(a@[j], lo@[j], hi@[j]),
        decreases N - i,
    {
        if lane_float_lt(hi[i], lo[i]) {
            assert(float_lt(max@[i as int], min@[i as int]));
            return Err(SimdError::MinAboveMax);
        }
        let raised = if lane_float_lt(a[i], lo[i]) {
            lo[i]
        } else {
            a[i]
        };
        out[i] = if lane_float_lt(hi[i], raised) {
            hi[i]
        } else {
            raised
        };
        i += 1;
    }
    let r = Simd::from_array(out);
    assert(r@ =~= Seq::new(N as nat, |i: int| float_clamp(v@[i], min@[i], max@[i])));
    Ok(r)
}

/// The greatest lane; lanes that are not a number are passed over unless all
/// lanes are such.
pub fn vector_reduce_max<T: FloatElement, const N: usize>(v: Simd<T, N>) -> (r: T) where
    LaneCount<N>: SupportedLaneCount,

    ensures
        is_float_max_of(v@, r),
{
    proof {
        v.lemma_len();
        lemma_lane_count::<N>();
    }
    let a = v.to_array();
    let mut best = a[0];
    let mut i: usize = 1;
    let ghost mut at: int = 0;
    while i < N
        invariant
            1 <= i <= N,
            a@ == v@,
            a@.len() == N,
            0 <= at < i,
            a@[at] == best,
            (forall|j: int| 0 <= j < i ==> is_nan(#[trigger] a@[j])) ==> is_nan(best),
            (exists|j: int| 0 <= j < i && !is_nan(#[trigger] a@[j])) ==> !is_nan(best) && forall|
                j: int,
            |
                0 <= j < i ==> !float_lt(best, #[trigger] a@[j]),
        decreases N - i,
    {
        let ghost before = best;
        let next = lane_float_max(best, a[i]);
        proof {
            if next != best {
                at = i as int;
            }
            let x = a@[i as int];
            assert(!is_nan(x) ==> exists|j: int| 0 <= j < i + 1 && !is_nan(#[trigger] a@[j]));
            if exists|j: int| 0 <= j < i + 1 && !is_nan(#[trigger] a@[j]) {
                if exists|j: int| 0 <= j < i && !is_nan(#[trigger] a@[j]) {
                    assert forall|j: int| 0 <= j < i + 1 implies !float_lt(
                        next,
                        #[trigger] a@[j],
                    ) by {
                        lemma_float_order(before, next, a@[j]);
                        lemma_float_order(next, before, a@[j]);
                        lemma_float_order(before, x, x);
                    }
                } else {
                    assert(is_nan(before));
                    assert forall|j: int| 0 <= j < i + 1 implies !float_lt(
                        next,
                        #[trigger] a@[j],
                    ) by {
                        lemma_float_order(x, x, x);
                        if j < i {
                            assert(is_nan(a@[j]));
                        }
                    }
                }
            }
        }
        best = next;
        i += 1;
    }
    assert(v@[at] == best);
    best
}

/// The least lane; lanes that are not a number are passed over unless all
/// lanes are such.
pub fn vector_reduce_min<T: FloatElement, const N: usize>(v: Simd<T, N>) -> (r: T) where
    LaneCount<N>: SupportedLaneCount,

    ensures
        is_float_min_of(v@, r),
{
    proof {
        v.lemma_len();
        lemma_lane_count::<N>();
    }
    let a = v.to_array();
    let mut best = a[0];
    let mut i: usize = 1;
    let ghost mut at: int = 0;
    while i < N
        invariant
            1 <= i <= N,
            a@ == v@,
            a@.len() == N,
            0 <= at < i,
            a@[at] == best,
            (forall|j: int| 0 <= j < i ==> is_nan(#[trigger] a@[j])) ==> is_nan(best),
            (exists|j: int| 0 <= j < i && !is_nan(#[trigger] a@[j])) ==> !is_nan(best) && forall|
                j: int,
            |
                0 <= j < i ==> !float_lt(#[trigger] a@[j], best),
        decreases N - i,
    {
        let ghost before = best;
        let next = lane_float_min(best, a[i]);
        proof {
            if next != best {
                at = i as int;
            }
            let x = a@[i as int];
            assert(!is_nan(x) ==> exists|j: int| 0 <= j < i + 1 && !is_nan(#[trigger] a@[j]));
            if exists|j: int| 0 <= j < i + 1 && !is_nan(#[trigger] a@[j]) {
                if exists|j: int| 0 <= j < i && !is_nan(#[trigger] a@[j]) {
                    assert forall|j: int| 0 <= j < i + 1 implies !float_lt(
                        #[trigger] a@[j],
                        next,
                    ) by {
                        lemma_float_order(a@[j], next, before);
                        lemma_float_order(a@[j], before, next);
                        lemma_float_order(x, x, before);
                    }
                } else {
                    assert(is_nan(before));
                    assert forall|j: int| 0 <= j < i + 1 implies !float_lt(
                        #[trigger] a@[j],
                        next,
                    ) by {
                        lemma_float_order(x, x, x);
                        if j < i {
                            assert(is_nan(a@[j]));
                        }
                    }
                }
            }
        }
        best = next;
        i += 1;
    }
    assert(v@[at] == best);
    best
}

/// The vector of the integer kind `U` whose lanes are the integer parts of the
/// lanes of `v`: fractions are cut off, what lies beyond the range of the kind
/// is held at the end of the range, and what is not a number gives 0.
pub fn vector_to_int<T: FloatElement, U: SimdCast, const N: usize>(v: Simd<T, N>) -> (r: Simd<
    U,
    N,
>) where LaneCount<N>: SupportedLaneCount
    ensures
        r@ == Seq::new(N as nat, |i: int| saturated::<U>(int_part(v@[i]))),
{
    let a = v.to_array();
    let mut out = [U::from_wide(0); N];
    let mut i: usize = 0;
    while i < N
        invariant
            i <= N,
            a@ == v@,
            forall|j: int| 0 <= j < i ==> out@[j] == saturated::<U>(int_part(a@[j])),
        decreases N - i,
    {
        out[i] = lane_to_int::<T, U>(a[i]);
        i += 1;
    }
    let r = Simd::from_array(out);
    assert(r@ =~= Seq::new(N as nat, |i: int| saturated::<U>(int_part(v@[i]))));
    r
}

/// Every lane is a number that is no infinity and whose integer part the
/// integer kind `U` has.
pub open spec fn fits_int<T: FloatModel, U: IntModel>(lanes: Seq<T>) -> bool {
    forall|i: int|
        0 <= i < lanes.len() ==> is_finite(#[trigger] lanes[i]) && U::min_value() <= int_part(
            lanes[i],
        ) <= U::max_value()
}

/// The vector of the integer kind `U` whose lanes are the integer parts of the
/// lanes of `v`, each of which is a number that is no infinity and whose
/// integer part the kind has.
pub fn vector_to_int_unchecked<T: FloatElement, U: SimdCast, const N: usize>(v: Simd<T, N>) -> (r:
    Simd<U, N>) where LaneCount<N>: SupportedLaneCount
    requires
        fits_int::<T, U>(v@),
    ensures
        r@ == Seq::new(N as nat, |i: int| U::from_value(int_part(v@[i]))),
{
    let r = vector_to_int::<T, U, N>(v);
    proof {
        v.lemma_len();
        assert forall|i: int| 0 <= i < N implies r@[i] == U::from_value(int_part(v@[i])) by {
            assert(is_finite(v@[i]));
        }
        assert(r@ =~= Seq::new(N as nat, |i: int| U::from_value(int_part(v@[i]))));
    }
    r
}

/// The vector of the floating-point kind `T` whose lanes are the numbers
/// nearest to the values of the lanes of an integer vector.
pub fn vector_from_int<U: SimdCast, T: FloatElement, const N: usize>(v: Simd<U, N>) -> (r: Simd<
    T,
    N,
>) where LaneCount<N>: SupportedLaneCount
    ensures
        r@ == Seq::new(N as nat, |i: int| nearest_float::<T>(v@[i].value())),
{
    let a = v.to_array();
    proof {
        T::lemma_layout();
        lemma_pow2_pos(T::mantissa_width());
    }
    let mut out = [T::make(false, 0, 0); N];
    let mut i: usize = 0;
    while i < N
        invariant
            i <= N,
            a@ == v@,
            forall|j: int| 0 <= j < i ==> out@[j] == nearest_float::<T>(a@[j].value()),
        decreases N - i,
    {
        proof {
            U::lemma_range();
            a@[i as int].lemma_value_in_range();
        }
        out[i] = lane_from_int::<T>(a[i].to_wide());
        i += 1;
    }
    let r = Simd::from_array(out);
    assert(r@ =~= Seq::new(N as nat, |i: int| nearest_float::<T>(v@[i].value())));
    r
}

impl<U: SimdCast, const N: usize> Simd<U, N> where LaneCount<N>: SupportedLaneCount {
    /// The vector of the floating-point kind `T` whose lanes are the numbers
    /// nearest to the values of the lanes; where two numbers are equally near,
    /// the one with the even mantissa.
    pub fn cast_float<T: FloatElement>(self) -> (r: Simd<T, N>)
        ensures
            r@ == Seq::new(N as nat, |i: int| nearest_float::<T>(self@[i].value())),
    {
        vector_from_int::<U, T, N>(self)
    }
}

} // verus!
