//! Masks: one boolean per lane.
//!
//! A mask is held in one of two encodings. The full-width encoding keeps one
//! signed integer per lane, -1 (every bit set) for true and 0 for false. The
//! packed encoding keeps one bit per lane in a 64-bit word, lane 0 in the
//! least significant bit, and no bit set above the last lane. Which encoding
//! a mask is in shows in nothing but `encoding()`: every operation is stated
//! over the view of the mask, the sequence of its booleans, and gives the same
//! sequence for both.
use vstd::prelude::*;
use vstd::std_specs::cmp::PartialEqSpecImpl;
use vstd::std_specs::convert::FromSpecImpl;
use vstd::std_specs::ops::{BitAndSpecImpl, BitOrSpecImpl, BitXorSpecImpl, NotSpecImpl};
use std::ops::{BitAnd, BitOr, BitXor, Not};
use crate::bits::{
    bit,
    byte_at,
    byte_bit,
    byte_of,
    lemma_byte_at,
    lemma_byte_of,
    lemma_bit_clear,
    lemma_bit_low_mask,
    lemma_bit_ops,
    lemma_bit_set,
    lemma_bit_zero,
    lemma_bits_equal,
    lemma_nonzero_has_bit,
    low_mask,
    low_mask_of,
};
use crate::element::{is_mask_lane, spec_truth, truth, IntModel, MaskElement};
use crate::error::SimdError;
use crate::lane_count::{lemma_lane_count, LaneCount, SupportedLaneCount};
use crate::vector::{lemma_array_of, Simd};

verus! {

/// The two ways in which a mask is held.
#[derive(Clone, Copy, Debug, PartialEq, Eq, Structural)]
pub enum MaskEncoding {
    /// One signed integer per lane: -1 for true, 0 for false.
    FullWidth,
    /// One bit per lane in a 64-bit word, lane 0 in the least significant bit.
    Packed,
}

/// Every lane is 0 or -1: the lanes are those of a full-width mask.
pub open spec fn valid_mask_lanes<T: IntModel>(lanes: Seq<T>) -> bool {
    forall|i: int| 0 <= i < lanes.len() ==> is_mask_lane(#[trigger] lanes[i])
}

/// The booleans that the lanes of a full-width mask stand for.
pub open spec fn lanes_to_bools<T: IntModel>(lanes: Seq<T>) -> Seq<bool> {
    Seq::new(lanes.len(), |i: int| lanes[i].value() == -1)
}

/// The booleans that the `n` lowest bits of `bits` stand for.
pub open spec fn bits_to_bools(bits: u64, n: nat) -> Seq<bool> {
    Seq::new(n, |i: int| bit(bits, i))
}

/// No bit of `bits` is set from bit `n` on.
pub open spec fn no_bit_from(bits: u64, n: nat) -> bool {
    forall|i: int| n <= i < 64 ==> !bit(bits, i)
}

/// The word whose bit `i`, for `i` below `k`, is element `i` of `lanes`, and
/// which has no other bit set.
pub open spec fn bools_to_bits(lanes: Seq<bool>, k: nat) -> u64
    decreases k,
{
    if k == 0 {
        0
    } else if lanes[k - 1] {
        bools_to_bits(lanes, (k - 1) as nat) | (1u64 << ((k - 1) as u64))
    } else {
        bools_to_bits(lanes, (k - 1) as nat)
    }
}

/// The bits of `bools_to_bits`.
pub proof fn lemma_bools_to_bits(lanes: Seq<bool>, k: nat, i: int)
    requires
        k <= 64,
        0 <= i < 64,
    ensures
        bit(bools_to_bits(lanes, k), i) == (i < k && lanes[i]),
    decreases k,
{
    if k == 0 {
        lemma_bit_zero(i);
    } else {
        lemma_bools_to_bits(lanes, (k - 1) as nat, i);
        lemma_bit_set(bools_to_bits(lanes, (k - 1) as nat), k - 1, i);
    }
}

/// The number of bytes that hold one bit for each of `lanes` lanes.
pub open spec fn spec_bitmask_len(lanes: nat) -> nat {
    (lanes + 7) / 8
}

/// The number of bytes that hold one bit for each of `lanes` lanes.
pub fn bitmask_len(lanes: usize) -> (r: usize)
    ensures
        r == spec_bitmask_len(lanes as nat),
{
    if lanes % 8 == 0 {
        lanes / 8
    } else {
        lanes / 8 + 1
    }
}

/// The booleans that the bits of `bytes` stand for, bit 0 of byte 0 first.
pub open spec fn bytes_to_bools(bytes: Seq<u8>, n: nat) -> Seq<bool> {
    Seq::new(n, |i: int| byte_bit(bytes[i / 8], i % 8))
}

#[derive(Debug)]
enum Repr<T: MaskElement, const N: usize> {
    Full([T; N]),
    Packed(u64),
}

impl<T: MaskElement, const N: usize> Clone for Repr<T, N> {
    fn clone(&self) -> (r: Self)
        ensures
            r == *self,
    {
        *self
    }
}

impl<T: MaskElement, const N: usize> Copy for Repr<T, N> {

}

/// A mask of `N` lanes over the mask element kind `T`.
///
/// Its view is the sequence of its booleans, lane 0 first.
#[derive(Debug)]
pub struct Mask<T: MaskElement, const N: usize> where LaneCount<N>: SupportedLaneCount {
    repr: Repr<T, N>,
}

impl<T: MaskElement, const N: usize> Clone for Mask<T, N> where LaneCount<N>: SupportedLaneCount {
    fn clone(&self) -> (r: Self)
        ensures
            r == *self,
    {
        *self
    }
}

impl<T: MaskElement, const N: usize> Copy for Mask<T, N> where LaneCount<N>: SupportedLaneCount {

}

impl<T: MaskElement, const N: usize> View for Mask<T, N> where LaneCount<N>: SupportedLaneCount {
    type V = Seq<bool>;

    closed spec fn view(&self) -> Seq<bool> {
        match self.repr {
            Repr::Full(lanes) => lanes_to_bools(lanes@),
            Repr::Packed(bits) => bits_to_bools(bits, N as nat),
        }
    }
}

impl<T: MaskElement, const N: usize> Mask<T, N> where LaneCount<N>: SupportedLaneCount {
    #[verifier::type_invariant]
    spec fn well_formed(self) -> bool {
        match self.repr {
            Repr::Full(lanes) => valid_mask_lanes(lanes@),
            Repr::Packed(bits) => no_bit_from(bits, N as nat),
        }
    }

    /// The encoding that the mask is held in.
    pub closed spec fn spec_encoding(self) -> MaskEncoding {
        match self.repr {
            Repr::Full(_) => MaskEncoding::FullWidth,
            Repr::Packed(_) => MaskEncoding::Packed,
        }
    }

    /// The mask with the lanes `lanes`, a sequence of `N` booleans, in the
    /// encoding `encoding`.
    pub closed spec fn from_bools(encoding: MaskEncoding, lanes: Seq<bool>) -> Self {
        choose|m: Self| m.well_formed() && m@ == lanes && m.spec_encoding() == encoding
    }

    /// Lanes and encoding say all there is to say of a mask: the lanes of the
    /// full-width encoding hold nothing but 0 and -1, and the word of the
    /// packed encoding has no bit set above the last lane.
    proof fn lemma_unique(self, other: Self)
        requires
            self.well_formed(),
            other.well_formed(),
            self@ == other@,
            self.spec_encoding() == other.spec_encoding(),
        ensures
            self == other,
    {
        lemma_lane_count::<N>();
        match (self.repr, other.repr) {
            (Repr::Full(a), Repr::Full(b)) => {
                assert forall|i: int| 0 <= i < N implies a[i] == b[i] by {
                    assert(lanes_to_bools(a@)[i] == lanes_to_bools(b@)[i]);
                    assert(is_mask_lane(a@[i]) && is_mask_lane(b@[i]));
                    a@[i].lemma_value_injective(b@[i]);
                }
                assert(a =~= b);
            },
            (Repr::Packed(a), Repr::Packed(b)) => {
                assert forall|i: int| 0 <= i < 64 implies bit(a, i) == bit(b, i) by {
                    if i < N {
                        assert(bits_to_bools(a, N as nat)[i] == bits_to_bools(b, N as nat)[i]);
                    }
                }
                lemma_bits_equal(a, b);
            },
            _ => {},
        }
    }

    /// For every sequence of `N` booleans and either encoding there is the
    /// mask with those lanes in that encoding.
    pub proof fn lemma_from_bools_view(encoding: MaskEncoding, lanes: Seq<bool>)
        requires
            lanes.len() == N,
        ensures
            Self::from_bools(encoding, lanes)@ == lanes,
            Self::from_bools(encoding, lanes).spec_encoding() == encoding,
    {
        lemma_lane_count::<N>();
        let m = match encoding {
            MaskEncoding::FullWidth => {
                let full = Seq::new(N as nat, |i: int| spec_truth::<T>(lanes[i]));
                lemma_array_of::<T, N>(full);
                let array = choose|array: [T; N]| array@ == full;
                T::lemma_signed();
                T::lemma_range();
                T::lemma_from_value(-1);
                T::lemma_from_value(0);
                Mask::<T, N> { repr: Repr::Full(array) }
            },
            MaskEncoding::Packed => {
                let bits = bools_to_bits(lanes, N as nat);
                assert forall|i: int| 0 <= i < 64 implies bit(bits, i) == (i < N && lanes[i]) by {
                    lemma_bools_to_bits(lanes, N as nat, i);
                }
                Mask::<T, N> { repr: Repr::Packed(bits) }
            },
        };
        assert(m@ =~= lanes);
        assert(m.well_formed());
    }

    /// What `splat` returns.
    pub open spec fn spec_splat(value: bool) -> Self {
        Self::from_bools(MaskEncoding::FullWidth, Seq::new(N as nat, |i: int| value))
    }

    /// What `from_array` returns.
    pub open spec fn spec_from_array(array: [bool; N]) -> Self {
        Self::from_bools(MaskEncoding::FullWidth, array@)
    }

    /// What `to_array` returns.
    pub open spec fn spec_to_array(self) -> [bool; N] {
        choose|array: [bool; N]| array@ == self@
    }

    /// What `with_encoding` returns.
    pub open spec fn spec_with_encoding(self, encoding: MaskEncoding) -> Self {
        Self::from_bools(encoding, self@)
    }

    /// What `from_bitmask` returns.
    pub open spec fn spec_from_bitmask(bitmask: u64) -> Self {
        Self::from_bools(MaskEncoding::FullWidth, bits_to_bools(bitmask, N as nat))
    }

    /// What `to_bitmask` returns.
    pub open spec fn spec_to_bitmask(self) -> u64 {
        bools_to_bits(self@, N as nat)
    }

    /// A mask made from an array of booleans gives the array back, whichever
    /// encoding it is put in on the way.
    pub proof fn lemma_array_round_trip(array: [bool; N], encoding: MaskEncoding)
        ensures
            Self::from_array(array).to_array() == array,
            Self::from_array(array).with_encoding(encoding).to_array() == array,
            Self::from_array(array).with_encoding(encoding)@ == array@,
            Self::from_array(array).with_encoding(encoding).spec_encoding() == encoding,
    {
        let first = Self::from_array(array);
        Self::lemma_from_bools_view(MaskEncoding::FullWidth, array@);
        let second = first.with_encoding(encoding);
        Self::lemma_from_bools_view(encoding, first@);
        first.lemma_to_array();
        second.lemma_to_array();
        assert(first.to_array() =~= array);
        assert(second.to_array() =~= array);
    }

    /// A mask made from a word of bits gives back the bits of the word that
    /// stand for lanes, whichever encoding it is put in on the way; and a mask
    /// is the mask of its word of bits.
    pub proof fn lemma_bitmask_round_trip(bitmask: u64, encoding: MaskEncoding, mask: Self)
        ensures
            Self::from_bitmask(bitmask).with_encoding(encoding).to_bitmask() == bitmask & low_mask(
                N as nat,
            ),
            Self::from_bitmask(mask.to_bitmask())@ == mask@,
    {
        lemma_lane_count::<N>();
        let lanes = bits_to_bools(bitmask, N as nat);
        Self::lemma_from_bools_view(MaskEncoding::FullWidth, lanes);
        Self::lemma_from_bools_view(encoding, lanes);
        let back = bools_to_bits(lanes, N as nat);
        let low = low_mask(N as nat);
        assert forall|i: int| 0 <= i < 64 implies bit(back, i) == bit(bitmask & low, i) by {
            lemma_bools_to_bits(lanes, N as nat, i);
            lemma_bit_ops(bitmask, low, i);
            lemma_bit_low_mask(N as nat, i);
        }
        lemma_bits_equal(back, bitmask & low);
        let word = mask.to_bitmask();
        Self::lemma_from_bools_view(MaskEncoding::FullWidth, bits_to_bools(word, N as nat));
        assert forall|i: int| 0 <= i < N implies bit(word, i) == mask@[i] by {
            lemma_bools_to_bits(mask@, N as nat, i);
        }
        assert(bits_to_bools(word, N as nat) =~= mask@);
    }

    /// The array of a mask holds its lanes.
    pub proof fn lemma_to_array(self)
        ensures
            self.to_array()@ == self@,
    {
        lemma_array_of::<bool, N>(self@);
    }

    /// A mask is the mask of its lanes and its encoding.
    proof fn lemma_from_bools(self)
        requires
            self.well_formed(),
        ensures
            Self::from_bools(self.spec_encoding(), self@) == self,
    {
        let m = Self::from_bools(self.spec_encoding(), self@);
        self.lemma_unique(m);
    }

    /// A mask has `N` lanes.
    pub proof fn lemma_len(self)
        ensures
            self@.len() == N,
    {
    }

    fn full(lanes: [T; N]) -> (r: Self)
        requires
            valid_mask_lanes(lanes@),
        ensures
            r@ == lanes_to_bools(lanes@),
            r.spec_encoding() == MaskEncoding::FullWidth,
    {
        Mask { repr: Repr::Full(lanes) }
    }

    fn packed(bits: u64) -> (r: Self)
        requires
            no_bit_from(bits, N as nat),
        ensures
            r@ == bits_to_bools(bits, N as nat),
            r.spec_encoding() == MaskEncoding::Packed,
    {
        Mask { repr: Repr::Packed(bits) }
    }

    /// The encoding that the mask is held in.
    pub fn encoding(&self) -> (r: MaskEncoding)
        ensures
            r == self.spec_encoding(),
    {
        match self.repr {
            Repr::Full(_) => MaskEncoding::FullWidth,
            Repr::Packed(_) => MaskEncoding::Packed,
        }
    }

    /// The mask with `value` in every lane, in the full-width encoding.
    #[verifier::when_used_as_spec(spec_splat)]
    pub fn splat(value: bool) -> (r: Self)
        ensures
            r == Self::spec_splat(value),
            r@ == Seq::new(N as nat, |i: int| value),
            r.spec_encoding() == MaskEncoding::FullWidth,
    {
        let lane = truth::<T>(value);
        let r = Self::full([lane; N]);
        proof {
            assert(r@ =~= Seq::new(N as nat, |i: int| value));
            use_type_invariant(&r);
            r.lemma_from_bools();
        }
        r
    }

    /// The mask whose lanes are the elements of `array`, in the full-width
    /// encoding.
    #[verifier::when_used_as_spec(spec_from_array)]
    pub fn from_array(array: [bool; N]) -> (r: Self)
        ensures
            r == Self::spec_from_array(array),
            r@ == array@,
            r.spec_encoding() == MaskEncoding::FullWidth,
    {
        let mut lanes = [truth::<T>(false); N];
        let mut i: usize = 0;
        while i < N
            invariant
                i <= N,
                valid_mask_lanes(lanes@),
                forall|j: int|
                    0 <= j < i ==> ((#[trigger] lanes@[j]).value() == -1 <==> array@[j]),
            decreases N - i,
        {
            lanes[i] = truth::<T>(array[i]);
            i += 1;
        }
        let r = Self::full(lanes);
        proof {
            assert(r@ =~= array@);
            use_type_invariant(&r);
            r.lemma_from_bools();
        }
        r
    }

    /// The lanes as an array of booleans.
    #[verifier::when_used_as_spec(spec_to_array)]
    pub fn to_array(self) -> (r: [bool; N])
        ensures
            r == self.spec_to_array(),
            r@ == self@,
    {
        let mut out = [false; N];
        let mut i: usize = 0;
        while i < N
            invariant
                i <= N,
                forall|j: int| 0 <= j < i ==> out@[j] == self@[j],
            decreases N - i,
        {
            out[i] = self.test_unchecked(i);
            i += 1;
        }
        proof {
            assert(out@ =~= self@);
            assert(out =~= self.spec_to_array());
        }
        out
    }

    /// The same mask in the encoding asked for.
    #[verifier::when_used_as_spec(spec_with_encoding)]
    pub fn with_encoding(self, encoding: MaskEncoding) -> (r: Self)
        ensures
            r == self.spec_with_encoding(encoding),
            r@ == self@,
            r.spec_encoding() == encoding,
    {
        let r = match encoding {
            MaskEncoding::FullWidth => {
                let lanes = self.to_int();
                Self::from_int_unchecked(lanes)
            },
            MaskEncoding::Packed => {
                let bits = self.to_bitmask();
                let r = Self::packed(bits);
                assert(r@ =~= self@);
                r
            },
        };
        proof {
            use_type_invariant(&r);
            r.lemma_from_bools();
        }
        r
    }

    /// The mask that an integer vector stands for, each lane of which is 0 or
    /// -1; in the full-width encoding.
    pub fn from_int_unchecked(value: Simd<T, N>) -> (r: Self)
        requires
            valid_mask_lanes(value@),
        ensures
            r@ == lanes_to_bools(value@),
            r.spec_encoding() == MaskEncoding::FullWidth,
    {
        Self::full(value.to_array())
    }

    /// The mask that an integer vector stands for, or the report that a lane
    /// of it is neither 0 nor -1.
    pub fn from_int(value: Simd<T, N>) -> (r: Result<Self, SimdError>)
        ensures
            valid_mask_lanes(value@) ==> r is Ok && r->Ok_0@ == lanes_to_bools(value@)
                && r->Ok_0.spec_encoding() == MaskEncoding::FullWidth,
            !valid_mask_lanes(value@) ==> r == Err::<Self, SimdError>(SimdError::InvalidMaskLane),
    {
        let lanes = value.to_array();
        let yes = truth::<T>(true);
        let no = truth::<T>(false);
        let mut i: usize = 0;
        while i < N
            invariant
                i <= N,
                lanes@ == value@,
                yes.value() == -1,
                no.value() == 0,
                forall|j: int| 0 <= j < i ==> is_mask_lane(#[trigger] lanes@[j]),
            decreases N - i,
        {
            if !(lanes[i].lane_eq(yes) || lanes[i].lane_eq(no)) {
                assert(!is_mask_lane(value@[i as int]));
                return Err(SimdError::InvalidMaskLane);
            }
            i += 1;
        }
        Ok(Self::full(lanes))
    }

    /// The integer vector that stands for the mask: -1 in the lanes that are
    /// true, 0 in the others.
    pub fn to_int(self) -> (r: Simd<T, N>)
        ensures
            r@ == Seq::new(N as nat, |i: int| spec_truth::<T>(self@[i])),
            valid_mask_lanes(r@),
            lanes_to_bools(r@) == self@,
    {
        let mut lanes = [truth::<T>(false); N];
        let mut i: usize = 0;
        while i < N
            invariant
                i <= N,
                valid_mask_lanes(lanes@),
                forall|j: int|
                    0 <= j < i ==> #[trigger] lanes@[j] == spec_truth::<T>(self@[j])
                        && (lanes@[j].value() == -1 <==> self@[j]),
            decreases N - i,
        {
            lanes[i] = truth::<T>(self.test_unchecked(i));
            i += 1;
        }
        let r = Simd::from_array(lanes);
        assert(r@ =~= Seq::new(N as nat, |i: int| spec_truth::<T>(self@[i])));
        assert(lanes_to_bools(r@) =~= self@);
        r
    }

    /// The same mask over another mask element kind, in the same encoding.
    pub fn cast<U: MaskElement>(self) -> (r: Mask<U, N>)
        ensures
            r@ == self@,
            r.spec_encoding() == self.spec_encoding(),
    {
        proof {
            use_type_invariant(&self);
        }
        match self.repr {
            Repr::Full(_) => {
                let r = Mask::<U, N>::from_array(self.to_array());
                r
            },
            Repr::Packed(bits) => {
                let r = Mask::<U, N>::packed(bits);
                assert(r@ =~= self@);
                r
            },
        }
    }

    /// Whether lane `lane` is true, for a lane that the mask has.
    pub fn test_unchecked(&self, lane: usize) -> (r: bool)
        requires
            lane < N,
        ensures
            r == self@[lane as int],
    {
        proof {
            use_type_invariant(self);
            lemma_lane_count::<N>();
        }
        match self.repr {
            Repr::Full(lanes) => {
                let yes = truth::<T>(true);
                lanes[lane].lane_eq(yes)
            },
            Repr::Packed(bits) => (bits >> (lane as u64)) & 1 == 1,
        }
    }

    /// Whether lane `lane` is true, or the report that the mask has no such
    /// lane.
    pub fn test(&self, lane: usize) -> (r: Result<bool, SimdError>)
        ensures
            lane < N ==> r == Ok::<bool, SimdError>(self@[lane as int]),
            lane >= N ==> r == Err::<bool, SimdError>(SimdError::LaneOutOfRange),
    {
        if lane < N {
            Ok(self.test_unchecked(lane))
        } else {
            Err(SimdError::LaneOutOfRange)
        }
    }

    /// Makes lane `lane` hold `value`, for a lane that the mask has. No other
    /// lane changes, and the encoding stays.
    pub fn set_unchecked(&mut self, lane: usize, value: bool)
        requires
            lane < N,
        ensures
            final(self)@ == old(self)@.update(lane as int, value),
            final(self).spec_encoding() == old(self).spec_encoding(),
    {
        proof {
            use_type_invariant(&*self);
            lemma_lane_count::<N>();
        }
        match self.repr {
            Repr::Full(lanes) => {
                let mut next = lanes;
                next[lane] = truth::<T>(value);
                let r = Self::full(next);
                assert(r@ =~= self@.update(lane as int, value));
                *self = r;
            },
            Repr::Packed(bits) => {
                let next = if value {
                    bits | (1u64 << (lane as u64))
                } else {
                    bits & !(1u64 << (lane as u64))
                };
                proof {
                    assert forall|j: int| 0 <= j < 64 implies bit(next, j) == (if j == lane {
                        value
                    } else {
                        bit(bits, j)
                    }) by {
                        lemma_bit_set(bits, lane as int, j);
                        lemma_bit_clear(bits, lane as int, j);
                    }
                }
                let r = Self::packed(next);
                assert(r@ =~= self@.update(lane as int, value));
                *self = r;
            },
        }
    }

    /// Makes lane `lane` hold `value`, or reports that the mask has no such
    /// lane and leaves the mask as it was.
    pub fn set(&mut self, lane: usize, value: bool) -> (r: Result<(), SimdError>)
        ensures
            final(self).spec_encoding() == old(self).spec_encoding(),
            lane < N ==> r is Ok && final(self)@ == old(self)@.update(lane as int, value),
            lane >= N ==> r == Err::<(), SimdError>(SimdError::LaneOutOfRange) && *final(self)
                == *old(self),
    {
        if lane < N {
            self.set_unchecked(lane, value);
            Ok(())
        } else {
            Err(SimdError::LaneOutOfRange)
        }
    }

    /// Whether some lane is true.
    pub fn any(self) -> (r: bool)
        ensures
            r == exists|i: int| 0 <= i < N && self@[i],
    {
        proof {
            use_type_invariant(&self);
            lemma_lane_count::<N>();
        }
        match self.repr {
            Repr::Full(lanes) => {
                let yes = truth::<T>(true);
                let mut i: usize = 0;
                while i < N
                    invariant
                        i <= N,
                        yes.value() == -1,
                        self.repr == Repr::<T, N>::Full(lanes),
                        forall|j: int| 0 <= j < i ==> !self@[j],
                    decreases N - i,
                {
                    if lanes[i].lane_eq(yes) {
                        assert(self@[i as int]);
                        return true;
                    }
                    i += 1;
                }
                false
            },
            Repr::Packed(bits) => {
                proof {
                    if bits != 0 {
                        lemma_nonzero_has_bit(bits);
                        let i = choose|i: int| 0 <= i < 64 && bit(bits, i);
                        assert(self@[i]);
                    } else {
                        assert forall|i: int| 0 <= i < N implies !self@[i] by {
                            lemma_bit_zero(i);
                        }
                    }
                }
                bits != 0
            },
        }
    }

    /// Whether every lane is true.
    pub fn all(self) -> (r: bool)
        ensures
            r == forall|i: int| 0 <= i < N ==> self@[i],
    {
        proof {
            use_type_invariant(&self);
            lemma_lane_count::<N>();
        }
        match self.repr {
            Repr::Full(lanes) => {
                let yes = truth::<T>(true);
                let mut i: usize = 0;
                while i < N
                    invariant
                        i <= N,
                        yes.value() == -1,
                        self.repr == Repr::<T, N>::Full(lanes),
                        forall|j: int| 0 <= j < i ==> self@[j],
                    decreases N - i,
                {
                    if !lanes[i].lane_eq(yes) {
                        assert(!self@[i as int]);
                        return false;
                    }
                    i += 1;
                }
                true
            },
            Repr::Packed(bits) => {
                let every = low_mask_of(N);
                proof {
                    if bits == every {
                        assert forall|i: int| 0 <= i < N implies self@[i] by {
                            lemma_bit_low_mask(N as nat, i);
                        }
                    }
                    if forall|i: int| 0 <= i < N ==> self@[i] {
                        assert forall|i: int| 0 <= i < 64 implies bit(bits, i) == bit(every, i) by {
                            lemma_bit_low_mask(N as nat, i);
                            if i < N {
                                assert(self@[i]);
                            }
                        }
                        lemma_bits_equal(bits, every);
                    }
                }
                bits == every
            },
        }
    }

    /// The mask as a word of bits: bit `i` is lane `i`, and no bit is set from
    /// bit `N` on.
    #[verifier::when_used_as_spec(spec_to_bitmask)]
    pub fn to_bitmask(self) -> (r: u64)
        ensures
            r == self.spec_to_bitmask(),
            bits_to_bools(r, N as nat) == self@,
            no_bit_from(r, N as nat),
    {
        proof {
            use_type_invariant(&self);
            lemma_lane_count::<N>();
        }
        let r = match self.repr {
            Repr::Full(lanes) => {
                let yes = truth::<T>(true);
                let mut bits: u64 = 0;
                let mut i: usize = 0;
                proof {
                    assert forall|j: int| 0 <= j < 64 implies !bit(bits, j) by {
                        lemma_bit_zero(j);
                    }
                }
                while i < N
                    invariant
                        i <= N <= 64,
                        yes.value() == -1,
                        self.repr == Repr::<T, N>::Full(lanes),
                        forall|j: int| 0 <= j < i ==> bit(bits, j) == self@[j],
                        forall|j: int| i <= j < 64 ==> !bit(bits, j),
                    decreases N - i,
                {
                    if lanes[i].lane_eq(yes) {
                        let ghost before = bits;
                        bits = bits | (1u64 << (i as u64));
                        proof {
                            assert forall|j: int| 0 <= j < 64 implies bit(bits, j) == (j == i
                                || bit(before, j)) by {
                                lemma_bit_set(before, i as int, j);
                            }
                        }
                    }
                    i += 1;
                }
                assert(bits_to_bools(bits, N as nat) =~= self@);
                bits
            },
            Repr::Packed(bits) => bits,
        };
        proof {
            assert forall|i: int| 0 <= i < 64 implies bit(r, i) == bit(
                bools_to_bits(self@, N as nat),
                i,
            ) by {
                lemma_bools_to_bits(self@, N as nat, i);
                if i < N {
                    assert(bits_to_bools(r, N as nat)[i] == self@[i]);
                }
            }
            lemma_bits_equal(r, bools_to_bits(self@, N as nat));
        }
        r
    }

    /// The mask that a word of bits stands for: lane `i` is bit `i`. Bits from
    /// bit `N` on are not looked at. The mask is in the full-width encoding.
    #[verifier::when_used_as_spec(spec_from_bitmask)]
    pub fn from_bitmask(bitmask: u64) -> (r: Self)
        ensures
            r == Self::spec_from_bitmask(bitmask),
            r@ == bits_to_bools(bitmask, N as nat),
            r.spec_encoding() == MaskEncoding::FullWidth,
    {
        proof {
            lemma_lane_count::<N>();
        }
        let mut lanes = [truth::<T>(false); N];
        let mut i: usize = 0;
        while i < N
            invariant
                i <= N <= 64,
                valid_mask_lanes(lanes@),
                forall|j: int|
                    0 <= j < i ==> ((#[trigger] lanes@[j]).value() == -1 <==> bit(bitmask, j)),
            decreases N - i,
        {
            lanes[i] = truth::<T>((bitmask >> (i as u64)) & 1 == 1);
            i += 1;
        }
        let r = Self::full(lanes);
        proof {
            assert(r@ =~= bits_to_bools(bitmask, N as nat));
            use_type_invariant(&r);
            r.lemma_from_bools();
        }
        r
    }
}

impl<T: MaskElement, const N: usize> Mask<T, N> where LaneCount<N>: SupportedLaneCount {
    /// The mask as an array of bytes: bit `i % 8` of byte `i / 8` is lane `i`,
    /// and the bits of the last byte that stand for no lane are clear. The
    /// array has to be `bitmask_len(N)` bytes long; if it is not, that is
    /// reported.
    pub fn to_bitmask_array<const BYTES: usize>(self) -> (r: Result<[u8; BYTES], SimdError>)
        ensures
            BYTES == spec_bitmask_len(N as nat) ==> r is Ok && forall|i: int|
                0 <= i < 8 * BYTES ==> #[trigger] byte_bit(r->Ok_0@[i / 8], i % 8) == (i < N
                    && self@[i]),
            BYTES != spec_bitmask_len(N as nat) ==> r == Err::<[u8; BYTES], SimdError>(
                SimdError::BitmaskLength,
            ),
    {
        proof {
            lemma_lane_count::<N>();
        }
        if BYTES != bitmask_len(N) {
            return Err(SimdError::BitmaskLength);
        }
        let word = self.to_bitmask();
        let mut out = [0u8; BYTES];
        let mut k: usize = 0;
        while k < BYTES
            invariant
                k <= BYTES <= 8,
                forall|c: int| 0 <= c < k ==> out@[c] == byte_of(word, c),
            decreases BYTES - k,
        {
            out[k] = ((word >> ((8 * k) as u64)) & 0xff) as u8;
            k += 1;
        }
        proof {
            assert forall|i: int| 0 <= i < 8 * BYTES implies #[trigger] byte_bit(
                out@[i / 8],
                i % 8,
            ) == (i < N && self@[i]) by {
                lemma_byte_of(word, i / 8, i % 8);
                if i < N {
                    assert(bits_to_bools(word, N as nat)[i] == self@[i]);
                }
            }
        }
        Ok(out)
    }

    /// The mask that an array of bytes stands for: lane `i` is bit `i % 8` of
    /// byte `i / 8`. Bits that stand for no lane are not looked at. The array
    /// has to be `bitmask_len(N)` bytes long; if it is not, that is reported.
    /// The mask is in the full-width encoding.
    pub fn from_bitmask_array<const BYTES: usize>(bitmask: [u8; BYTES]) -> (r: Result<
        Self,
        SimdError,
    >)
        ensures
            BYTES == spec_bitmask_len(N as nat) ==> r is Ok && r->Ok_0@ == bytes_to_bools(
                bitmask@,
                N as nat,
            ) && r->Ok_0.spec_encoding() == MaskEncoding::FullWidth,
            BYTES != spec_bitmask_len(N as nat) ==> r == Err::<Self, SimdError>(
                SimdError::BitmaskLength,
            ),
    {
        proof {
            lemma_lane_count::<N>();
        }
        if BYTES != bitmask_len(N) {
            return Err(SimdError::BitmaskLength);
        }
        let mut word: u64 = 0;
        let mut k: usize = 0;
        proof {
            assert forall|i: int| 0 <= i < 64 implies !bit(word, i) by {
                lemma_bit_zero(i);
            }
        }
        while k < BYTES
            invariant
                k <= BYTES <= 8,
                forall|i: int|
                    0 <= i < 64 ==> bit(word, i) == (i < 8 * k && byte_bit(bitmask@[i / 8], i % 8)),
            decreases BYTES - k,
        {
            let ghost before = word;
            let byte = bitmask[k];
            word = word | ((byte as u64) << ((8 * k) as u64));
            proof {
                assert forall|i: int| 0 <= i < 64 implies bit(word, i) == (i < 8 * (k + 1)
                    && byte_bit(bitmask@[i / 8], i % 8)) by {
                    lemma_bit_ops(before, byte_at(byte, k as int), i);
                    lemma_byte_at(byte, k as int, i);
                }
            }
            k += 1;
        }
        let r = Self::from_bitmask(word);
        assert(r@ =~= bytes_to_bools(bitmask@, N as nat));
        Ok(r)
    }
}

impl<T: MaskElement, const N: usize> FromSpecImpl<[bool; N]> for Mask<T, N> where LaneCount<N>: SupportedLaneCount {
    open spec fn obeys_from_spec() -> bool {
        true
    }

    open spec fn from_spec(array: [bool; N]) -> Self {
        Self::spec_from_array(array)
    }
}

impl<T: MaskElement, const N: usize> From<[bool; N]> for Mask<T, N> where LaneCount<N>: SupportedLaneCount {
    /// The mask whose lanes are the elements of `array`, in the full-width
    /// encoding.
    fn from(array: [bool; N]) -> (r: Self)
        ensures
            r@ == array@,
            r.spec_encoding() == MaskEncoding::FullWidth,
    {
        Self::from_array(array)
    }
}

impl<T: MaskElement, const N: usize> Default for Mask<T, N> where LaneCount<N>: SupportedLaneCount {
    /// The mask with every lane false, in the full-width encoding.
    fn default() -> (r: Self)
        ensures
            r@ == Seq::new(N as nat, |i: int| false),
            r.spec_encoding() == MaskEncoding::FullWidth,
    {
        Self::splat(false)
    }
}

impl<T: MaskElement, const N: usize> PartialEqSpecImpl for Mask<T, N> where LaneCount<N>: SupportedLaneCount {
    open spec fn obeys_eq_spec() -> bool {
        true
    }

    open spec fn eq_spec(&self, other: &Self) -> bool {
        self@ == other@
    }
}

impl<T: MaskElement, const N: usize> PartialEq for Mask<T, N> where LaneCount<N>: SupportedLaneCount {
    /// Masks are equal when all their lanes are, whatever their encodings.
    fn eq(&self, other: &Self) -> (r: bool) {
        let mut i: usize = 0;
        while i < N
            invariant
                i <= N,
                forall|j: int| 0 <= j < i ==> self@[j] == other@[j],
            decreases N - i,
        {
            if self.test_unchecked(i) != other.test_unchecked(i) {
                return false;
            }
            i += 1;
        }
        assert(self@ =~= other@);
        true
    }
}

impl<T: MaskElement, const N: usize> Eq for Mask<T, N> where LaneCount<N>: SupportedLaneCount {

}

impl<T: MaskElement, const N: usize> BitAndSpecImpl for Mask<T, N> where LaneCount<N>: SupportedLaneCount {
    open spec fn obeys_bitand_spec() -> bool {
        true
    }

    open spec fn bitand_req(self, rhs: Self) -> bool {
        true
    }

    open spec fn bitand_spec(self, rhs: Self) -> Self {
        Self::from_bools(self.spec_encoding(), Seq::new(N as nat, |i: int| self@[i] && rhs@[i]))
    }
}

impl<T: MaskElement, const N: usize> BitAnd for Mask<T, N> where LaneCount<N>: SupportedLaneCount {
    type Output = Self;

    /// The lanewise "and" of two masks, in the encoding of `self`.
    fn bitand(self, rhs: Self) -> (r: Self)
        ensures
            r@ == Seq::new(N as nat, |i: int| self@[i] && rhs@[i]),
            r.spec_encoding() == self.spec_encoding(),
    {
        proof {
            use_type_invariant(&self);
            use_type_invariant(&rhs);
            lemma_lane_count::<N>();
        }
        let r = match self.repr {
            Repr::Full(a) => {
                let b = rhs.to_int().to_array();
                let mut out = a;
                let mut i: usize = 0;
                while i < N
                    invariant
                        i <= N,
                        valid_mask_lanes(a@),
                        valid_mask_lanes(b@),
                        forall|j: int| 0 <= j < i ==> #[trigger] out@[j] == a@[j].bits_and(b@[j]),
                        forall|j: int| i <= j < N ==> out@[j] == a@[j],
                    decreases N - i,
                {
                    out[i] = a[i].bitand(b[i]);
                    i += 1;
                }
                proof {
                    assert forall|j: int| 0 <= j < N implies is_mask_lane(#[trigger] out@[j]) && (
                    out@[j].value() == -1 <==> (a@[j].value() == -1 && rhs@[j])) by {
                        assert(is_mask_lane(a@[j]) && is_mask_lane(b@[j]));
                        T::lemma_mask_lanes(a@[j], b@[j]);
                        assert(lanes_to_bools(b@)[j] == rhs@[j]);
                    }
                }
                Self::full(out)
            },
            Repr::Packed(a) => {
                let b = rhs.to_bitmask();
                let bits = a & b;
                proof {
                    assert forall|j: int| 0 <= j < 64 implies bit(bits, j) == (bit(a, j) && bit(b, j)) by {
                        lemma_bit_ops(a, b, j);
                    }
                    assert forall|j: int| 0 <= j < N implies bit(b, j) == rhs@[j] by {
                        assert(bits_to_bools(b, N as nat)[j] == rhs@[j]);
                    }
                }
                Self::packed(bits)
            },
        };
        proof {
            assert(r@ =~= Seq::new(N as nat, |i: int| self@[i] && rhs@[i]));
            use_type_invariant(&r);
            r.lemma_from_bools();
        }
        r
    }
}

impl<T: MaskElement, const N: usize> BitOrSpecImpl for Mask<T, N> where LaneCount<N>: SupportedLaneCount {
    open spec fn obeys_bitor_spec() -> bool {
        true
    }

    open spec fn bitor_req(self, rhs: Self) -> bool {
        true
    }

    open spec fn bitor_spec(self, rhs: Self) -> Self {
        Self::from_bools(self.spec_encoding(), Seq::new(N as nat, |i: int| self@[i] || rhs@[i]))
    }
}

impl<T: MaskElement, const N: usize> BitOr for Mask<T, N> where LaneCount<N>: SupportedLaneCount {
    type Output = Self;

    /// The lanewise "or" of two masks, in the encoding of `self`.
    fn bitor(self, rhs: Self) -> (r: Self)
        ensures
            r@ == Seq::new(N as nat, |i: int| self@[i] || rhs@[i]),
            r.spec_encoding() == self.spec_encoding(),
    {
        proof {
            use_type_invariant(&self);
            use_type_invariant(&rhs);
            lemma_lane_count::<N>();
        }
        let r = match self.repr {
            Repr::Full(a) => {
                let b = rhs.to_int().to_array();
                let mut out = a;
                let mut i: usize = 0;
                while i < N
                    invariant
                        i <= N,
                        valid_mask_lanes(a@),
                        valid_mask_lanes(b@),
                        forall|j: int| 0 <= j < i ==> #[trigger] out@[j] == a@[j].bits_or(b@[j]),
                        forall|j: int| i <= j < N ==> out@[j] == a@[j],
                    decreases N - i,
                {
                    out[i] = a[i].bitor(b[i]);
                    i += 1;
                }
                proof {
                    assert forall|j: int| 0 <= j < N implies is_mask_lane(#[trigger] out@[j]) && (
                    out@[j].value() == -1 <==> (a@[j].value() == -1 || rhs@[j])) by {
                        assert(is_mask_lane(a@[j]) && is_mask_lane(b@[j]));
                        T::lemma_mask_lanes(a@[j], b@[j]);
                        assert(lanes_to_bools(b@)[j] == rhs@[j]);
                    }
                }
                Self::full(out)
            },
            Repr::Packed(a) => {
                let b = rhs.to_bitmask();
                let bits = a | b;
                proof {
                    assert forall|j: int| 0 <= j < 64 implies bit(bits, j) == (bit(a, j) || bit(b, j)) by {
                        lemma_bit_ops(a, b, j);
                    }
                    assert forall|j: int| 0 <= j < N implies bit(b, j) == rhs@[j] by {
                        assert(bits_to_bools(b, N as nat)[j] == rhs@[j]);
                    }
                }
                Self::packed(bits)
            },
        };
        proof {
            assert(r@ =~= Seq::new(N as nat, |i: int| self@[i] || rhs@[i]));
            use_type_invariant(&r);
            r.lemma_from_bools();
        }
        r
    }
}

impl<T: MaskElement, const N: usize> BitXorSpecImpl for Mask<T, N> where LaneCount<N>: SupportedLaneCount {
    open spec fn obeys_bitxor_spec() -> bool {
        true
    }

    open spec fn bitxor_req(self, rhs: Self) -> bool {
        true
    }

    open spec fn bitxor_spec(self, rhs: Self) -> Self {
        Self::from_bools(self.spec_encoding(), Seq::new(N as nat, |i: int| self@[i] != rhs@[i]))
    }
}

impl<T: MaskElement, const N: usize> BitXor for Mask<T, N> where LaneCount<N>: SupportedLaneCount {
    type Output = Self;

    /// The lanewise "exclusive or" of two masks, in the encoding of `self`.
    fn bitxor(self, rhs: Self) -> (r: Self)
        ensures
            r@ == Seq::new(N as nat, |i: int| self@[i] != rhs@[i]),
            r.spec_encoding() == self.spec_encoding(),
    {
        proof {
            use_type_invariant(&self);
            use_type_invariant(&rhs);
            lemma_lane_count::<N>();
        }
        let r = match self.repr {
            Repr::Full(a) => {
                let b = rhs.to_int().to_array();
                let mut out = a;
                let mut i: usize = 0;
                while i < N
                    invariant
                        i <= N,
                        valid_mask_lanes(a@),
                        valid_mask_lanes(b@),
                        forall|j: int| 0 <= j < i ==> #[trigger] out@[j] == a@[j].bits_xor(b@[j]),
                        forall|j: int| i <= j < N ==> out@[j] == a@[j],
                    decreases N - i,
                {
                    out[i] = a[i].bitxor(b[i]);
                    i += 1;
                }
                proof {
                    assert forall|j: int| 0 <= j < N implies is_mask_lane(#[trigger] out@[j]) && (
                    out@[j].value() == -1 <==> (a@[j].value() == -1 != rhs@[j])) by {
                        assert(is_mask_lane(a@[j]) && is_mask_lane(b@[j]));
                        T::lemma_mask_lanes(a@[j], b@[j]);
                        assert(lanes_to_bools(b@)[j] == rhs@[j]);
                    }
                }
                Self::full(out)
            },
            Repr::Packed(a) => {
                let b = rhs.to_bitmask();
                let bits = a ^ b;
                proof {
                    assert forall|j: int| 0 <= j < 64 implies bit(bits, j) == (bit(a, j) != bit(b, j)) by {
                        lemma_bit_ops(a, b, j);
                    }
                    assert forall|j: int| 0 <= j < N implies bit(b, j) == rhs@[j] by {
                        assert(bits_to_bools(b, N as nat)[j] == rhs@[j]);
                    }
                }
                Self::packed(bits)
            },
        };
        proof {
            assert(r@ =~= Seq::new(N as nat, |i: int| self@[i] != rhs@[i]));
            use_type_invariant(&r);
            r.lemma_from_bools();
        }
        r
    }
}

impl<T: MaskElement, const N: usize> NotSpecImpl for Mask<T, N> where LaneCount<N>: SupportedLaneCount {
    open spec fn obeys_not_spec() -> bool {
        true
    }

    open spec fn not_req(self) -> bool {
        true
    }

    open spec fn not_spec(self) -> Self {
        Self::from_bools(self.spec_encoding(), Seq::new(N as nat, |i: int| !self@[i]))
    }
}

impl<T: MaskElement, const N: usize> Not for Mask<T, N> where LaneCount<N>: SupportedLaneCount {
    type Output = Self;

    /// The mask with every lane negated, in the encoding of `self`.
    fn not(self) -> (r: Self)
        ensures
            r@ == Seq::new(N as nat, |i: int| !self@[i]),
            r.spec_encoding() == self.spec_encoding(),
    {
        proof {
            use_type_invariant(&self);
            lemma_lane_count::<N>();
        }
        let r = match self.repr {
            Repr::Full(a) => {
                let mut out = a;
                let mut i: usize = 0;
                while i < N
                    invariant
                        i <= N,
                        valid_mask_lanes(a@),
                        forall|j: int| 0 <= j < i ==> #[trigger] out@[j] == a@[j].bits_not(),
                        forall|j: int| i <= j < N ==> out@[j] == a@[j],
                    decreases N - i,
                {
                    out[i] = a[i].not();
                    i += 1;
                }
                proof {
                    assert forall|j: int| 0 <= j < N implies is_mask_lane(#[trigger] out@[j]) && (
                    out@[j].value() == -1 <==> !(a@[j].value() == -1)) by {
                        assert(is_mask_lane(a@[j]));
                        T::lemma_mask_lanes(a@[j], a@[j]);
                    }
                }
                Self::full(out)
            },
            Repr::Packed(a) => {
                let every = low_mask_of(N);
                let bits = !a & every;
                proof {
                    assert forall|j: int| 0 <= j < 64 implies bit(bits, j) == (j < N && !bit(
                        a,
                        j,
                    )) by {
                        lemma_bit_ops(a, a, j);
                        lemma_bit_ops(!a, every, j);
                        lemma_bit_low_mask(N as nat, j);
                    }
                }
                Self::packed(bits)
            },
        };
        proof {
            assert(r@ =~= Seq::new(N as nat, |i: int| !self@[i]));
            use_type_invariant(&r);
            r.lemma_from_bools();
        }
        r
    }
}

} // verus!
