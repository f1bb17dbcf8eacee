//! Permuting lanes: index tables that are checked when they are made, and the
//! reversal, rotation, interleaving and de-interleaving that are made of them.
use vstd::prelude::*;
use vstd::arithmetic::div_mod::{
    lemma_fundamental_div_mod,
    lemma_fundamental_div_mod_converse,
    lemma_mod_bound,
};
use crate::element::SimdElement;
use crate::error::SimdError;
use crate::lane_count::{lemma_lane_count, LaneCount, SupportedLaneCount};
use crate::vector::Simd;

verus! {

/// A lane of one of two input vectors.
#[derive(Clone, Copy, Debug, PartialEq, Eq, PartialOrd, Ord, Hash, Structural)]
pub enum Which {
    /// A lane of the first input vector.
    First(usize),
    /// A lane of the second input vector.
    Second(usize),
}

impl Which {
    /// The index of the lane, whichever vector it is a lane of.
    pub open spec fn lane(self) -> usize {
        match self {
            Which::First(lane) => lane,
            Which::Second(lane) => lane,
        }
    }

    /// The element that the selector picks from two sequences.
    pub open spec fn pick<A>(self, first: Seq<A>, second: Seq<A>) -> A {
        match self {
            Which::First(lane) => first[lane as int],
            Which::Second(lane) => second[lane as int],
        }
    }
}

/// Every entry of the table is the index of a lane of a vector with
/// `input_lanes` lanes.
pub open spec fn valid_index_table(table: Seq<usize>, input_lanes: nat) -> bool {
    forall|i: int| 0 <= i < table.len() ==> #[trigger] table[i] < input_lanes
}

/// Every entry of the table names a lane of a vector with `input_lanes` lanes.
pub open spec fn valid_which_table(table: Seq<Which>, input_lanes: nat) -> bool {
    forall|i: int| 0 <= i < table.len() ==> (#[trigger] table[i]).lane() < input_lanes
}

/// The lanes of `input` that the table names, in the order of the table.
pub open spec fn swizzle_lanes<A>(table: Seq<usize>, input: Seq<A>) -> Seq<A> {
    Seq::new(table.len(), |i: int| input[table[i] as int])
}

/// The lanes of `first` and `second` that the table names, in the order of the
/// table.
pub open spec fn swizzle2_lanes<A>(table: Seq<Which>, first: Seq<A>, second: Seq<A>) -> Seq<A> {
    Seq::new(table.len(), |i: int| table[i].pick(first, second))
}

/// The lanes in the opposite order.
pub open spec fn reverse_lanes<A>(input: Seq<A>) -> Seq<A> {
    Seq::new(input.len(), |i: int| input[input.len() - 1 - i])
}

/// The lanes moved `offset` places toward lane 0, those that fall off coming
/// back in at the end.
pub open spec fn rotate_lanes_left<A>(input: Seq<A>, offset: nat) -> Seq<A> {
    Seq::new(input.len(), |i: int| input[(i + offset) % (input.len() as int)])
}

/// The lanes moved `offset` places away from lane 0, those that fall off
/// coming back in at the start.
pub open spec fn rotate_lanes_right<A>(input: Seq<A>, offset: nat) -> Seq<A> {
    Seq::new(input.len(), |i: int| input[(i - offset) % (input.len() as int)])
}

/// The elements of `a` and `b` in turn: `a[0], b[0], a[1], b[1]` and so on.
pub open spec fn interleaved<A>(a: Seq<A>, b: Seq<A>) -> Seq<A> {
    Seq::new(
        a.len() + b.len(),
        |k: int|
            if k % 2 == 0 {
                a[k / 2]
            } else {
                b[k / 2]
            },
    )
}

/// Two sequences interleaved, and the result cut into its first and its second
/// half.
pub open spec fn interleave_lanes<A>(a: Seq<A>, b: Seq<A>) -> (Seq<A>, Seq<A>) {
    (
        interleaved(a, b).subrange(0, a.len() as int),
        interleaved(a, b).subrange(a.len() as int, (a.len() + b.len()) as int),
    )
}

/// Of two sequences put one after the other, the elements at the even places
/// and those at the odd places.
pub open spec fn deinterleave_lanes<A>(a: Seq<A>, b: Seq<A>) -> (Seq<A>, Seq<A>) {
    (Seq::new(a.len(), |i: int| (a + b)[2 * i]), Seq::new(b.len(), |i: int| (a + b)[2 * i + 1]))
}

/// De-interleaving undoes interleaving.
pub proof fn lemma_deinterleave_interleave<A>(a: Seq<A>, b: Seq<A>)
    requires
        a.len() == b.len(),
    ensures
        deinterleave_lanes(interleave_lanes(a, b).0, interleave_lanes(a, b).1) == (a, b),
{
    let (low, high) = interleave_lanes(a, b);
    assert(low + high =~= interleaved(a, b));
    let (even, odd) = deinterleave_lanes(low, high);
    assert(even =~= a);
    assert(odd =~= b);
}

/// Interleaving undoes de-interleaving.
pub proof fn lemma_interleave_deinterleave<A>(a: Seq<A>, b: Seq<A>)
    requires
        a.len() == b.len(),
    ensures
        interleave_lanes(deinterleave_lanes(a, b).0, deinterleave_lanes(a, b).1) == (a, b),
{
    let (even, odd) = deinterleave_lanes(a, b);
    assert(interleaved(even, odd) =~= a + b);
    let (low, high) = interleave_lanes(even, odd);
    assert(low =~= a);
    assert(high =~= b);
}

/// Adding a multiple of `n` to a remainder's dividend leaves the remainder.
proof fn lemma_mod_shift(x: int, k: int, n: int)
    requires
        n > 0,
    ensures
        (x + k * n) % n == x % n,
{
    lemma_mod_bound(x, n);
    lemma_fundamental_div_mod(x, n);
    let q = x / n;
    assert(x + k * n == n * (q + k) + x % n) by (nonlinear_arith)
        requires
            x == n * q + x % n,
    ;
    lemma_fundamental_div_mod_converse(x + k * n, n, q + k, x % n);
}

/// Where lane `i` of a rotation to the right comes from, the rotation to the
/// left finds lane `i` again.
proof fn lemma_rotate_back(i: int, offset: int, n: int)
    requires
        0 <= i < n,
    ensures
        0 <= (i - offset) % n < n,
        ((i - offset) % n + offset) % n == i,
{
    lemma_mod_bound(i - offset, n);
    lemma_fundamental_div_mod(i - offset, n);
    let q = (i - offset) / n;
    assert((i - offset) % n + offset == i + (-q) * n) by (nonlinear_arith)
        requires
            i - offset == n * q + (i - offset) % n,
    ;
    lemma_mod_shift(i, -q, n);
    lemma_fundamental_div_mod_converse(i, n, 0, i);
}

/// Rotating to the right undoes rotating to the left by the same offset.
pub proof fn lemma_rotate_right_left<A>(input: Seq<A>, offset: nat)
    ensures
        rotate_lanes_right(rotate_lanes_left(input, offset), offset) == input,
{
    let n = input.len() as int;
    let there = rotate_lanes_left(input, offset);
    let back = rotate_lanes_right(there, offset);
    assert forall|i: int| 0 <= i < n implies #[trigger] back[i] == input[i] by {
        lemma_rotate_back(i, offset as int, n);
    }
    assert(back =~= input);
}

/// Reversing twice gives the vector back.
pub proof fn lemma_reverse_reverse<A>(input: Seq<A>)
    ensures
        reverse_lanes(reverse_lanes(input)) == input,
{
    assert(reverse_lanes(reverse_lanes(input)) =~= input);
}

/// A table that says, for each of `OUTPUT_LANES` output lanes, which of the
/// `INPUT_LANES` lanes of the input it is a copy of.
///
/// A table exists only if every entry names a lane that the input has: the
/// check is made once, when the table is made, and no vector is read by a
/// table that failed it.
#[derive(Debug)]
pub struct Swizzle<const INPUT_LANES: usize, const OUTPUT_LANES: usize> {
    index: [usize; OUTPUT_LANES],
}

impl<const INPUT_LANES: usize, const OUTPUT_LANES: usize> View for Swizzle<
    INPUT_LANES,
    OUTPUT_LANES,
> {
    type V = Seq<usize>;

    closed spec fn view(&self) -> Seq<usize> {
        self.index@
    }
}

impl<const INPUT_LANES: usize, const OUTPUT_LANES: usize> Swizzle<INPUT_LANES, OUTPUT_LANES> {
    #[verifier::type_invariant]
    spec fn well_formed(self) -> bool {
        valid_index_table(self.index@, INPUT_LANES as nat)
    }

    /// The table `index`, or the report that an entry of it names a lane that
    /// the input does not have.
    pub fn new(index: [usize; OUTPUT_LANES]) -> (r: Result<Self, SimdError>)
        ensures
            valid_index_table(index@, INPUT_LANES as nat) ==> r is Ok && r->Ok_0@ == index@,
            !valid_index_table(index@, INPUT_LANES as nat) ==> r == Err::<Self, SimdError>(
                SimdError::SourceLaneOutOfRange,
            ),
    {
        let mut i: usize = 0;
        while i < OUTPUT_LANES
            invariant
                i <= OUTPUT_LANES,
                forall|j: int| 0 <= j < i ==> #[trigger] index@[j] < INPUT_LANES,
            decreases OUTPUT_LANES - i,
        {
            if index[i] >= INPUT_LANES {
                assert(!(index@[i as int] < INPUT_LANES));
                return Err(SimdError::SourceLaneOutOfRange);
            }
            i += 1;
        }
        Ok(Swizzle { index })
    }

    /// The table as an array; every entry of it names a lane of the input.
    pub fn index(&self) -> (r: [usize; OUTPUT_LANES])
        ensures
            r@ == self@,
            valid_index_table(r@, INPUT_LANES as nat),
    {
        proof {
            use_type_invariant(self);
        }
        self.index
    }

    /// The vector whose lane `i` is the lane of `vector` that entry `i` of the
    /// table names.
    pub fn swizzle<T: SimdElement>(&self, vector: Simd<T, INPUT_LANES>) -> (r: Simd<
        T,
        OUTPUT_LANES,
    >) where LaneCount<INPUT_LANES>: SupportedLaneCount, LaneCount<OUTPUT_LANES>: SupportedLaneCount
        ensures
            r@ == swizzle_lanes(self@, vector@),
    {
        proof {
            use_type_invariant(self);
            lemma_lane_count::<OUTPUT_LANES>();
            vector.lemma_len();
        }
        let input = vector.to_array();
        let mut out = [input[self.index[0]]; OUTPUT_LANES];
        let mut i: usize = 1;
        while i < OUTPUT_LANES
            invariant
                1 <= i <= OUTPUT_LANES,
                valid_index_table(self.index@, INPUT_LANES as nat),
                forall|j: int| 0 <= j < i ==> out@[j] == input@[self.index@[j] as int],
            decreases OUTPUT_LANES - i,
        {
            out[i] = input[self.index[i]];
            i += 1;
        }
        let r = Simd::from_array(out);
        assert(r@ =~= swizzle_lanes(self@, vector@));
        r
    }
}

/// A table that says, for each of `OUTPUT_LANES` output lanes, which lane of
/// which of two inputs of `INPUT_LANES` lanes it is a copy of.
///
/// As with `Swizzle`, a table exists only if every entry names a lane that
/// the inputs have.
#[derive(Debug)]
pub struct Swizzle2<const INPUT_LANES: usize, const OUTPUT_LANES: usize> {
    index: [Which; OUTPUT_LANES],
}

impl<const INPUT_LANES: usize, const OUTPUT_LANES: usize> View for Swizzle2<
    INPUT_LANES,
    OUTPUT_LANES,
> {
    type V = Seq<Which>;

    closed spec fn view(&self) -> Seq<Which> {
        self.index@
    }
}

impl<const INPUT_LANES: usize, const OUTPUT_LANES: usize> Swizzle2<INPUT_LANES, OUTPUT_LANES> {
    #[verifier::type_invariant]
    spec fn well_formed(self) -> bool {
        valid_which_table(self.index@, INPUT_LANES as nat)
    }

    /// The table `index`, or the report that an entry of it names a lane that
    /// the inputs do not have.
    pub fn new(index: [Which; OUTPUT_LANES]) -> (r: Result<Self, SimdError>)
        ensures
            valid_which_table(index@, INPUT_LANES as nat) ==> r is Ok && r->Ok_0@ == index@,
            !valid_which_table(index@, INPUT_LANES as nat) ==> r == Err::<Self, SimdError>(
                SimdError::SourceLaneOutOfRange,
            ),
    {
        let mut i: usize = 0;
        while i < OUTPUT_LANES
            invariant
                i <= OUTPUT_LANES,
                forall|j: int| 0 <= j < i ==> (#[trigger] index@[j]).lane() < INPUT_LANES,
            decreases OUTPUT_LANES - i,
        {
            let lane = match index[i] {
                Which::First(lane) => lane,
                Which::Second(lane) => lane,
            };
            if lane >= INPUT_LANES {
                assert(!(index@[i as int].lane() < INPUT_LANES));
                return Err(SimdError::SourceLaneOutOfRange);
            }
            i += 1;
        }
        Ok(Swizzle2 { index })
    }

    /// The table as an array; every entry of it names a lane of the inputs.
    pub fn index(&self) -> (r: [Which; OUTPUT_LANES])
        ensures
            r@ == self@,
            valid_which_table(r@, INPUT_LANES as nat),
    {
        proof {
            use_type_invariant(self);
        }
        self.index
    }

    /// The vector whose lane `i` is the lane of `first` or of `second` that
    /// entry `i` of the table names.
    pub fn swizzle2<T: SimdElement>(
        &self,
        first: Simd<T, INPUT_LANES>,
        second: Simd<T, INPUT_LANES>,
    ) -> (r: Simd<T, OUTPUT_LANES>) where
        LaneCount<INPUT_LANES>: SupportedLaneCount,
        LaneCount<OUTPUT_LANES>: SupportedLaneCount,

        ensures
            r@ == swizzle2_lanes(self@, first@, second@),
    {
        proof {
            use_type_invariant(self);
            lemma_lane_count::<INPUT_LANES>();
            lemma_lane_count::<OUTPUT_LANES>();
            first.lemma_len();
            second.lemma_len();
        }
        let a = first.to_array();
        let b = second.to_array();
        let mut out = [a[0]; OUTPUT_LANES];
        let mut i: usize = 0;
        while i < OUTPUT_LANES
            invariant
                i <= OUTPUT_LANES,
                valid_which_table(self.index@, INPUT_LANES as nat),
                forall|j: int| 0 <= j < i ==> out@[j] == self.index@[j].pick(a@, b@),
            decreases OUTPUT_LANES - i,
        {
            out[i] = match self.index[i] {
                Which::First(lane) => a[lane],
                Which::Second(lane) => b[lane],
            };
            i += 1;
        }
        let r = Simd::from_array(out);
        assert(r@ =~= swizzle2_lanes(self@, first@, second@));
        r
    }
}

/// The table of the reversal: output lane `i` is input lane `N - 1 - i`.
fn reverse_index<const N: usize>() -> (r: Swizzle<N, N>)
    ensures
        r@ == Seq::new(N as nat, |i: int| (N - 1 - i) as usize),
{
    let mut index = [0usize; N];
    let mut i: usize = 0;
    while i < N
        invariant
            i <= N,
            forall|j: int| 0 <= j < i ==> index@[j] == N - 1 - j,
            forall|j: int| i <= j < N ==> index@[j] == 0,
        decreases N - i,
    {
        index[i] = N - i - 1;
        i += 1;
    }
    let r = Swizzle { index };
    assert(r@ =~= Seq::new(N as nat, |i: int| (N - 1 - i) as usize));
    r
}

/// The table of a rotation: output lane `i` is input lane `(i + offset) % N`.
fn rotate_index<const N: usize>(offset: usize) -> (r: Swizzle<N, N>)
    requires
        0 < N <= 64,
        offset < N,
    ensures
        r@ == Seq::new(N as nat, |i: int| ((i + offset) % (N as int)) as usize),
{
    let mut index = [0usize; N];
    let mut i: usize = 0;
    while i < N
        invariant
            i <= N <= 64,
            offset < N,
            forall|j: int| 0 <= j < i ==> index@[j] == (j + offset) % (N as int),
            forall|j: int| i <= j < N ==> index@[j] == 0,
        decreases N - i,
    {
        index[i] = (i + offset) % N;
        i += 1;
    }
    proof {
        assert forall|j: int| 0 <= j < N implies #[trigger] index@[j] < N by {
            lemma_mod_bound(j + offset, N as int);
        }
    }
    let r = Swizzle { index };
    assert(r@ =~= Seq::new(N as nat, |i: int| ((i + offset) % (N as int)) as usize));
    r
}

/// The table of one half of an interleaving. Seen as lanes of the two inputs
/// put one after the other, output lane `k` of the whole interleaving is lane
/// `k / 2 + (k % 2) * N`; the low half holds the output lanes below `N`, the
/// high half those from `N` on.
fn interleave_index<const N: usize>(high: bool) -> (r: Swizzle2<N, N>)
    requires
        0 < N <= 64,
    ensures
        r@ == Seq::new(
            N as nat,
            |i: int|
                {
                    let k = if high {
                        i + N
                    } else {
                        i
                    };
                    if k % 2 == 0 {
                        Which::First((k / 2) as usize)
                    } else {
                        Which::Second((k / 2) as usize)
                    }
                },
        ),
{
    let mut index = [Which::First(0); N];
    let mut i: usize = 0;
    while i < N
        invariant
            i <= N,
            0 < N <= 64,
            forall|j: int|
                0 <= j < i ==> #[trigger] index@[j] == {
                    let k = if high {
                        j + N
                    } else {
                        j
                    };
                    if k % 2 == 0 {
                        Which::First((k / 2) as usize)
                    } else {
                        Which::Second((k / 2) as usize)
                    }
                },
            forall|j: int| i <= j < N ==> index@[j] == Which::First(0),
        decreases N - i,
    {
        let dst_index = if high {
            i + N
        } else {
            i
        };
        let parity = dst_index % 2;
        assert(parity * N == (if parity == 0 {
            0
        } else {
            N as int
        })) by (nonlinear_arith)
            requires
                parity == 0 || parity == 1,
        ;
        let src_index = dst_index / 2 + parity * N;
        index[i] = if src_index < N {
            Which::First(src_index)
        } else {
            Which::Second(src_index % N)
        };
        proof {
            let k = dst_index as int;
            if k % 2 == 1 {
                lemma_fundamental_div_mod_converse(src_index as int, N as int, 1, k / 2);
            }
        }
        i += 1;
    }
    let r = Swizzle2 { index };
    assert(r@ =~= Seq::new(
        N as nat,
        |i: int|
            {
                let k = if high {
                    i + N
                } else {
                    i
                };
                if k % 2 == 0 {
                    Which::First((k / 2) as usize)
                } else {
                    Which::Second((k / 2) as usize)
                }
            },
    ));
    r
}

/// The table of one half of a de-interleaving: the even half holds the lanes
/// at the even places of the two inputs put one after the other, the odd half
/// those at the odd places.
fn deinterleave_index<const N: usize>(odd: bool) -> (r: Swizzle2<N, N>)
    requires
        0 < N <= 64,
    ensures
        r@ == Seq::new(
            N as nat,
            |i: int|
                {
                    let k = if odd {
                        2 * i + 1
                    } else {
                        2 * i
                    };
                    if k < N {
                        Which::First(k as usize)
                    } else {
                        Which::Second((k - N) as usize)
                    }
                },
        ),
{
    let mut index = [Which::First(0); N];
    let mut i: usize = 0;
    while i < N
        invariant
            i <= N,
            0 < N <= 64,
            forall|j: int|
                0 <= j < i ==> #[trigger] index@[j] == {
                    let k = if odd {
                        2 * j + 1
                    } else {
                        2 * j
                    };
                    if k < N {
                        Which::First(k as usize)
                    } else {
                        Which::Second((k - N) as usize)
                    }
                },
            forall|j: int| i <= j < N ==> index@[j] == Which::First(0),
        decreases N - i,
    {
        let src_index = if odd {
            i * 2 + 1
        } else {
            i * 2
        };
        index[i] = if src_index < N {
            Which::First(src_index)
        } else {
            Which::Second(src_index % N)
        };
        proof {
            if src_index >= N {
                lemma_fundamental_div_mod_converse(src_index as int, N as int, 1, src_index - N);
            }
        }
        i += 1;
    }
    let r = Swizzle2 { index };
    assert(r@ =~= Seq::new(
        N as nat,
        |i: int|
            {
                let k = if odd {
                    2 * i + 1
                } else {
                    2 * i
                };
                if k < N {
                    Which::First(k as usize)
                } else {
                    Which::Second((k - N) as usize)
                }
            },
    ));
    r
}

impl<T: SimdElement, const N: usize> Simd<T, N> where LaneCount<N>: SupportedLaneCount {
    /// The vector with its lanes in the opposite order.
    pub fn reverse(self) -> (r: Self)
        ensures
            r@ == reverse_lanes(self@),
    {
        proof {
            self.lemma_len();
        }
        let r = reverse_index::<N>().swizzle(self);
        assert(r@ =~= reverse_lanes(self@));
        r
    }

    /// The vector with its lanes moved `OFFSET` places toward lane 0; the
    /// lanes that fall off come back in at the end.
    pub fn rotate_lanes_left<const OFFSET: usize>(self) -> (r: Self)
        ensures
            r@ == rotate_lanes_left(self@, OFFSET as nat),
    {
        proof {
            self.lemma_len();
            lemma_lane_count::<N>();
            lemma_mod_bound(OFFSET as int, N as int);
        }
        let offset = OFFSET % N;
        let r = rotate_index::<N>(offset).swizzle(self);
        proof {
            let n = N as int;
            let q = (OFFSET as int) / n;
            lemma_fundamental_div_mod(OFFSET as int, n);
            assert(n * q == q * n) by (nonlinear_arith);
            assert forall|i: int| 0 <= i < n implies #[trigger] r@[i] == rotate_lanes_left(
                self@,
                OFFSET as nat,
            )[i] by {
                lemma_mod_shift(i + offset, q, n);
                lemma_mod_bound(i + offset, n);
            }
            assert(r@ =~= rotate_lanes_left(self@, OFFSET as nat));
        }
        r
    }

    /// The vector with its lanes moved `OFFSET` places away from lane 0; the
    /// lanes that fall off come back in at the start.
    pub fn rotate_lanes_right<const OFFSET: usize>(self) -> (r: Self)
        ensures
            r@ == rotate_lanes_right(self@, OFFSET as nat),
    {
        proof {
            self.lemma_len();
            lemma_lane_count::<N>();
            lemma_mod_bound(OFFSET as int, N as int);
        }
        let back = OFFSET % N;
        let offset = if back == 0 {
            0
        } else {
            N - back
        };
        let r = rotate_index::<N>(offset).swizzle(self);
        proof {
            let n = N as int;
            let q = (OFFSET as int) / n;
            let c: int = if back == 0 {
                0
            } else {
                1
            };
            lemma_fundamental_div_mod(OFFSET as int, n);
            assert((q + c) * n == n * q + c * n) by (nonlinear_arith);
            assert forall|i: int| 0 <= i < n implies #[trigger] r@[i] == rotate_lanes_right(
                self@,
                OFFSET as nat,
            )[i] by {
                lemma_mod_shift(i - OFFSET, q + c, n);
                lemma_mod_bound(i + offset, n);
            }
            assert(r@ =~= rotate_lanes_right(self@, OFFSET as nat));
        }
        r
    }

    /// The lanes of `self` and `other` in turn, lane 0 of `self` first; the
    /// first half of the result in the first vector, the second half in the
    /// second.
    pub fn interleave(self, other: Self) -> (r: (Self, Self))
        ensures
            (r.0@, r.1@) == interleave_lanes(self@, other@),
    {
        proof {
            self.lemma_len();
            other.lemma_len();
            lemma_lane_count::<N>();
        }
        let low = interleave_index::<N>(false).swizzle2(self, other);
        let high = interleave_index::<N>(true).swizzle2(self, other);
        proof {
            assert(low@ =~= interleave_lanes(self@, other@).0);
            assert(high@ =~= interleave_lanes(self@, other@).1);
        }
        (low, high)
    }

    /// Of the lanes of `self` followed by those of `other`, the ones at the
    /// even places in the first vector and the ones at the odd places in the
    /// second. This undoes `interleave`.
    pub fn deinterleave(self, other: Self) -> (r: (Self, Self))
        ensures
            (r.0@, r.1@) == deinterleave_lanes(self@, other@),
    {
        proof {
            self.lemma_len();
            other.lemma_len();
            lemma_lane_count::<N>();
        }
        let even = deinterleave_index::<N>(false).swizzle2(self, other);
        let odd = deinterleave_index::<N>(true).swizzle2(self, other);
        proof {
            assert(even@ =~= deinterleave_lanes(self@, other@).0);
            assert(odd@ =~= deinterleave_lanes(self@, other@).1);
        }
        (even, odd)
    }
}

} // verus!
