//! The lane counts a vector may have.
//!
//! A lane count is carried in the type: `LaneCount<N>` stands for the number `N`,
//! and only the counts for which `SupportedLaneCount` is implemented can be the
//! width of a vector or a mask.
use vstd::prelude::*;
use crate::sealed::Sealed;

verus! {

/// The lane counts that vectors and masks come in: the powers of two up to 64.
pub open spec fn supported_lane_count(n: nat) -> bool {
    n == 1 || n == 2 || n == 4 || n == 8 || n == 16 || n == 32 || n == 64
}

/// A lane count, as a type.
pub struct LaneCount<const N: usize>;

/// The number that a lane-count type stands for.
pub trait Lanes {
    spec fn lanes() -> nat;
}

impl<const N: usize> Sealed for LaneCount<N> {

}

impl<const N: usize> Lanes for LaneCount<N> {
    open spec fn lanes() -> nat {
        N as nat
    }
}

/// Implemented for the lane counts that vectors and masks may have.
///
/// Every implementation has to prove that its count is one of the supported
/// ones, so the set cannot be widened without Verus noticing.
pub trait SupportedLaneCount: Lanes + Sealed {
    proof fn lemma_supported()
        ensures
            supported_lane_count(Self::lanes()),
    ;
}

impl SupportedLaneCount for LaneCount<1> {
    proof fn lemma_supported() {
    }
}

impl SupportedLaneCount for LaneCount<2> {
    proof fn lemma_supported() {
    }
}

impl SupportedLaneCount for LaneCount<4> {
    proof fn lemma_supported() {
    }
}

impl SupportedLaneCount for LaneCount<8> {
    proof fn lemma_supported() {
    }
}

impl SupportedLaneCount for LaneCount<16> {
    proof fn lemma_supported() {
    }
}

impl SupportedLaneCount for LaneCount<32> {
    proof fn lemma_supported() {
    }
}

impl SupportedLaneCount for LaneCount<64> {
    proof fn lemma_supported() {
    }
}

/// Whatever `N` a vector or mask type is written with, it is a supported count.
pub proof fn lemma_lane_count<const N: usize>() where LaneCount<N>: SupportedLaneCount
    ensures
        supported_lane_count(N as nat),
        1 <= N <= 64,
{
    <LaneCount<N> as SupportedLaneCount>::lemma_supported();
}

/// Whether `n` lanes make a vector: the run-time form of the bound on the types.
pub fn is_supported_lane_count(n: usize) -> (r: bool)
    ensures
        r == supported_lane_count(n as nat),
{
    n == 1 || n == 2 || n == 4 || n == 8 || n == 16 || n == 32 || n == 64
}

} // verus!
