use core_simd::simd::Which::{First, Second};
use core_simd::simd::{LaneCount, Simd, SimdError, SupportedLaneCount, Swizzle, Swizzle2, Which};

#[test]
fn swizzle() {
    let index = Swizzle::<4, 4>::new([2, 1, 3, 0]).unwrap();
    let vector = Simd::from_array([2, 4, 1, 9]);
    assert_eq!(index.swizzle(vector).to_array(), [1, 4, 9, 2]);
    assert_eq!(index.index(), [2, 1, 3, 0]);
}

#[test]
fn swizzle_changes_the_number_of_lanes() {
    let v = Simd::<u32, 4>::from_array([10, 11, 12, 13]);
    let same = Swizzle::<4, 4>::new([3, 0, 1, 2]).unwrap();
    assert_eq!(same.swizzle(v).to_array(), [13, 10, 11, 12]);
    let fewer = Swizzle::<4, 2>::new([3, 1]).unwrap();
    assert_eq!(fewer.swizzle(v).to_array(), [13, 11]);
    let more = Swizzle::<4, 8>::new([0, 0, 1, 1, 2, 2, 3, 3]).unwrap();
    assert_eq!(more.swizzle(v).to_array(), [10, 10, 11, 11, 12, 12, 13, 13]);
    let splat = Swizzle::<1, 4>::new([0; 4]).unwrap();
    assert_eq!(splat.swizzle(Simd::<i8, 1>::from_array([-3])).to_array(), [-3; 4]);
}

#[test]
fn swizzle_of_two_vectors() {
    let a = Simd::<u32, 4>::from_array([0, 1, 2, 3]);
    let b = Simd::<u32, 4>::from_array([4, 5, 6, 7]);
    let same = Swizzle2::<4, 4>::new([First(0), First(1), Second(2), Second(3)]).unwrap();
    assert_eq!(same.swizzle2(a, b).to_array(), [0, 1, 6, 7]);
    let fewer = Swizzle2::<4, 2>::new([First(0), Second(0)]).unwrap();
    assert_eq!(fewer.swizzle2(a, b).to_array(), [0, 4]);
    assert_eq!(fewer.index(), [First(0), Second(0)]);
}

#[test]
fn a_table_that_names_a_missing_lane_is_refused() {
    assert_eq!(Swizzle::<4, 4>::new([0, 1, 2, 4]).err(), Some(SimdError::SourceLaneOutOfRange));
    assert_eq!(Swizzle::<4, 2>::new([usize::MAX, 0]).err(), Some(SimdError::SourceLaneOutOfRange));
    assert_eq!(Swizzle::<1, 1>::new([1]).err(), Some(SimdError::SourceLaneOutOfRange));
    assert!(Swizzle::<4, 4>::new([3, 3, 3, 3]).is_ok());
    assert_eq!(
        Swizzle2::<4, 2>::new([Which::First(0), Which::Second(4)]).err(),
        Some(SimdError::SourceLaneOutOfRange)
    );
    assert_eq!(
        Swizzle2::<4, 2>::new([Which::First(4), Which::Second(0)]).err(),
        Some(SimdError::SourceLaneOutOfRange)
    );
    assert!(Swizzle2::<4, 2>::new([Which::First(3), Which::Second(3)]).is_ok());
}

#[test]
fn reverse() {
    let a = Simd::from_array([1, 2, 3, 4]);
    assert_eq!(a.reverse().to_array(), [4, 3, 2, 1]);
    assert_eq!(a.reverse().reverse().to_array(), [1, 2, 3, 4]);
    assert_eq!(Simd::from_array([7u8]).reverse().to_array(), [7]);
}

#[test]
fn rotate() {
    let a = Simd::from_array([1, 2, 3, 4]);
    assert_eq!(a.rotate_lanes_left::<0>().to_array(), [1, 2, 3, 4]);
    assert_eq!(a.rotate_lanes_left::<1>().to_array(), [2, 3, 4, 1]);
    assert_eq!(a.rotate_lanes_left::<2>().to_array(), [3, 4, 1, 2]);
    assert_eq!(a.rotate_lanes_left::<3>().to_array(), [4, 1, 2, 3]);
    assert_eq!(a.rotate_lanes_left::<4>().to_array(), [1, 2, 3, 4]);
    assert_eq!(a.rotate_lanes_left::<5>().to_array(), [2, 3, 4, 1]);
    assert_eq!(a.rotate_lanes_right::<0>().to_array(), [1, 2, 3, 4]);
    assert_eq!(a.rotate_lanes_right::<1>().to_array(), [4, 1, 2, 3]);
    assert_eq!(a.rotate_lanes_right::<2>().to_array(), [3, 4, 1, 2]);
    assert_eq!(a.rotate_lanes_right::<3>().to_array(), [2, 3, 4, 1]);
    assert_eq!(a.rotate_lanes_right::<4>().to_array(), [1, 2, 3, 4]);
    assert_eq!(a.rotate_lanes_right::<5>().to_array(), [4, 1, 2, 3]);
}

#[test]
fn rotate_takes_the_offset_modulo_the_lane_count() {
    let a = Simd::<u16, 8>::from_array([0, 1, 2, 3, 4, 5, 6, 7]);
    assert_eq!(a.rotate_lanes_left::<803>().to_array(), [3, 4, 5, 6, 7, 0, 1, 2]);
    assert_eq!(a.rotate_lanes_right::<803>().to_array(), [5, 6, 7, 0, 1, 2, 3, 4]);
    assert_eq!(
        a.rotate_lanes_left::<3>().rotate_lanes_right::<3>().to_array(),
        [0, 1, 2, 3, 4, 5, 6, 7]
    );
    let one = Simd::<u16, 1>::from_array([9]);
    assert_eq!(one.rotate_lanes_left::<7>().to_array(), [9]);
    assert_eq!(one.rotate_lanes_right::<7>().to_array(), [9]);
}

#[test]
fn interleave() {
    let a = Simd::from_array([0, 1, 2, 3, 4, 5, 6, 7]);
    let b = Simd::from_array([8, 9, 10, 11, 12, 13, 14, 15]);
    let (lo, hi) = a.interleave(b);
    assert_eq!(lo.to_array(), [0, 8, 1, 9, 2, 10, 3, 11]);
    assert_eq!(hi.to_array(), [4, 12, 5, 13, 6, 14, 7, 15]);
    let (even, odd) = lo.deinterleave(hi);
    assert_eq!(even, a);
    assert_eq!(odd, b);
}

#[test]
fn interleave_of_four_lanes() {
    let a = Simd::from_array([0, 1, 2, 3]);
    let b = Simd::from_array([4, 5, 6, 7]);
    let (x, y) = a.interleave(b);
    assert_eq!(x.to_array(), [0, 4, 1, 5]);
    assert_eq!(y.to_array(), [2, 6, 3, 7]);
}

#[test]
fn deinterleave() {
    let a = Simd::from_array([0, 4, 1, 5]);
    let b = Simd::from_array([2, 6, 3, 7]);
    let (x, y) = a.deinterleave(b);
    assert_eq!(x.to_array(), [0, 1, 2, 3]);
    assert_eq!(y.to_array(), [4, 5, 6, 7]);
}

fn check<const N: usize>()
where
    LaneCount<N>: SupportedLaneCount,
{
    let mut a = [0u32; N];
    let mut b = [0u32; N];
    for i in 0..N {
        a[i] = i as u32;
        b[i] = 1000 + i as u32;
    }
    let (va, vb) = (Simd::from_array(a), Simd::from_array(b));
    let (lo, hi) = va.interleave(vb);
    let (even, odd) = lo.deinterleave(hi);
    assert_eq!((even.to_array(), odd.to_array()), (a, b));
    let (even, odd) = va.deinterleave(vb);
    let (lo, hi) = even.interleave(odd);
    assert_eq!((lo.to_array(), hi.to_array()), (a, b));
}

#[test]
fn interleave_and_deinterleave_undo_each_other_at_every_width() {
    check::<1>();
    check::<2>();
    check::<4>();
    check::<8>();
    check::<16>();
    check::<32>();
    check::<64>();
}

#[test]
fn interleave_of_one_lane() {
    let (x, y) = Simd::from_array([1i8]).interleave(Simd::from_array([2i8]));
    assert_eq!((x.to_array(), y.to_array()), ([1], [2]));
    let (x, y) = Simd::from_array([1i8]).deinterleave(Simd::from_array([2i8]));
    assert_eq!((x.to_array(), y.to_array()), ([1], [2]));
}
