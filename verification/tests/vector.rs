use core_simd::simd::{Simd, SimdError};

#[test]
fn from_array_to_array_gives_the_array_back() {
    let a = [1i32, -2, 3, i32::MAX];
    assert_eq!(Simd::<i32, 4>::from_array(a).to_array(), a);
    let b = [7u8];
    assert_eq!(Simd::<u8, 1>::from_array(b).to_array(), b);
    let mut c = [0u64; 64];
    for (i, lane) in c.iter_mut().enumerate() {
        *lane = (i as u64).wrapping_mul(0x9e37_79b9_7f4a_7c15);
    }
    assert_eq!(Simd::<u64, 64>::from_array(c).to_array(), c);
}

#[test]
fn lanes_is_the_lane_count() {
    assert_eq!(Simd::<u32, 4>::splat(0).lanes(), 4);
    assert_eq!(Simd::<i8, 64>::splat(0).lanes(), 64);
}

#[test]
fn splat_fills_every_lane() {
    let v = Simd::<u32, 4>::splat(8);
    assert_eq!(v.as_array(), &[8, 8, 8, 8]);
}

#[test]
fn as_array_shows_the_lanes() {
    let v = Simd::<u64, 4>::from_array([0, 1, 2, 3]);
    assert_eq!(v.as_array(), &[0, 1, 2, 3]);
}

#[test]
fn as_mut_array_writes_through() {
    let mut v = Simd::<i16, 4>::from_array([0, 1, 2, 3]);
    v.as_mut_array()[2] = -7;
    assert_eq!(v.to_array(), [0, 1, -7, 3]);
}

#[test]
fn from_slice_takes_the_first_lanes() {
    let source = vec![1u32, 2, 3, 4, 5, 6];
    let v = Simd::<u32, 4>::from_slice(&source).unwrap();
    assert_eq!(v.as_array(), &[1, 2, 3, 4]);
    let exact = Simd::<u32, 4>::from_slice(&source[..4]).unwrap();
    assert_eq!(exact.to_array(), [1, 2, 3, 4]);
}

#[test]
fn from_slice_refuses_a_short_slice() {
    let source = vec![1u32, 2, 3];
    assert_eq!(Simd::<u32, 4>::from_slice(&source).err(), Some(SimdError::SliceTooShort));
    assert_eq!(Simd::<u32, 4>::from_slice(&[]).err(), Some(SimdError::SliceTooShort));
}

#[test]
fn copy_to_slice_writes_the_first_lanes_only() {
    let mut target = vec![9i32; 6];
    let v = Simd::<i32, 4>::from_array([1, 2, 3, 4]);
    assert_eq!(v.copy_to_slice(&mut target), Ok(()));
    assert_eq!(target, vec![1, 2, 3, 4, 9, 9]);
}

#[test]
fn copy_to_slice_leaves_a_short_slice_alone() {
    let mut target = vec![9i32; 3];
    let v = Simd::<i32, 4>::from_array([1, 2, 3, 4]);
    assert_eq!(v.copy_to_slice(&mut target), Err(SimdError::SliceTooShort));
    assert_eq!(target, vec![9, 9, 9]);
}

#[test]
fn vectors_are_equal_when_their_lanes_are() {
    let a = Simd::<i32, 4>::from_array([1, 2, 3, 4]);
    let b = Simd::<i32, 4>::from_array([1, 2, 3, 4]);
    let c = Simd::<i32, 4>::from_array([1, 2, 3, 5]);
    assert!(a == b);
    assert!(a != c);
}

#[test]
fn a_vector_comes_from_an_array_and_is_zero_by_default() {
    let a0: [i32; 4] = [-2, 0, 2, 4];
    let a1 = [10, 9, 8, 7];
    let (v0, v1) = (Simd::from(a0), Simd::from(a1));
    assert_eq!(v0 + v1, [8, 9, 10, 11].into());
    assert_eq!(v0 * v1, [-20, 0, 16, 28].into());
    assert_eq!(Simd::<u16, 8>::default().to_array(), [0; 8]);
    assert_eq!(Simd::<isize, 2>::default(), Simd::splat(0));
}

#[test]
fn the_supported_lane_counts_are_the_powers_of_two_up_to_64() {
    let supported: Vec<usize> =
        (0..=130).filter(|n| core_simd::lane_count::is_supported_lane_count(*n)).collect();
    assert_eq!(supported, vec![1, 2, 4, 8, 16, 32, 64]);
    assert!(!core_simd::lane_count::is_supported_lane_count(usize::MAX));
}

#[test]
fn equal_vectors_hash_alike() {
    let mut set = std::collections::HashSet::new();
    set.insert(Simd::<i32, 4>::from_array([1, 2, 3, 4]));
    set.insert(Simd::<i32, 4>::from_array([1, 2, 3, 4]));
    set.insert(Simd::<i32, 4>::from_array([1, 2, 3, 5]));
    assert_eq!(set.len(), 2);
}
