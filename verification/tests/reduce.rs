use core_simd::simd::Simd;

const A: [i32; 8] = [0, 1, -1, i32::MAX, i32::MIN, 123_456_789, -987_654_321, 42];
const U: [u8; 16] = [0, 1, 255, 128, 127, 200, 99, 16, 3, 5, 7, 11, 13, 17, 19, 23];

#[test]
fn reduce_sum_is_the_wrapping_sum() {
    assert_eq!(Simd::from_array(A).reduce_sum(), A.iter().copied().fold(0, i32::wrapping_add));
    assert_eq!(Simd::from_array(U).reduce_sum(), U.iter().copied().fold(0, u8::wrapping_add));
    assert_eq!(Simd::from_array([200u8, 100, 3, 4]).reduce_sum(), 51);
    assert_eq!(Simd::from_array([i32::MAX, 1]).reduce_sum(), i32::MIN);
    assert_eq!(Simd::from_array([1u32, 2, 3, 4]).reduce_sum(), 10);
    assert_eq!(Simd::from_array([-5i64]).reduce_sum(), -5);
}

#[test]
fn reduce_product_is_the_wrapping_product() {
    assert_eq!(
        Simd::from_array(A).reduce_product(),
        A.iter().copied().fold(1, i32::wrapping_mul)
    );
    assert_eq!(Simd::from_array(U).reduce_product(), U.iter().copied().fold(1, u8::wrapping_mul));
    assert_eq!(Simd::from_array([3i32, 4]).reduce_product(), 12);
    assert_eq!(Simd::from_array([16u8, 16, 3, 1]).reduce_product(), 0);
    assert_eq!(Simd::from_array([100i8, 3]).reduce_product(), 44);
    assert_eq!(Simd::from_array([-1i16, -1, -1, 7]).reduce_product(), -7);
}

#[test]
fn reduce_sum_does_not_depend_on_the_grouping() {
    let v = Simd::from_array(A);
    let lanes = v.to_array();
    let low = Simd::<i32, 4>::from_slice(&lanes[..4]).unwrap().reduce_sum();
    let high = Simd::<i32, 4>::from_slice(&lanes[4..]).unwrap().reduce_sum();
    assert_eq!(low.wrapping_add(high), v.reduce_sum());
    assert_eq!(v.reverse().reduce_sum(), v.reduce_sum());
    let low = Simd::<i32, 4>::from_slice(&lanes[..4]).unwrap().reduce_product();
    let high = Simd::<i32, 4>::from_slice(&lanes[4..]).unwrap().reduce_product();
    assert_eq!(low.wrapping_mul(high), v.reduce_product());
}

#[test]
fn reduce_max_and_min_are_the_greatest_and_the_least_lane() {
    assert_eq!(Simd::from_array(A).reduce_max(), i32::MAX);
    assert_eq!(Simd::from_array(A).reduce_min(), i32::MIN);
    assert_eq!(Simd::from_array(U).reduce_max(), 255);
    assert_eq!(Simd::from_array(U).reduce_min(), 0);
    assert_eq!(Simd::from_array([200u8, 100, 3, 4]).reduce_max(), 200);
    assert_eq!(Simd::from_array([200u8, 100, 3, 4]).reduce_min(), 3);
    assert_eq!(Simd::from_array([-3i64, -7]).reduce_max(), -3);
    assert_eq!(Simd::from_array([-3i64, -7]).reduce_min(), -7);
    assert_eq!(Simd::from_array([5usize]).reduce_max(), 5);
}

#[test]
fn reduce_and_or_xor_fold_the_bits() {
    let v = Simd::from_array(A);
    assert_eq!(v.reduce_and(), A.iter().copied().fold(-1, |x, y| x & y));
    assert_eq!(v.reduce_or(), A.iter().copied().fold(0, |x, y| x | y));
    assert_eq!(v.reduce_xor(), A.iter().copied().fold(0, |x, y| x ^ y));
    let u = Simd::from_array(U);
    assert_eq!(u.reduce_and(), U.iter().copied().fold(0xff, |x, y| x & y));
    assert_eq!(u.reduce_or(), U.iter().copied().fold(0, |x, y| x | y));
    assert_eq!(u.reduce_xor(), U.iter().copied().fold(0, |x, y| x ^ y));
    let w = Simd::from_array([0b1100u16, 0b1010]);
    assert_eq!(w.reduce_and(), 0b1000);
    assert_eq!(w.reduce_or(), 0b1110);
    assert_eq!(w.reduce_xor(), 0b0110);
}
