use core_simd::simd::{Simd, SimdError};

const A: [i32; 8] = [0, 1, -1, i32::MAX, i32::MIN, 123_456_789, -987_654_321, 42];
const B: [i32; 8] = [0, i32::MAX, i32::MIN, 1, -1, 1_000_000_007, 77, -42];
const UA: [u8; 8] = [0, 1, 255, 128, 127, 200, 99, 16];
const UB: [u8; 8] = [0, 255, 255, 128, 129, 100, 3, 7];

fn zip_i32(f: fn(i32, i32) -> i32) -> [i32; 8] {
    let mut out = [0; 8];
    for i in 0..8 {
        out[i] = f(A[i], B[i]);
    }
    out
}

fn zip_u8(f: fn(u8, u8) -> u8) -> [u8; 8] {
    let mut out = [0; 8];
    for i in 0..8 {
        out[i] = f(UA[i], UB[i]);
    }
    out
}

#[test]
fn add_is_wrapping_add_of_the_lanes() {
    let sum = Simd::from_array(A) + Simd::from_array(B);
    assert_eq!(sum, Simd::from_array(zip_i32(i32::wrapping_add)));
    let sum = Simd::from_array(UA) + Simd::from_array(UB);
    assert_eq!(sum, Simd::from_array(zip_u8(u8::wrapping_add)));
}

#[test]
fn add_wraps_at_the_ends_of_the_range() {
    let x = Simd::from_array([i32::MIN, 0, 1, i32::MAX]);
    let max = Simd::splat(i32::MAX);
    assert_eq!(x + max, Simd::from_array([-1, i32::MAX, i32::MIN, -2]));
    let u = Simd::from_array([250u8, 5, 6, 255]);
    assert_eq!(u + Simd::splat(6), Simd::from_array([0, 11, 12, 5]));
}

#[test]
fn sub_is_wrapping_sub_of_the_lanes() {
    let difference = Simd::from_array(A) - Simd::from_array(B);
    assert_eq!(difference, Simd::from_array(zip_i32(i32::wrapping_sub)));
    let difference = Simd::from_array(UA) - Simd::from_array(UB);
    assert_eq!(difference, Simd::from_array(zip_u8(u8::wrapping_sub)));
    let x = Simd::from_array([i32::MIN, -2, -1, i32::MAX]);
    assert_eq!(x - Simd::splat(i32::MAX), Simd::from_array([1, i32::MAX, i32::MIN, 0]));
}

#[test]
fn mul_is_wrapping_mul_of_the_lanes() {
    let product = Simd::from_array(A) * Simd::from_array(B);
    assert_eq!(product, Simd::from_array(zip_i32(i32::wrapping_mul)));
    let product = Simd::from_array(UA) * Simd::from_array(UB);
    assert_eq!(product, Simd::from_array(zip_u8(u8::wrapping_mul)));
    let big = Simd::from_array([u64::MAX, 1 << 63, 3, 0]);
    assert_eq!(big * Simd::splat(3), Simd::from_array([u64::MAX - 2, 1 << 63, 9, 0]));
}

#[test]
fn div_rounds_toward_zero() {
    let a = Simd::from_array([7i32, -7, 7, -7]);
    let b = Simd::from_array([2i32, 2, -2, -2]);
    assert_eq!(a / b, Simd::from_array([3, -3, -3, 3]));
    assert_eq!(a % b, Simd::from_array([1, -1, 1, -1]));
    let u = Simd::from_array([200u8, 7, 0, 255]);
    let d = Simd::from_array([7u8, 200, 5, 16]);
    assert_eq!(u / d, Simd::from_array([28, 0, 0, 15]));
    assert_eq!(u % d, Simd::from_array([4, 7, 0, 15]));
}

#[test]
fn div_is_wrapping_div_of_the_lanes() {
    let a = Simd::from_array(A);
    let b = Simd::from_array([3, i32::MAX, i32::MIN, 1, -1, 1_000_000_007, 77, -42]);
    let mut quotient = [0; 8];
    let mut remainder = [0; 8];
    for i in 0..8 {
        quotient[i] = A[i].wrapping_div(b.to_array()[i]);
        remainder[i] = A[i].wrapping_rem(b.to_array()[i]);
    }
    assert_eq!(a / b, Simd::from_array(quotient));
    assert_eq!(a % b, Simd::from_array(remainder));
}

#[test]
fn div_min_may_overflow() {
    let a = Simd::<i32, 4>::splat(i32::MIN);
    let b = Simd::<i32, 4>::splat(-1);
    assert_eq!(a / b, a);
    let a = Simd::<i8, 16>::splat(i8::MIN);
    let b = Simd::<i8, 16>::splat(-1);
    assert_eq!(a / b, a);
    let a = Simd::<i64, 2>::splat(i64::MIN);
    let b = Simd::<i64, 2>::splat(-1);
    assert_eq!(a / b, a);
    let a = Simd::<isize, 2>::splat(isize::MIN);
    let b = Simd::<isize, 2>::splat(-1);
    assert_eq!(a / b, a);
}

#[test]
fn rem_min_may_overflow() {
    let a = Simd::<i32, 4>::splat(i32::MIN);
    let b = Simd::<i32, 4>::splat(-1);
    assert_eq!(a % b, Simd::<i32, 4>::splat(0));
    let a = Simd::<i16, 8>::splat(i16::MIN);
    let b = Simd::<i16, 8>::splat(-1);
    assert_eq!(a % b, Simd::<i16, 8>::splat(0));
}

#[test]
fn div_neg_one_no_panic() {
    let a = Simd::<i32, 4>::splat(42);
    let b = Simd::<i32, 4>::splat(-1);
    assert_eq!(a / b, Simd::splat(-42));
}

#[test]
fn rem_neg_one_no_panic() {
    let a = Simd::<i32, 4>::splat(42);
    let b = Simd::<i32, 4>::splat(-1);
    assert_eq!(a % b, Simd::splat(0));
}

#[test]
fn checked_div_reports_a_zero_lane() {
    let a = Simd::<i32, 4>::splat(42);
    let zeros = Simd::<i32, 4>::splat(0);
    assert_eq!(a.checked_div(zeros).err(), Some(SimdError::DivisionByZero));
    let mut one_zero = Simd::<i32, 4>::splat(21);
    one_zero.as_mut_array()[0] = 0;
    assert_eq!(a.checked_div(one_zero).err(), Some(SimdError::DivisionByZero));
    assert_eq!(a.checked_rem(zeros).err(), Some(SimdError::DivisionByZero));
    assert_eq!(a.checked_rem(one_zero).err(), Some(SimdError::DivisionByZero));
    let u = Simd::<u16, 2>::splat(42);
    assert_eq!(u.checked_rem(Simd::splat(0)).err(), Some(SimdError::DivisionByZero));
}

#[test]
fn checked_div_divides_where_no_lane_is_zero() {
    let a = Simd::<i32, 4>::from_array([42, -42, i32::MIN, 7]);
    let b = Simd::<i32, 4>::from_array([5, 5, -1, -7]);
    assert_eq!(a.checked_div(b), Ok(Simd::from_array([8, -8, i32::MIN, -1])));
    assert_eq!(a.checked_rem(b), Ok(Simd::from_array([2, -2, 0, 0])));
    assert!(b.has_no_zero_lane());
    assert!(!Simd::<i32, 4>::from_array([1, 2, 0, 4]).has_no_zero_lane());
}

#[test]
fn bit_operators_work_on_the_bits_of_each_lane() {
    let a = Simd::from_array(A);
    let b = Simd::from_array(B);
    assert_eq!(a & b, Simd::from_array(zip_i32(|x, y| x & y)));
    assert_eq!(a | b, Simd::from_array(zip_i32(|x, y| x | y)));
    assert_eq!(a ^ b, Simd::from_array(zip_i32(|x, y| x ^ y)));
    let ua = Simd::from_array(UA);
    let ub = Simd::from_array(UB);
    assert_eq!(ua & ub, Simd::from_array(zip_u8(|x, y| x & y)));
    assert_eq!(ua | ub, Simd::from_array(zip_u8(|x, y| x | y)));
    assert_eq!(ua ^ ub, Simd::from_array(zip_u8(|x, y| x ^ y)));
}

#[test]
fn not_flips_every_bit() {
    let mut expected = [0; 8];
    for i in 0..8 {
        expected[i] = !A[i];
    }
    assert_eq!(!Simd::from_array(A), Simd::from_array(expected));
    assert_eq!(!Simd::from_array([0u8, 255, 0x0f, 1]), Simd::from_array([255, 0, 0xf0, 254]));
}

#[test]
fn neg_negates_and_keeps_the_least_value() {
    let v = Simd::from_array([0i32, 1, -1, i32::MIN]);
    assert_eq!(-v, Simd::from_array([0, -1, 1, i32::MIN]));
    let v = Simd::from_array([i8::MAX, i8::MIN]);
    assert_eq!(-v, Simd::from_array([-i8::MAX, i8::MIN]));
}

#[test]
fn shifts_move_each_lane_by_its_own_amount() {
    let v = Simd::from_array([1i32, -1, i32::MIN, 0x1234_5678]);
    let by = Simd::from_array([0i32, 1, 31, 4]);
    assert_eq!(v << by, Simd::from_array([1, -2, 0, 0x2345_6780]));
    assert_eq!(v >> by, Simd::from_array([1, -1, -1, 0x0123_4567]));
    let u = Simd::from_array([1u8, 255, 0x80, 0x0f]);
    let by = Simd::from_array([7u8, 1, 7, 4]);
    assert_eq!(u << by, Simd::from_array([0x80, 254, 0, 0xf0]));
    assert_eq!(u >> by, Simd::from_array([0, 127, 1, 0]));
}

#[test]
fn checked_shifts_report_an_amount_out_of_range() {
    let v = Simd::from_array([1i32, 2, 3, 4]);
    assert_eq!(v.checked_shl(Simd::splat(32)).err(), Some(SimdError::ShiftOutOfRange));
    assert_eq!(v.checked_shr(Simd::splat(-1)).err(), Some(SimdError::ShiftOutOfRange));
    assert_eq!(v.checked_shl(Simd::from_array([0, 31, 1, 33])).err(), Some(SimdError::ShiftOutOfRange));
    assert_eq!(v.checked_shl(Simd::from_array([0, 31, 1, 2])), Ok(Simd::from_array([1, 0, 6, 16])));
    assert_eq!(v.checked_shr(Simd::from_array([0, 1, 1, 2])), Ok(Simd::from_array([1, 1, 1, 1])));
    let u = Simd::from_array([0x80u8, 1]);
    assert_eq!(u.checked_shr(Simd::splat(7)), Ok(Simd::from_array([1, 0])));
    assert_eq!(u.checked_shr(Simd::splat(8)).err(), Some(SimdError::ShiftOutOfRange));
    assert!(Simd::from_array([0u8, 7]).has_shift_amounts());
    assert!(!Simd::from_array([0u8, 8]).has_shift_amounts());
}
