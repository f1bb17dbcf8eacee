use core_simd::simd::{Binary32, Binary64, Simd, SimdError};

fn b32(x: f32) -> Binary32 {
    Binary32::from_bits(x.to_bits())
}

fn f32_of(x: Binary32) -> f32 {
    f32::from_bits(x.to_bits())
}

fn b64(x: f64) -> Binary64 {
    Binary64::from_bits(x.to_bits())
}

fn f64_of(x: Binary64) -> f64 {
    f64::from_bits(x.to_bits())
}

fn v32<const N: usize>(x: [f32; N]) -> [Binary32; N] {
    x.map(b32)
}

fn v64<const N: usize>(x: [f64; N]) -> [Binary64; N] {
    x.map(b64)
}

const SINGLES: [f32; 40] = [
    0.0,
    -0.0,
    1.0,
    -1.0,
    0.5,
    -0.5,
    0.999,
    -0.999,
    1.9,
    -4.5,
    127.5,
    -128.9,
    255.0,
    255.9,
    256.0,
    32767.9,
    -32768.9,
    65535.5,
    8388608.0,
    16777215.0,
    16777216.0,
    2147483520.0,
    2147483648.0,
    -2147483648.0,
    -2147483904.0,
    4294967040.0,
    4294967296.0,
    9.223372e18,
    -9.223372e18,
    1.8446743e19,
    1.8446744e19,
    1e38,
    f32::MAX,
    f32::MIN,
    f32::INFINITY,
    f32::NEG_INFINITY,
    f32::NAN,
    f32::MIN_POSITIVE,
    1e-45,
    -1e-40,
];

const DOUBLES: [f64; 36] = [
    0.0,
    -0.0,
    1.0,
    -1.0,
    0.5,
    -0.999999,
    1.9,
    -4.5,
    255.9,
    256.0,
    -128.9,
    65535.99,
    2147483647.5,
    2147483648.0,
    -2147483648.9,
    -2147483649.0,
    4294967295.9,
    4294967296.0,
    4503599627370496.0,
    9007199254740991.0,
    9007199254740992.0,
    9223372036854774784.0,
    9223372036854775808.0,
    -9223372036854775808.0,
    -9223372036854777856.0,
    18446744073709549568.0,
    18446744073709551616.0,
    1e300,
    f64::MAX,
    f64::MIN,
    f64::INFINITY,
    f64::NEG_INFINITY,
    f64::NAN,
    f64::MIN_POSITIVE,
    5e-324,
    -1e-310,
];

#[test]
fn reduce_max_passes_over_what_is_not_a_number() {
    let v = Simd::from_array(v32([1.0, f32::NAN]));
    assert_eq!(f32_of(v.reduce_max()), 1.0);
    let v = Simd::from_array(v32([f32::NAN, 1.0]));
    assert_eq!(f32_of(v.reduce_max()), 1.0);
    let v = Simd::from_array(v32([f32::NAN, f32::NAN]));
    assert!(f32_of(v.reduce_max()).is_nan());
    let v = Simd::from_array(v32([1.0, 2.0]));
    assert_eq!(f32_of(v.reduce_max()), 2.0);
    let v = Simd::from_array(v64([f64::NAN, -3.0, f64::NAN, -7.5]));
    assert_eq!(f64_of(v.reduce_max()), -3.0);
    let v = Simd::from_array(v64([f64::NAN, f64::NAN]));
    assert!(f64_of(v.reduce_max()).is_nan());
}

#[test]
fn reduce_min_passes_over_what_is_not_a_number() {
    let v = Simd::from_array(v32([3.0, 7.0]));
    assert_eq!(f32_of(v.reduce_min()), 3.0);
    let v = Simd::from_array(v32([1.0, f32::NAN]));
    assert_eq!(f32_of(v.reduce_min()), 1.0);
    let v = Simd::from_array(v32([f32::NAN, f32::NAN]));
    assert!(f32_of(v.reduce_min()).is_nan());
    let v = Simd::from_array(v64([f64::NAN, -3.0, f64::INFINITY, -7.5]));
    assert_eq!(f64_of(v.reduce_min()), -7.5);
}

#[test]
fn reduce_max_and_min_of_the_two_zeros_give_a_zero() {
    let v = Simd::from_array(v32([0.0, -0.0]));
    assert_eq!(f32_of(v.reduce_max()), 0.0);
    assert_eq!(f32_of(v.reduce_min()), 0.0);
    let v = Simd::from_array(v32([-0.0, 0.0]));
    assert_eq!(f32_of(v.reduce_max()), 0.0);
    assert_eq!(f32_of(v.reduce_min()), 0.0);
}

#[test]
fn reduce_max_and_min_agree_with_the_scalar_fold() {
    for window in SINGLES.windows(4) {
        let lanes = [window[0], window[1], window[2], window[3]];
        let v = Simd::from_array(v32(lanes));
        let max = lanes.iter().copied().fold(f32::NAN, f32::max);
        let min = lanes.iter().copied().fold(f32::NAN, f32::min);
        let (got_max, got_min) = (f32_of(v.reduce_max()), f32_of(v.reduce_min()));
        assert!(got_max == max || (got_max.is_nan() && max.is_nan()), "{:?}", lanes);
        assert!(got_min == min || (got_min.is_nan() && min.is_nan()), "{:?}", lanes);
    }
}

#[test]
fn cast_cuts_off_the_fraction_and_saturates() {
    let floats = Simd::from_array(v32([1.9, -4.5, f32::INFINITY, f32::NAN]));
    let ints = floats.cast::<i32>();
    assert_eq!(ints, Simd::from_array([1, -4, i32::MAX, 0]));
    let floats = Simd::from_array(v32([-1.9, 300.7, f32::NEG_INFINITY, -0.0]));
    assert_eq!(floats.cast::<u8>(), Simd::from_array([0, 255, 0, 0]));
    assert_eq!(floats.cast::<i8>(), Simd::from_array([-1, 127, -128, 0]));
    let doubles = Simd::from_array(v64([1e300, -1e300]));
    assert_eq!(doubles.cast::<i64>(), Simd::from_array([i64::MAX, i64::MIN]));
    assert_eq!(doubles.cast::<u64>(), Simd::from_array([u64::MAX, 0]));
}

#[test]
fn cast_of_singles_agrees_with_the_scalar_conversion() {
    for x in SINGLES {
        let v = Simd::<Binary32, 1>::splat(b32(x));
        assert_eq!(v.cast::<i8>().to_array(), [x as i8], "{:?}", x);
        assert_eq!(v.cast::<u8>().to_array(), [x as u8], "{:?}", x);
        assert_eq!(v.cast::<i16>().to_array(), [x as i16], "{:?}", x);
        assert_eq!(v.cast::<u16>().to_array(), [x as u16], "{:?}", x);
        assert_eq!(v.cast::<i32>().to_array(), [x as i32], "{:?}", x);
        assert_eq!(v.cast::<u32>().to_array(), [x as u32], "{:?}", x);
        assert_eq!(v.cast::<i64>().to_array(), [x as i64], "{:?}", x);
        assert_eq!(v.cast::<u64>().to_array(), [x as u64], "{:?}", x);
        assert_eq!(v.cast::<isize>().to_array(), [x as isize], "{:?}", x);
        assert_eq!(v.cast::<usize>().to_array(), [x as usize], "{:?}", x);
    }
}

#[test]
fn cast_of_doubles_agrees_with_the_scalar_conversion() {
    for x in DOUBLES {
        let v = Simd::<Binary64, 1>::splat(b64(x));
        assert_eq!(v.cast::<i8>().to_array(), [x as i8], "{:?}", x);
        assert_eq!(v.cast::<u8>().to_array(), [x as u8], "{:?}", x);
        assert_eq!(v.cast::<i16>().to_array(), [x as i16], "{:?}", x);
        assert_eq!(v.cast::<u16>().to_array(), [x as u16], "{:?}", x);
        assert_eq!(v.cast::<i32>().to_array(), [x as i32], "{:?}", x);
        assert_eq!(v.cast::<u32>().to_array(), [x as u32], "{:?}", x);
        assert_eq!(v.cast::<i64>().to_array(), [x as i64], "{:?}", x);
        assert_eq!(v.cast::<u64>().to_array(), [x as u64], "{:?}", x);
        assert_eq!(v.cast::<isize>().to_array(), [x as isize], "{:?}", x);
        assert_eq!(v.cast::<usize>().to_array(), [x as usize], "{:?}", x);
    }
}

#[test]
fn classes_of_singles_agree_with_the_scalar_tests() {
    for x in SINGLES {
        let v = Simd::<Binary32, 2>::splat(b32(x));
        assert_eq!(v.is_nan().to_array(), [x.is_nan(); 2], "{:?}", x);
        assert_eq!(v.is_infinite().to_array(), [x.is_infinite(); 2], "{:?}", x);
        assert_eq!(v.is_finite().to_array(), [x.is_finite(); 2], "{:?}", x);
        assert_eq!(v.is_normal().to_array(), [x.is_normal(); 2], "{:?}", x);
        assert_eq!(v.is_subnormal().to_array(), [x.is_subnormal(); 2], "{:?}", x);
        assert_eq!(v.is_sign_positive().to_array(), [x.is_sign_positive(); 2], "{:?}", x);
        assert_eq!(v.is_sign_negative().to_array(), [x.is_sign_negative(); 2], "{:?}", x);
    }
}

#[test]
fn classes_of_doubles_agree_with_the_scalar_tests() {
    for x in DOUBLES {
        let v = Simd::<Binary64, 2>::splat(b64(x));
        assert_eq!(v.is_nan().to_array(), [x.is_nan(); 2], "{:?}", x);
        assert_eq!(v.is_infinite().to_array(), [x.is_infinite(); 2], "{:?}", x);
        assert_eq!(v.is_finite().to_array(), [x.is_finite(); 2], "{:?}", x);
        assert_eq!(v.is_normal().to_array(), [x.is_normal(); 2], "{:?}", x);
        assert_eq!(v.is_subnormal().to_array(), [x.is_subnormal(); 2], "{:?}", x);
        assert_eq!(v.is_sign_positive().to_array(), [x.is_sign_positive(); 2], "{:?}", x);
        assert_eq!(v.is_sign_negative().to_array(), [x.is_sign_negative(); 2], "{:?}", x);
    }
}

#[test]
fn comparisons_of_singles_agree_with_the_scalar_ones() {
    for x in SINGLES {
        for y in SINGLES {
            let (a, b) = (Simd::<Binary32, 1>::splat(b32(x)), Simd::<Binary32, 1>::splat(b32(y)));
            assert_eq!(a.simd_eq(b).to_array(), [x == y], "{:?} {:?}", x, y);
            assert_eq!(a.simd_ne(b).to_array(), [x != y], "{:?} {:?}", x, y);
            assert_eq!(a.simd_lt(b).to_array(), [x < y], "{:?} {:?}", x, y);
            assert_eq!(a.simd_le(b).to_array(), [x <= y], "{:?} {:?}", x, y);
            assert_eq!(a.simd_gt(b).to_array(), [x > y], "{:?} {:?}", x, y);
            assert_eq!(a.simd_ge(b).to_array(), [x >= y], "{:?} {:?}", x, y);
        }
    }
}

#[test]
fn comparisons_of_doubles_agree_with_the_scalar_ones() {
    for x in DOUBLES {
        for y in DOUBLES {
            let (a, b) = (Simd::<Binary64, 1>::splat(b64(x)), Simd::<Binary64, 1>::splat(b64(y)));
            assert_eq!(a.simd_eq(b).to_array(), [x == y], "{:?} {:?}", x, y);
            assert_eq!(a.simd_ne(b).to_array(), [x != y], "{:?} {:?}", x, y);
            assert_eq!(a.simd_lt(b).to_array(), [x < y], "{:?} {:?}", x, y);
            assert_eq!(a.simd_le(b).to_array(), [x <= y], "{:?} {:?}", x, y);
            assert_eq!(a.simd_gt(b).to_array(), [x > y], "{:?} {:?}", x, y);
            assert_eq!(a.simd_ge(b).to_array(), [x >= y], "{:?} {:?}", x, y);
        }
    }
}

#[test]
fn min_and_max_of_singles_agree_with_the_scalar_ones() {
    for x in SINGLES {
        for y in SINGLES {
            if x == 0.0 && y == 0.0 {
                continue;
            }
            let (a, b) = (Simd::<Binary32, 1>::splat(b32(x)), Simd::<Binary32, 1>::splat(b32(y)));
            let (max, min) = (f32_of(a.simd_max(b).to_array()[0]), f32_of(a.simd_min(b).to_array()[0]));
            assert!(max == x.max(y) || (max.is_nan() && x.max(y).is_nan()), "{:?} {:?}", x, y);
            assert!(min == x.min(y) || (min.is_nan() && x.min(y).is_nan()), "{:?} {:?}", x, y);
        }
    }
    let p_zero = Simd::<Binary32, 4>::splat(b32(0.0));
    let n_zero = Simd::<Binary32, 4>::splat(b32(-0.0));
    assert!(p_zero.simd_min(n_zero).to_array().iter().all(|x| f32_of(*x) == 0.0));
    assert!(n_zero.simd_min(p_zero).to_array().iter().all(|x| f32_of(*x) == 0.0));
    assert!(p_zero.simd_max(n_zero).to_array().iter().all(|x| f32_of(*x) == 0.0));
    assert!(n_zero.simd_max(p_zero).to_array().iter().all(|x| f32_of(*x) == 0.0));
}

#[test]
fn sign_operations_of_singles_agree_with_the_scalar_ones() {
    for x in SINGLES {
        let v = Simd::<Binary32, 1>::splat(b32(x));
        assert_eq!(v.abs().to_array()[0].to_bits(), x.abs().to_bits(), "{:?}", x);
        assert_eq!(v.neg().to_array()[0].to_bits(), (-x).to_bits(), "{:?}", x);
        let sign = f32_of(v.signum().to_array()[0]);
        assert!(sign == x.signum() || (sign.is_nan() && x.is_nan()), "{:?}", x);
        for y in SINGLES {
            let s = Simd::<Binary32, 1>::splat(b32(y));
            assert_eq!(
                v.copysign(s).to_array()[0].to_bits(),
                x.copysign(y).to_bits(),
                "{:?} {:?}",
                x,
                y
            );
        }
    }
}

#[test]
fn sign_operations_of_doubles_agree_with_the_scalar_ones() {
    for x in DOUBLES {
        let v = Simd::<Binary64, 1>::splat(b64(x));
        assert_eq!(v.abs().to_array()[0].to_bits(), x.abs().to_bits(), "{:?}", x);
        assert_eq!(v.neg().to_array()[0].to_bits(), (-x).to_bits(), "{:?}", x);
        let sign = f64_of(v.signum().to_array()[0]);
        assert!(sign == x.signum() || (sign.is_nan() && x.is_nan()), "{:?}", x);
        for y in DOUBLES {
            let s = Simd::<Binary64, 1>::splat(b64(y));
            assert_eq!(
                v.copysign(s).to_array()[0].to_bits(),
                x.copysign(y).to_bits(),
                "{:?} {:?}",
                x,
                y
            );
        }
    }
}

#[test]
fn to_bits_and_from_bits_change_no_bit() {
    let v = Simd::from_array(v32([1.0, -2.5, f32::NAN, 0.0]));
    let bits = v.to_bits();
    assert_eq!(bits.to_array(), [1.0f32, -2.5, f32::NAN, 0.0].map(f32::to_bits));
    let back = Simd::<Binary32, 4>::from_bits(bits);
    assert_eq!(back.to_bits(), bits);
    let w = Simd::<Binary64, 2>::from_bits(Simd::from_array([0x3ff0_0000_0000_0000, 1]));
    assert_eq!(w.to_array().map(f64_of), [1.0, 5e-324]);
}

#[test]
fn float_clamp() {
    let x = Simd::from_array(v32([-5.0, 0.5, 7.0, f32::NAN]));
    let lo = Simd::<Binary32, 4>::splat(b32(-1.0));
    let hi = Simd::<Binary32, 4>::splat(b32(1.0));
    let clamped = x.simd_clamp(lo, hi).unwrap().to_array().map(f32_of);
    assert_eq!(clamped[..3], [-1.0, 0.5, 1.0]);
    assert!(clamped[3].is_nan());
    assert_eq!(x.simd_clamp(hi, lo).err(), Some(SimdError::MinAboveMax));
}

#[test]
fn float_vectors_take_part_in_the_structural_operations() {
    let a = Simd::from_array(v32([0.0, 1.0, 2.0, 3.0]));
    let b = Simd::from_array(v32([4.0, 5.0, 6.0, 7.0]));
    assert_eq!(a.reverse().to_array().map(f32_of), [3.0, 2.0, 1.0, 0.0]);
    let (x, y) = a.interleave(b);
    assert_eq!(x.to_array().map(f32_of), [0.0, 4.0, 1.0, 5.0]);
    assert_eq!(y.to_array().map(f32_of), [2.0, 6.0, 3.0, 7.0]);
    let picked = a.simd_lt(Simd::splat(b32(1.5))).select(a, b);
    assert_eq!(picked.to_array().map(f32_of), [0.0, 1.0, 6.0, 7.0]);
    let data = v32([10.0, 11.0, 12.0]);
    let gathered = Simd::gather_or(&data, Simd::from_array([2, 7, 0, 1]), b);
    assert_eq!(gathered.to_array().map(f32_of), [12.0, 5.0, 10.0, 11.0]);
}

const INTEGERS: [i64; 30] = [
    0,
    1,
    -1,
    7,
    -128,
    255,
    16777215,
    16777216,
    16777217,
    16777218,
    16777219,
    -16777217,
    33554433,
    33554434,
    33554435,
    2147483647,
    -2147483648,
    4294967295,
    4294967296,
    9007199254740991,
    9007199254740992,
    9007199254740993,
    9007199254740994,
    9007199254740995,
    -9007199254740993,
    18014398509481985,
    i64::MAX,
    i64::MIN,
    i64::MAX - 1023,
    0x7fff_ffbf_ffff_ffff,
];

#[test]
fn cast_float_rounds_to_the_nearest_number() {
    let v = Simd::from_array([16777216i32, 16777217, 16777219, -16777217]);
    let singles = v.cast_float::<Binary32>().to_array().map(f32_of);
    assert_eq!(singles, [16777216.0, 16777216.0, 16777220.0, -16777216.0]);
    let ints = Simd::from_array([1i32, -4, i32::MAX, 0]);
    let floats = ints.cast_float::<Binary32>().to_array().map(f32_of);
    assert_eq!(floats, [1.0, -4.0, 2147483647.0, 0.0]);
    assert!(floats[3].is_sign_positive());
}

#[test]
fn cast_float_agrees_with_the_scalar_conversion() {
    for x in INTEGERS {
        let v = Simd::<i64, 1>::splat(x);
        assert_eq!(v.cast_float::<Binary32>().to_array()[0].to_bits(), (x as f32).to_bits(), "{}", x);
        assert_eq!(v.cast_float::<Binary64>().to_array()[0].to_bits(), (x as f64).to_bits(), "{}", x);
        let u = Simd::<u64, 1>::splat(x as u64);
        assert_eq!(
            u.cast_float::<Binary32>().to_array()[0].to_bits(),
            (x as u64 as f32).to_bits(),
            "{}",
            x
        );
        assert_eq!(
            u.cast_float::<Binary64>().to_array()[0].to_bits(),
            (x as u64 as f64).to_bits(),
            "{}",
            x
        );
        let n = Simd::<i16, 1>::splat(x as i16);
        assert_eq!(
            n.cast_float::<Binary32>().to_array()[0].to_bits(),
            (x as i16 as f32).to_bits(),
            "{}",
            x
        );
    }
}

#[test]
fn to_int_unchecked_gives_the_integer_part() {
    let v = Simd::from_array(v32([1.9, -4.5, 0.0, 2147483520.0]));
    assert_eq!(v.to_int_unchecked::<i32>().to_array(), [1, -4, 0, 2147483520]);
    let w = Simd::from_array(v64([255.99, 0.5]));
    assert_eq!(w.to_int_unchecked::<u8>().to_array(), [255, 0]);
}
