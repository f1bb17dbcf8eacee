use core_simd::simd::{Binary32, Binary64, Mask, MaskEncoding, Simd};
use proptest::array::uniform;
use proptest::bool::ANY as ANY_BOOL;
use proptest::num::{i16, i32, i64, i8, u16, u32, u64, u8, usize};
use proptest::strategy::Strategy;
use proptest::test_runner::{Config, RngAlgorithm, TestCaseError, TestRng, TestRunner};
use std::fmt::Debug;

fn holds<S: Strategy>(strategy: S, property: impl Fn(S::Value) -> bool)
where
    S::Value: Debug,
{
    let config = Config { cases: 200, failure_persistence: None, ..Config::default() };
    let rng = TestRng::deterministic_rng(RngAlgorithm::ChaCha);
    let mut runner = TestRunner::new_with_rng(config, rng);
    let result = runner.run(&strategy, |value| {
        if property(value) {
            Ok(())
        } else {
            Err(TestCaseError::fail("the property does not hold"))
        }
    });
    assert!(result.is_ok(), "{:?}", result);
}

fn zip<T: Copy, const N: usize>(a: [T; N], b: [T; N], f: impl Fn(T, T) -> T) -> [T; N] {
    let mut out = a;
    for i in 0..N {
        out[i] = f(a[i], b[i]);
    }
    out
}

#[test]
fn random_arrays_come_back_from_a_vector() {
    holds(uniform::<_, 16>(i32::ANY), |a| Simd::from_array(a).to_array() == a);
    holds(uniform::<_, 64>(u8::ANY), |a| Simd::from_array(a).to_array() == a);
    holds(uniform::<_, 1>(u64::ANY), |a| Simd::from_array(a).to_array() == a);
}

#[test]
fn random_boolean_arrays_come_back_from_a_mask_in_either_encoding() {
    holds(uniform::<_, 32>(ANY_BOOL), |b| {
        let mask = Mask::<i16, 32>::from_array(b);
        let packed = mask.with_encoding(MaskEncoding::Packed);
        mask.to_array() == b
            && packed.to_array() == b
            && packed.with_encoding(MaskEncoding::FullWidth).to_array() == b
            && packed == mask
    });
    holds(uniform::<_, 64>(ANY_BOOL), |b| {
        let packed = Mask::<i8, 64>::from_array(b).with_encoding(MaskEncoding::Packed);
        packed.to_array() == b && Mask::<i8, 64>::from_bitmask(packed.to_bitmask()) == packed
    });
}

#[test]
fn random_bitmasks_come_back_from_a_mask() {
    holds(u64::ANY, |bits| {
        Mask::<i32, 64>::from_bitmask(bits).to_bitmask() == bits
            && Mask::<i32, 16>::from_bitmask(bits).to_bitmask() == bits & 0xffff
            && Mask::<i32, 1>::from_bitmask(bits).with_encoding(MaskEncoding::Packed).to_bitmask()
                == bits & 1
    });
}

#[test]
fn random_sums_are_the_wrapping_sums_of_the_lanes() {
    holds((uniform::<_, 8>(i32::ANY), uniform::<_, 8>(i32::ANY)), |(a, b)| {
        (Simd::from_array(a) + Simd::from_array(b)).to_array() == zip(a, b, i32::wrapping_add)
    });
    holds((uniform::<_, 16>(u8::ANY), uniform::<_, 16>(u8::ANY)), |(a, b)| {
        (Simd::from_array(a) + Simd::from_array(b)).to_array() == zip(a, b, u8::wrapping_add)
    });
    holds((uniform::<_, 4>(i64::ANY), uniform::<_, 4>(i64::ANY)), |(a, b)| {
        (Simd::from_array(a) + Simd::from_array(b)).to_array() == zip(a, b, i64::wrapping_add)
    });
    holds((uniform::<_, 4>(usize::ANY), uniform::<_, 4>(usize::ANY)), |(a, b)| {
        (Simd::from_array(a) + Simd::from_array(b)).to_array() == zip(a, b, usize::wrapping_add)
    });
}

#[test]
fn random_differences_and_products_wrap() {
    holds((uniform::<_, 8>(i16::ANY), uniform::<_, 8>(i16::ANY)), |(a, b)| {
        let (va, vb) = (Simd::from_array(a), Simd::from_array(b));
        (va - vb).to_array() == zip(a, b, i16::wrapping_sub)
            && (va * vb).to_array() == zip(a, b, i16::wrapping_mul)
    });
    holds((uniform::<_, 8>(u64::ANY), uniform::<_, 8>(u64::ANY)), |(a, b)| {
        let (va, vb) = (Simd::from_array(a), Simd::from_array(b));
        (va - vb).to_array() == zip(a, b, u64::wrapping_sub)
            && (va * vb).to_array() == zip(a, b, u64::wrapping_mul)
    });
}

#[test]
fn random_quotients_and_remainders_round_toward_zero() {
    holds((uniform::<_, 8>(i8::ANY), uniform::<_, 8>(i8::ANY)), |(a, b)| {
        let (va, vb) = (Simd::from_array(a), Simd::from_array(b));
        if b.contains(&0) {
            va.checked_div(vb).is_err() && va.checked_rem(vb).is_err()
        } else {
            va.checked_div(vb).map(|q| q.to_array()) == Ok(zip(a, b, i8::wrapping_div))
                && va.checked_rem(vb).map(|r| r.to_array()) == Ok(zip(a, b, i8::wrapping_rem))
        }
    });
    holds((uniform::<_, 4>(u32::ANY), uniform::<_, 4>(1u32..)), |(a, b)| {
        let (va, vb) = (Simd::from_array(a), Simd::from_array(b));
        (va / vb).to_array() == zip(a, b, |x, y| x / y)
            && (va % vb).to_array() == zip(a, b, |x, y| x % y)
    });
}

#[test]
fn random_saturating_sums_agree_with_the_scalar_ones() {
    holds((uniform::<_, 8>(i32::ANY), uniform::<_, 8>(i32::ANY)), |(a, b)| {
        let (va, vb) = (Simd::from_array(a), Simd::from_array(b));
        va.saturating_add(vb).to_array() == zip(a, b, i32::saturating_add)
            && va.saturating_sub(vb).to_array() == zip(a, b, i32::saturating_sub)
    });
    holds((uniform::<_, 8>(u16::ANY), uniform::<_, 8>(u16::ANY)), |(a, b)| {
        let (va, vb) = (Simd::from_array(a), Simd::from_array(b));
        va.saturating_add(vb).to_array() == zip(a, b, u16::saturating_add)
            && va.saturating_sub(vb).to_array() == zip(a, b, u16::saturating_sub)
    });
}

#[test]
fn random_reductions_agree_with_the_scalar_folds() {
    holds(uniform::<_, 16>(i32::ANY), |a| {
        let v = Simd::from_array(a);
        v.reduce_sum() == a.iter().copied().fold(0, i32::wrapping_add)
            && v.reduce_product() == a.iter().copied().fold(1, i32::wrapping_mul)
            && v.reduce_and() == a.iter().copied().fold(-1, |x, y| x & y)
            && v.reduce_or() == a.iter().copied().fold(0, |x, y| x | y)
            && v.reduce_xor() == a.iter().copied().fold(0, |x, y| x ^ y)
            && Some(v.reduce_max()) == a.iter().copied().max()
            && Some(v.reduce_min()) == a.iter().copied().min()
    });
    holds(uniform::<_, 8>(u8::ANY), |a| {
        let v = Simd::from_array(a);
        v.reduce_sum() == a.iter().copied().fold(0, u8::wrapping_add)
            && v.reduce_product() == a.iter().copied().fold(1, u8::wrapping_mul)
            && Some(v.reduce_max()) == a.iter().copied().max()
            && Some(v.reduce_min()) == a.iter().copied().min()
    });
}

#[test]
fn random_gathers_read_the_slice_or_take_the_fallback() {
    let case = (
        proptest::collection::vec(i32::ANY, 0..20),
        uniform::<_, 8>(0usize..30),
        uniform::<_, 8>(i32::ANY),
        uniform::<_, 8>(ANY_BOOL),
    );
    holds(case, |(slice, idxs, fallback, enable)| {
        let all = Simd::gather_or(&slice, Simd::from_array(idxs), Simd::from_array(fallback));
        let some = Simd::gather_select(
            &slice,
            Mask::from_array(enable),
            Simd::from_array(idxs),
            Simd::from_array(fallback),
        );
        (0..8).all(|i| {
            let read = slice.get(idxs[i]).copied();
            all.to_array()[i] == read.unwrap_or(fallback[i])
                && some.to_array()[i]
                    == (if enable[i] { read.unwrap_or(fallback[i]) } else { fallback[i] })
        })
    });
}

#[test]
fn random_scatters_leave_the_highest_lane_of_each_place() {
    let case = (
        proptest::collection::vec(i32::ANY, 0..6),
        uniform::<_, 8>(0usize..8),
        uniform::<_, 8>(i32::ANY),
        uniform::<_, 8>(ANY_BOOL),
    );
    holds(case, |(slice, idxs, values, enable)| {
        let mut expected = slice.clone();
        for lane in 0..8 {
            if enable[lane] && idxs[lane] < expected.len() {
                expected[idxs[lane]] = values[lane];
            }
        }
        let mut got = slice.clone();
        Simd::from_array(values).scatter_select(
            &mut got,
            Mask::from_array(enable).with_encoding(MaskEncoding::Packed),
            Simd::from_array(idxs),
        );
        got == expected
    });
}

#[test]
fn random_interleavings_come_apart_again() {
    holds((uniform::<_, 16>(u16::ANY), uniform::<_, 16>(u16::ANY)), |(a, b)| {
        let (lo, hi) = Simd::from_array(a).interleave(Simd::from_array(b));
        let (even, odd) = lo.deinterleave(hi);
        even.to_array() == a && odd.to_array() == b
    });
}

#[test]
fn random_casts_agree_with_the_scalar_conversion() {
    holds(uniform::<_, 8>(i64::ANY), |a| {
        let v = Simd::from_array(a);
        v.cast::<i8>().to_array() == a.map(|x| x as i8)
            && v.cast::<u16>().to_array() == a.map(|x| x as u16)
            && v.cast::<i32>().to_array() == a.map(|x| x as i32)
            && v.cast::<u64>().to_array() == a.map(|x| x as u64)
            && v.cast::<isize>().to_array() == a.map(|x| x as isize)
    });
    holds(uniform::<_, 8>(u32::ANY), |a| {
        let v = Simd::from_array(a);
        v.cast::<i8>().to_array() == a.map(|x| x as i8)
            && v.cast::<i32>().to_array() == a.map(|x| x as i32)
            && v.cast::<i64>().to_array() == a.map(|x| x as i64)
            && v.cast::<usize>().to_array() == a.map(|x| x as usize)
    });
}

#[test]
fn random_singles_cut_down_to_integers_as_the_scalar_conversion_does() {
    holds(uniform::<_, 4>(u32::ANY), |bits| {
        let floats = bits.map(f32::from_bits);
        let v = Simd::from_array(bits.map(Binary32::from_bits));
        v.cast::<i32>().to_array() == floats.map(|x| x as i32)
            && v.cast::<u8>().to_array() == floats.map(|x| x as u8)
            && v.cast::<i64>().to_array() == floats.map(|x| x as i64)
            && v.cast::<u64>().to_array() == floats.map(|x| x as u64)
    });
    holds(uniform::<_, 4>(proptest::num::f32::ANY), |floats| {
        let v = Simd::from_array(floats.map(|x| Binary32::from_bits(x.to_bits())));
        v.cast::<i16>().to_array() == floats.map(|x| x as i16)
            && v.cast::<u32>().to_array() == floats.map(|x| x as u32)
    });
}

#[test]
fn random_doubles_cut_down_to_integers_as_the_scalar_conversion_does() {
    holds(uniform::<_, 4>(u64::ANY), |bits| {
        let floats = bits.map(f64::from_bits);
        let v = Simd::from_array(bits.map(Binary64::from_bits));
        v.cast::<i32>().to_array() == floats.map(|x| x as i32)
            && v.cast::<u8>().to_array() == floats.map(|x| x as u8)
            && v.cast::<i64>().to_array() == floats.map(|x| x as i64)
            && v.cast::<u64>().to_array() == floats.map(|x| x as u64)
    });
    holds(uniform::<_, 4>(proptest::num::f64::ANY), |floats| {
        let v = Simd::from_array(floats.map(|x| Binary64::from_bits(x.to_bits())));
        v.cast::<i64>().to_array() == floats.map(|x| x as i64)
            && v.cast::<u64>().to_array() == floats.map(|x| x as u64)
            && v.cast::<i8>().to_array() == floats.map(|x| x as i8)
    });
}

#[test]
fn random_singles_compare_as_the_scalars_do() {
    holds((uniform::<_, 4>(u32::ANY), uniform::<_, 4>(u32::ANY)), |(a, b)| {
        let (fa, fb) = (a.map(f32::from_bits), b.map(f32::from_bits));
        let va = Simd::from_array(a.map(Binary32::from_bits));
        let vb = Simd::from_array(b.map(Binary32::from_bits));
        (0..4).all(|i| {
            va.simd_lt(vb).to_array()[i] == (fa[i] < fb[i])
                && va.simd_le(vb).to_array()[i] == (fa[i] <= fb[i])
                && va.simd_eq(vb).to_array()[i] == (fa[i] == fb[i])
                && va.is_nan().to_array()[i] == fa[i].is_nan()
                && va.is_normal().to_array()[i] == fa[i].is_normal()
        })
    });
}

#[test]
fn random_integers_round_to_floats_as_the_scalar_conversion_does() {
    holds(uniform::<_, 4>(i64::ANY), |a| {
        let v = Simd::from_array(a);
        v.cast_float::<Binary32>().to_array().map(Binary32::to_bits)
            == a.map(|x| (x as f32).to_bits())
            && v.cast_float::<Binary64>().to_array().map(Binary64::to_bits)
                == a.map(|x| (x as f64).to_bits())
    });
    holds(uniform::<_, 4>(u64::ANY), |a| {
        let v = Simd::from_array(a);
        v.cast_float::<Binary32>().to_array().map(Binary32::to_bits)
            == a.map(|x| (x as f32).to_bits())
            && v.cast_float::<Binary64>().to_array().map(Binary64::to_bits)
                == a.map(|x| (x as f64).to_bits())
    });
    holds(uniform::<_, 4>(i32::ANY), |a| {
        let v = Simd::from_array(a);
        v.cast_float::<Binary32>().to_array().map(Binary32::to_bits)
            == a.map(|x| (x as f32).to_bits())
    });
}

#[test]
fn random_shifts_are_checked() {
    holds((uniform::<_, 8>(i32::ANY), uniform::<_, 8>(-4i32..40)), |(a, by)| {
        let (va, vb) = (Simd::from_array(a), Simd::from_array(by));
        if by.iter().all(|s| (0..32).contains(s)) {
            va.checked_shl(vb).map(|r| r.to_array()) == Ok(zip(a, by, |x, s| x << s))
                && va.checked_shr(vb).map(|r| r.to_array()) == Ok(zip(a, by, |x, s| x >> s))
        } else {
            va.checked_shl(vb).is_err() && va.checked_shr(vb).is_err()
        }
    });
}
