use core_simd::masks::bitmask_len;
use core_simd::simd::{Mask, MaskEncoding, Simd, SimdError};

const ENCODINGS: [MaskEncoding; 2] = [MaskEncoding::FullWidth, MaskEncoding::Packed];

const VALUES: [bool; 8] = [true, false, false, true, false, false, true, false];

#[test]
fn set_and_test() {
    for encoding in ENCODINGS {
        let mut mask = Mask::<i32, 8>::splat(false).with_encoding(encoding);
        for (lane, value) in VALUES.iter().copied().enumerate() {
            assert_eq!(mask.set(lane, value), Ok(()));
        }
        for (lane, value) in VALUES.iter().copied().enumerate() {
            assert_eq!(mask.test(lane), Ok(value));
        }
        assert_eq!(mask.encoding(), encoding);
    }
}

#[test]
fn set_and_test_over_every_mask_element_kind() {
    let mut a = Mask::<i8, 8>::splat(false);
    let mut b = Mask::<i16, 8>::splat(false);
    let mut c = Mask::<i64, 8>::splat(false);
    let mut d = Mask::<isize, 8>::splat(false);
    for (lane, value) in VALUES.iter().copied().enumerate() {
        a.set(lane, value).unwrap();
        b.set(lane, value).unwrap();
        c.set(lane, value).unwrap();
        d.set(lane, value).unwrap();
    }
    assert_eq!(a.to_array(), VALUES);
    assert_eq!(b.to_array(), VALUES);
    assert_eq!(c.to_array(), VALUES);
    assert_eq!(d.to_array(), VALUES);
}

#[test]
fn set_overwrites_a_lane_that_was_true() {
    for encoding in ENCODINGS {
        let mut mask = Mask::<i16, 4>::splat(true).with_encoding(encoding);
        mask.set(1, false).unwrap();
        mask.set(3, true).unwrap();
        assert_eq!(mask.to_array(), [true, false, true, true]);
        mask.set_unchecked(0, false);
        assert!(!mask.test_unchecked(0));
        assert!(mask.test_unchecked(2));
    }
}

#[test]
fn set_invalid_lane() {
    for encoding in ENCODINGS {
        let mut mask = Mask::<i32, 8>::splat(false).with_encoding(encoding);
        assert_eq!(mask.set(8, true), Err(SimdError::LaneOutOfRange));
        assert_eq!(mask.set(usize::MAX, true), Err(SimdError::LaneOutOfRange));
        assert_eq!(mask.to_array(), [false; 8]);
        assert_eq!(mask.to_bitmask(), 0);
    }
}

#[test]
fn test_invalid_lane() {
    for encoding in ENCODINGS {
        let mask = Mask::<i32, 8>::splat(false).with_encoding(encoding);
        assert_eq!(mask.test(8), Err(SimdError::LaneOutOfRange));
        assert_eq!(mask.test(7), Ok(false));
    }
}

#[test]
fn any() {
    for encoding in ENCODINGS {
        assert!(!Mask::<i32, 8>::splat(false).with_encoding(encoding).any());
        assert!(Mask::<i32, 8>::splat(true).with_encoding(encoding).any());
        let mut v = Mask::<i32, 8>::splat(false).with_encoding(encoding);
        v.set(2, true).unwrap();
        assert!(v.any());
    }
}

#[test]
fn all() {
    for encoding in ENCODINGS {
        assert!(!Mask::<i32, 8>::splat(false).with_encoding(encoding).all());
        assert!(Mask::<i32, 8>::splat(true).with_encoding(encoding).all());
        let mut v = Mask::<i32, 8>::splat(false).with_encoding(encoding);
        v.set(2, true).unwrap();
        assert!(!v.all());
        let mut w = Mask::<i32, 8>::splat(true).with_encoding(encoding);
        w.set(7, false).unwrap();
        assert!(!w.all());
        assert!(w.any());
    }
}

#[test]
fn all_and_any_at_the_widest_and_the_narrowest() {
    for encoding in ENCODINGS {
        let mut wide = Mask::<i8, 64>::splat(true).with_encoding(encoding);
        assert!(wide.all());
        assert_eq!(wide.to_bitmask(), u64::MAX);
        wide.set(63, false).unwrap();
        assert!(!wide.all());
        assert_eq!(wide.to_bitmask(), u64::MAX >> 1);
        let mut one = Mask::<i64, 1>::splat(false).with_encoding(encoding);
        assert!(!one.any());
        one.set(0, true).unwrap();
        assert!(one.all());
        assert_eq!(one.to_bitmask(), 1);
    }
}

#[test]
fn from_array_to_array_gives_the_booleans_back() {
    for encoding in ENCODINGS {
        let mask = Mask::<i32, 8>::from_array(VALUES).with_encoding(encoding);
        assert_eq!(mask.encoding(), encoding);
        assert_eq!(mask.to_array(), VALUES);
    }
    assert_eq!(Mask::<i8, 2>::from_array([false, true]).to_array(), [false, true]);
    assert_eq!(Mask::<i32, 8>::from_array(VALUES).encoding(), MaskEncoding::FullWidth);
}

#[test]
fn masks_with_the_same_lanes_are_equal_across_encodings() {
    let full = Mask::<i32, 8>::from_array(VALUES);
    let packed = full.with_encoding(MaskEncoding::Packed);
    assert_eq!(packed.encoding(), MaskEncoding::Packed);
    assert_eq!(full, packed);
    assert_eq!(packed.with_encoding(MaskEncoding::FullWidth), full);
    let mut other = packed;
    other.set(1, true).unwrap();
    assert_ne!(other, full);
}

#[test]
fn roundtrip_int_conversion() {
    for encoding in ENCODINGS {
        let mask = Mask::<i32, 8>::from_array(VALUES).with_encoding(encoding);
        let int = mask.to_int();
        assert_eq!(int.to_array(), [-1, 0, 0, -1, 0, 0, -1, 0]);
        assert_eq!(Mask::<i32, 8>::from_int(int), Ok(mask));
        assert_eq!(Mask::<i32, 8>::from_int_unchecked(int), mask);
    }
}

#[test]
fn from_int_refuses_a_lane_that_is_neither_zero_nor_minus_one() {
    let bad = Simd::<i32, 4>::from_array([0, -1, 1, 0]);
    assert_eq!(Mask::<i32, 4>::from_int(bad), Err(SimdError::InvalidMaskLane));
    let bad = Simd::<i8, 4>::from_array([0, -1, -1, -2]);
    assert_eq!(Mask::<i8, 4>::from_int(bad), Err(SimdError::InvalidMaskLane));
    let good = Simd::<i64, 2>::from_array([-1, 0]);
    assert_eq!(Mask::<i64, 2>::from_int(good).map(|m| m.to_array()), Ok([true, false]));
}

#[test]
fn roundtrip_bitmask_conversion() {
    let values = [
        true, false, false, true, false, false, true, false, true, true, false, false, false,
        false, false, true,
    ];
    for encoding in ENCODINGS {
        let mask = Mask::<i32, 16>::from_array(values).with_encoding(encoding);
        let bitmask = mask.to_bitmask();
        assert_eq!(bitmask, 0b1000001101001001);
        assert_eq!(Mask::<i32, 16>::from_bitmask(bitmask), mask);
    }
}

#[test]
fn roundtrip_bitmask_conversion_short() {
    for encoding in ENCODINGS {
        let mask = Mask::<i32, 4>::from_array([false, false, false, true]).with_encoding(encoding);
        let bitmask = mask.to_bitmask();
        assert_eq!(bitmask, 0b1000);
        assert_eq!(Mask::<i32, 4>::from_bitmask(bitmask), mask);

        let mask = Mask::<i32, 2>::from_array([true, false]).with_encoding(encoding);
        let bitmask = mask.to_bitmask();
        assert_eq!(bitmask, 0b01);
        assert_eq!(Mask::<i32, 2>::from_bitmask(bitmask), mask);
    }
}

#[test]
fn from_bitmask_does_not_look_at_bits_above_the_last_lane() {
    for encoding in ENCODINGS {
        let mask = Mask::<i16, 4>::from_bitmask(0xffff_ffff_ffff_fff5).with_encoding(encoding);
        assert_eq!(mask.to_array(), [true, false, true, false]);
        assert_eq!(mask.to_bitmask(), 0x5);
        let mut grown = mask;
        grown.set(3, true).unwrap();
        assert_eq!(grown.to_bitmask(), 0xd);
    }
}

#[test]
fn cast() {
    for encoding in ENCODINGS {
        let mask = Mask::<i32, 8>::from_array(VALUES).with_encoding(encoding);
        let narrow = mask.cast::<i8>();
        let wide = mask.cast::<i64>();
        let pointer = mask.cast::<isize>();
        assert_eq!(narrow.to_array(), VALUES);
        assert_eq!(wide.to_array(), VALUES);
        assert_eq!(pointer.to_array(), VALUES);
        assert_eq!(narrow.encoding(), encoding);
        assert_eq!(wide.to_int().to_array(), [-1i64, 0, 0, -1, 0, 0, -1, 0]);
    }
}

#[test]
fn select_picks_lanes_by_the_mask() {
    let a = Simd::from_array([0, 1, 2, 3]);
    let b = Simd::from_array([4, 5, 6, 7]);
    for encoding in ENCODINGS {
        let mask = Mask::<i32, 4>::from_array([true, false, false, true]).with_encoding(encoding);
        let c = mask.select(a, b);
        assert_eq!(c.to_array(), [0, 5, 6, 3]);
        let u = mask.select(Simd::<u32, 4>::splat(1), Simd::<u32, 4>::splat(9));
        assert_eq!(u.to_array(), [1, 9, 9, 1]);
    }
}

#[test]
fn select_mask_picks_lanes_by_the_mask() {
    let a = Mask::<i32, 4>::from_array([true, true, false, false]);
    let b = Mask::<i32, 4>::from_array([false, false, true, true]);
    for encoding in ENCODINGS {
        let mask = Mask::<i32, 4>::from_array([true, false, false, true]).with_encoding(encoding);
        let c = mask.select_mask(a, b);
        assert_eq!(c.to_array(), [true, false, true, false]);
        assert_eq!(c.encoding(), encoding);
    }
}

#[test]
fn roundtrip_bitmask_array_conversion() {
    let values = [
        true, false, false, true, false, false, true, false, true, true, false, false, false,
        false, false, true,
    ];
    for encoding in ENCODINGS {
        let mask = Mask::<i8, 16>::from_array(values).with_encoding(encoding);
        let bitmask = mask.to_bitmask_array::<2>();
        assert_eq!(bitmask, Ok([0b01001001, 0b10000011]));
        assert_eq!(Mask::<i8, 16>::from_bitmask_array(bitmask.unwrap()), Ok(mask));
    }
}

#[test]
fn bitmask_array_of_a_mask_narrower_than_a_byte() {
    for encoding in ENCODINGS {
        let mask = Mask::<i32, 4>::from_array([false, false, false, true]).with_encoding(encoding);
        assert_eq!(mask.to_bitmask_array::<1>(), Ok([0b1000]));
        assert_eq!(Mask::<i32, 4>::from_bitmask_array([0b1111_1000]), Ok(mask));
        let one = Mask::<i64, 1>::splat(true).with_encoding(encoding);
        assert_eq!(one.to_bitmask_array::<1>(), Ok([1]));
    }
}

#[test]
fn bitmask_array_of_the_widest_mask() {
    let mut values = [false; 64];
    for i in 0..64 {
        values[i] = i % 3 == 0 || i == 63;
    }
    for encoding in ENCODINGS {
        let mask = Mask::<i16, 64>::from_array(values).with_encoding(encoding);
        let bytes = mask.to_bitmask_array::<8>().unwrap();
        assert_eq!(bytes, mask.to_bitmask().to_le_bytes());
        assert_eq!(Mask::<i16, 64>::from_bitmask_array(bytes), Ok(mask));
    }
}

#[test]
fn bitmask_array_of_the_wrong_length_is_refused() {
    let mask = Mask::<i8, 16>::splat(true);
    assert_eq!(mask.to_bitmask_array::<1>(), Err(SimdError::BitmaskLength));
    assert_eq!(mask.to_bitmask_array::<3>(), Err(SimdError::BitmaskLength));
    assert_eq!(Mask::<i8, 16>::from_bitmask_array([0u8; 1]), Err(SimdError::BitmaskLength));
    assert_eq!(Mask::<i8, 16>::from_bitmask_array([0u8; 8]), Err(SimdError::BitmaskLength));
    assert_eq!(Mask::<i8, 4>::from_bitmask_array([0u8; 0]), Err(SimdError::BitmaskLength));
}

#[test]
fn bitmask_len_is_the_number_of_bytes_for_the_lanes() {
    assert_eq!(bitmask_len(1), 1);
    assert_eq!(bitmask_len(2), 1);
    assert_eq!(bitmask_len(8), 1);
    assert_eq!(bitmask_len(16), 2);
    assert_eq!(bitmask_len(32), 4);
    assert_eq!(bitmask_len(64), 8);
    assert_eq!(bitmask_len(0), 0);
    assert_eq!(bitmask_len(9), 2);
    assert_eq!(bitmask_len(usize::MAX), usize::MAX / 8 + 1);
}

#[test]
fn a_mask_comes_from_an_array_of_booleans_and_is_all_false_by_default() {
    let mask: Mask<i32, 8> = VALUES.into();
    assert_eq!(mask.to_array(), VALUES);
    assert_eq!(Mask::<i32, 8>::from(VALUES), Mask::from_array(VALUES));
    assert_eq!(Mask::<i64, 4>::default().to_array(), [false; 4]);
    assert_eq!(Mask::<i64, 4>::default().encoding(), MaskEncoding::FullWidth);
}
