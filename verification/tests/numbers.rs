use imsz::bytes::{matches_at, read_i8, read_u8, to_i16, to_i32, to_i8, ByteOrder};
use imsz::number::{clamp, double, iratio, single, uratio};

#[test]
fn single_precision_as_the_cast_has_it() {
    let values = [
        0.0f32,
        -0.0,
        0.5,
        0.999_999_94,
        1.0,
        1.5,
        2.0,
        16.0,
        32.75,
        -1.0,
        -32.75,
        8_388_607.5,
        8_388_608.0,
        16_777_215.0,
        16_777_216.0,
        4_294_967_296.0,
        1.0e19,
        1.8446743e19,
        1.8446744e19,
        1.8446746e19,
        3.0e38,
        f32::MAX,
        f32::MIN,
        f32::MIN_POSITIVE,
        f32::EPSILON,
        f32::INFINITY,
        f32::NEG_INFINITY,
        f32::NAN,
        -f32::NAN,
    ];
    for value in values {
        assert_eq!(single(value.to_bits()), value as u64, "{value}");
    }
    assert_eq!(single(32.75f32.to_bits()), 32);
    assert_eq!(single(0x7f80_0000), u64::MAX);
    assert_eq!(single(0xff80_0000), 0);
    assert_eq!(single(0x7fc0_0000), 0);
    assert_eq!(single(0x7f80_0001), 0);
    assert_eq!(single(0x0000_0001), 0);
    assert_eq!(single(0x5f7f_ffff), 0xffff_ff00_0000_0000);
    assert_eq!(single(0x5f80_0000), u64::MAX);
}

#[test]
fn single_precision_over_many_bits() {
    let mut bits: u32 = 0;
    loop {
        assert_eq!(single(bits), f32::from_bits(bits) as u64, "{bits:#x}");
        match bits.checked_add(0x0001_2345) {
            Some(next) => bits = next,
            None => break,
        }
    }
    for exponent in 0..=255u32 {
        for fraction in [0u32, 1, 0x40_0000, 0x7f_ffff, 0x12_3456] {
            for sign in [0u32, 0x8000_0000] {
                let bits = sign | exponent << 23 | fraction;
                assert_eq!(single(bits), f32::from_bits(bits) as u64, "{bits:#x}");
            }
        }
    }
}

#[test]
fn double_precision_as_the_cast_has_it() {
    let values = [
        0.0f64,
        -0.0,
        0.5,
        0.999_999_999_999_999_9,
        1.0,
        1.5,
        16.5,
        -16.5,
        4_503_599_627_370_495.5,
        4_503_599_627_370_496.0,
        9_007_199_254_740_991.0,
        9_007_199_254_740_992.0,
        1.0e19,
        18_446_744_073_709_549_568.0,
        18_446_744_073_709_551_616.0,
        1.0e300,
        f64::MAX,
        f64::MIN,
        f64::MIN_POSITIVE,
        f64::EPSILON,
        f64::INFINITY,
        f64::NEG_INFINITY,
        f64::NAN,
        -f64::NAN,
    ];
    for value in values {
        assert_eq!(double(value.to_bits()), value as u64, "{value}");
    }
    assert_eq!(double(16.5f64.to_bits()), 16);
    assert_eq!(double(0x7ff0_0000_0000_0000), u64::MAX);
    assert_eq!(double(0xfff0_0000_0000_0000), 0);
    assert_eq!(double(0x7ff8_0000_0000_0000), 0);
    assert_eq!(double(0x43ef_ffff_ffff_ffff), 0xffff_ffff_ffff_f800);
    assert_eq!(double(0x43f0_0000_0000_0000), u64::MAX);
}

#[test]
fn double_precision_over_many_bits() {
    for exponent in 0..=0x7ffu64 {
        for fraction in [0u64, 1, 0x8_0000_0000_0000, 0xf_ffff_ffff_ffff, 0x1_2345_6789_abcd] {
            for sign in [0u64, 0x8000_0000_0000_0000] {
                let bits = sign | exponent << 52 | fraction;
                assert_eq!(double(bits), f64::from_bits(bits) as u64, "{bits:#x}");
            }
        }
    }
}

#[test]
fn signed_numbers_are_clamped() {
    assert_eq!(clamp(0), 0);
    assert_eq!(clamp(32), 32);
    assert_eq!(clamp(-1), 0);
    assert_eq!(clamp(i32::MIN), 0);
    assert_eq!(clamp(i32::MAX), 2147483647);
}

#[test]
fn ratios_lose_their_remainder() {
    assert_eq!(uratio(100, 3), Some(33));
    assert_eq!(uratio(2, 3), Some(0));
    assert_eq!(uratio(0, 3), Some(0));
    assert_eq!(uratio(u32::MAX, 1), Some(4294967295));
    assert_eq!(uratio(u32::MAX, u32::MAX), Some(1));
    assert_eq!(uratio(100, 0), None);
    assert_eq!(uratio(0, 0), None);
    assert_eq!(iratio(100, 3), Some(33));
    assert_eq!(iratio(-100, -3), Some(33));
    assert_eq!(iratio(-100, 3), Some(0));
    assert_eq!(iratio(100, -3), Some(0));
    assert_eq!(iratio(0, -3), Some(0));
    assert_eq!(iratio(0, 3), Some(0));
    assert_eq!(iratio(2, 3), Some(0));
    assert_eq!(iratio(-2, -3), Some(0));
    assert_eq!(iratio(i32::MIN, -1), Some(2147483648));
    assert_eq!(iratio(i32::MIN, i32::MIN), Some(1));
    assert_eq!(iratio(i32::MAX, 1), Some(2147483647));
    assert_eq!(iratio(i32::MIN, 1), Some(0));
    assert_eq!(iratio(100, 0), None);
    assert_eq!(iratio(-100, 0), None);
    assert_eq!(iratio(0, 0), None);
    for (a, b) in [(7i32, 2i32), (-7, -2), (7, -2), (-7, 2), (1, 7), (i32::MAX, 2), (i32::MIN, -3)] {
        assert_eq!(iratio(a, b), Some((a as i64 / b as i64).max(0) as u64));
    }
}

#[test]
fn bits_in_two_s_complement() {
    for x in 0..=255u8 {
        assert_eq!(to_i8(x), x as i8);
    }
    for x in [0u16, 1, 0x7fff, 0x8000, 0x8001, 0xfffe, 0xffff, 0x1234, 0xabcd] {
        assert_eq!(to_i16(x), x as i16);
    }
    for x in [0u32, 1, 0x7fff_ffff, 0x8000_0000, 0x8000_0001, 0xffff_ffff, 0x1234_5678, 0xfedc_ba98] {
        assert_eq!(to_i32(x), x as i32);
    }
}

#[test]
fn integers_in_either_order() {
    let data = [0x01u8, 0x02, 0x03, 0x84, 0x05, 0x06, 0x07, 0x88, 0x09];
    let le = ByteOrder::Little;
    let be = ByteOrder::Big;
    assert_eq!(read_u8(&data, 0), Some(1));
    assert_eq!(read_u8(&data, 8), Some(9));
    assert_eq!(read_u8(&data, 9), None);
    assert_eq!(read_i8(&data, 3), Some(-124));
    assert_eq!(read_i8(&data, 9), None);
    assert_eq!(le.read_u16(&data, 0), Some(0x0201));
    assert_eq!(be.read_u16(&data, 0), Some(0x0102));
    assert_eq!(le.read_u16(&data, 7), Some(0x0988));
    assert_eq!(le.read_u16(&data, 8), None);
    assert_eq!(be.read_u16(&data, usize::MAX), None);
    assert_eq!(le.read_i16(&data, 2), Some(0x8403u16 as i16));
    assert_eq!(be.read_i16(&data, 3), Some(0x8405u16 as i16));
    assert_eq!(be.read_i16(&data, 8), None);
    assert_eq!(le.read_u32(&data, 0), Some(0x8403_0201));
    assert_eq!(be.read_u32(&data, 0), Some(0x0102_0384));
    assert_eq!(le.read_u32(&data, 5), Some(0x0988_0706));
    assert_eq!(le.read_u32(&data, 6), None);
    assert_eq!(le.read_i32(&data, 0), Some(0x8403_0201u32 as i32));
    assert_eq!(be.read_i32(&data, 3), Some(0x8405_0607u32 as i32));
    assert_eq!(be.read_i32(&data, 6), None);
    assert_eq!(le.read_u64(&data, 0), Some(0x8807_0605_8403_0201));
    assert_eq!(be.read_u64(&data, 1), Some(0x0203_8405_0607_8809));
    assert_eq!(be.read_u64(&data, 2), None);
    assert_eq!(le.read_uratio(&data, 0), Some((0x8403_0201, 0x8807_0605)));
    assert_eq!(be.read_uratio(&data, 1), Some((0x0203_8405, 0x0607_8809)));
    assert_eq!(le.read_uratio(&data, 2), None);
    assert_eq!(le.read_iratio(&data, 0), Some((0x8403_0201u32 as i32, 0x8807_0605u32 as i32)));
    assert_eq!(be.read_iratio(&data, 1), Some((0x0203_8405, 0x0607_8809)));
    assert_eq!(be.read_iratio(&data, 2), None);
}

#[test]
fn bytes_are_matched_in_place() {
    let data = b"RIFF....WEBP";
    assert!(matches_at(data, 0, b"RIFF"));
    assert!(matches_at(data, 8, b"WEBP"));
    assert!(matches_at(data, 12, b""));
    assert!(matches_at(data, 4, b"...."));
    assert!(!matches_at(data, 0, b"RIFX"));
    assert!(!matches_at(data, 1, b"RIFF"));
    assert!(!matches_at(data, 9, b"WEBP"));
    assert!(!matches_at(data, 9, b"EBPP"));
    assert!(!matches_at(data, 13, b""));
    assert!(!matches_at(data, usize::MAX, b"R"));
    assert!(!matches_at(b"", 0, b"R"));
}
