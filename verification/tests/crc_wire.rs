use scky_fc::crc::crc8_update;
use scky_fc::float::F32Bits;
use scky_fc::wire::{
    i16_of, i32_of, le2, le4, le8, pattern_i16, pattern_i32, pattern_i8, u16_of, u32_of,
};

fn crc(poly: u8, data: &[u8]) -> u8 {
    data.iter().fold(0, |c, &b| crc8_update(poly, c, b))
}

#[test]
fn crc8_check_values() {
    assert_eq!(crc(0xD5, b"123456789"), 0xBC);
    assert_eq!(crc(0x07, b"123456789"), 0xF4);
    assert_eq!(crc(0x07, b""), 0);
}

#[test]
fn crc8_residue_is_zero() {
    let mut data = b"residue".to_vec();
    data.push(crc(0xD5, b"residue"));
    assert_eq!(crc(0xD5, &data), 0);
}

#[test]
fn crc8_detects_each_altered_byte() {
    let data = [0x16u8, 0x00, 0xFF, 0x80, 0x01];
    let good = crc(0xD5, &data);
    for i in 0..data.len() {
        for delta in 1..=255u8 {
            let mut bad = data;
            bad[i] ^= delta;
            assert_ne!(crc(0xD5, &bad), good);
        }
    }
}

#[test]
fn wire_integers() {
    assert_eq!(u16_of(0x34, 0x12), 0x1234);
    assert_eq!(u32_of(0x78, 0x56, 0x34, 0x12), 0x1234_5678);
    assert_eq!(i16_of(0xFFFE), -2);
    assert_eq!(i16_of(0x7FFF), 32767);
    assert_eq!(i32_of(0x8000_0000), i32::MIN);
    assert_eq!(le2(0xABCD), 0xABCDu16.to_le_bytes());
    assert_eq!(le4(0x0123_4567), 0x0123_4567u32.to_le_bytes());
    assert_eq!(le8(0x0123_4567_89AB_CDEF), 0x0123_4567_89AB_CDEFu64.to_le_bytes());
    assert_eq!(pattern_i8(-1), 0xFF);
    assert_eq!(pattern_i16(-2), 0xFFFE);
    assert_eq!(pattern_i32(-3), 0xFFFF_FFFD);
    assert_eq!(pattern_i32(5), 5);
}

fn bits(x: f32) -> F32Bits {
    F32Bits(x.to_bits())
}

#[test]
fn float_patterns_compare_as_numbers() {
    let xs = [
        f32::NEG_INFINITY,
        f32::MIN,
        -1.5,
        -f32::MIN_POSITIVE,
        -0.0,
        0.0,
        1.0e-40,
        0.05,
        8.0,
        f32::MAX,
        f32::INFINITY,
        f32::NAN,
    ];
    for &a in &xs {
        for &b in &xs {
            assert_eq!(bits(a).lt(bits(b)), a < b, "{} < {}", a, b);
            assert_eq!(bits(a).le(bits(b)), a <= b, "{} <= {}", a, b);
        }
        assert_eq!(bits(a).nan(), a.is_nan());
        assert_eq!(bits(a).neg().0, (-a).to_bits());
        assert_eq!(bits(a).neg().neg(), bits(a));
    }
}
