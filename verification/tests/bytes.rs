use hexapoda::bytes::{bytes_to_nat, color555_to_color888, nat_to_int_if_different};

#[test]
fn nat_to_int_tests() {
    assert_eq!(nat_to_int_if_different(0, 1), None);
    assert_eq!(nat_to_int_if_different(i8::MAX as u64, 1), None);
    assert_eq!(nat_to_int_if_different(i8::MAX as u64 + 1, 1), Some(i8::MIN.into()));
    assert_eq!(nat_to_int_if_different(u8::MAX.into(), 1), Some(-1));

    assert_eq!(nat_to_int_if_different(0, 2), None);
    assert_eq!(nat_to_int_if_different(i16::MAX as u64, 2), None);
    assert_eq!(nat_to_int_if_different(i16::MAX as u64 + 1, 2), Some(i16::MIN.into()));
    assert_eq!(nat_to_int_if_different(u16::MAX.into(), 2), Some(-1));
}

#[test]
fn nat_to_int_wider_and_odd_widths() {
    assert_eq!(nat_to_int_if_different(0x8000_0000, 4), Some(i32::MIN.into()));
    assert_eq!(nat_to_int_if_different(0x7FFF_FFFF, 4), None);
    assert_eq!(nat_to_int_if_different(u64::MAX, 8), Some(-1));
    assert_eq!(nat_to_int_if_different(i64::MAX as u64, 8), None);
    assert_eq!(nat_to_int_if_different(0xFF_FFFF, 3), None);
    assert_eq!(nat_to_int_if_different(200, 16), None);
}

#[test]
fn bytes_to_nat_is_little_endian() {
    assert_eq!(bytes_to_nat(&[0x01, 0x02]), Some(0x0201));
    assert_eq!(bytes_to_nat(&[0xff]), Some(255));
    assert_eq!(bytes_to_nat(&[]), Some(0));
    assert_eq!(bytes_to_nat(&[0x34, 0x12, 0, 0]), Some(0x1234));
}

#[test]
fn bytes_to_nat_ignores_high_zero_bytes() {
    let mut bytes = vec![7u8];
    bytes.extend([0u8; 12]);
    assert_eq!(bytes_to_nat(&bytes), Some(7));
}

#[test]
fn bytes_to_nat_too_large() {
    assert_eq!(bytes_to_nat(&[0xff; 8]), Some(u64::MAX));
    assert_eq!(bytes_to_nat(&[0, 0, 0, 0, 0, 0, 0, 0, 1]), None);
    assert_eq!(bytes_to_nat(&[1, 0, 0, 0, 0, 0, 0, 0, 0, 1]), None);
}

#[test]
fn color555_channels_are_scaled_by_eight() {
    assert_eq!(color555_to_color888(0b0_11111_00000_00001), [8, 0, 248]);
    assert_eq!(color555_to_color888(0x7FFF), [248, 248, 248]);
    assert_eq!(color555_to_color888(0), [0, 0, 0]);
}
