use avro_wire::allocation::{check_len, safe_len, AllocationLimit, DEFAULT_MAX_ALLOCATION_BYTES};
use avro_wire::bytes::{transform_u128_to_array_of_u8, transform_u64_to_array_of_u8};
use avro_wire::error::Error;
use avro_wire::zigzag::{decode_variable, read_long, zag_i32, zag_i64, zig_i32, zig_i64};

#[test]
fn test_zigzag() {
    let mut a = Vec::new();
    let mut b = Vec::new();
    zig_i32(42i32, &mut a);
    zig_i64(42i64, &mut b);
    assert_eq!(a, b);
}

#[test]
fn test_zig_i64() {
    let mut s = Vec::new();
    zig_i64(2147483647i64, &mut s);
    assert_eq!(s, [254, 255, 255, 255, 15]);

    s.clear();
    zig_i64(2147483648i64, &mut s);
    assert_eq!(s, [128, 128, 128, 128, 16]);

    s.clear();
    zig_i64(-2147483648i64, &mut s);
    assert_eq!(s, [255, 255, 255, 255, 15]);

    s.clear();
    zig_i64(-2147483649i64, &mut s);
    assert_eq!(s, [129, 128, 128, 128, 16]);
}

#[test]
fn test_overflow() {
    let causes_left_shift_overflow: &[u8] = &[0xe1, 0xe1, 0xe1, 0xe1, 0xe1];
    assert!(decode_variable(&mut &causes_left_shift_overflow[..]).is_err());
}

#[test]
fn test_safe_len() {
    assert_eq!(42usize, safe_len(42usize).unwrap());
    assert!(safe_len(1024 * 1024 * 1024).is_err());
}

#[test]
fn round_trip_at_the_boundaries() {
    let values: [i64; 10] = [
        0,
        -1,
        1,
        63,
        -64,
        i32::MIN as i64,
        i32::MAX as i64,
        i64::MIN,
        i64::MAX,
        i64::MIN + 1,
    ];
    for &n in values.iter() {
        let mut buf = Vec::new();
        zig_i64(n, &mut buf);
        buf.push(0xAB);
        let mut reader: &[u8] = &buf;
        assert_eq!(zag_i64(&mut reader).unwrap(), n);
        assert_eq!(reader, &[0xAB]);
    }
}

#[test]
fn round_trip_of_32_bit_values() {
    for &n in [0i32, -1, i32::MIN, i32::MAX, 12345, -12345].iter() {
        let mut buf = Vec::new();
        zig_i32(n, &mut buf);
        let mut reader: &[u8] = &buf;
        assert_eq!(zag_i32(&mut reader).unwrap(), n);
        assert!(reader.is_empty());
    }
}

#[test]
fn extreme_values_use_ten_bytes() {
    let mut buf = Vec::new();
    zig_i64(i64::MIN, &mut buf);
    assert_eq!(buf, [255, 255, 255, 255, 255, 255, 255, 255, 255, 1]);
    buf.clear();
    zig_i64(i64::MAX, &mut buf);
    assert_eq!(buf, [254, 255, 255, 255, 255, 255, 255, 255, 255, 1]);
}

#[test]
fn small_values_are_one_byte() {
    let mut buf = Vec::new();
    zig_i64(-1, &mut buf);
    zig_i64(1, &mut buf);
    zig_i64(-64, &mut buf);
    assert_eq!(buf, [1, 2, 127]);
}

#[test]
fn eleven_continuation_bytes_overflow() {
    let input = [0xE1u8; 11];
    let mut reader: &[u8] = &input;
    assert!(matches!(decode_variable(&mut reader), Err(Error::DecodeOverflow(_))));
    let ten = [0x80u8; 10];
    let mut reader: &[u8] = &ten;
    assert!(matches!(read_long(&mut reader), Err(Error::DecodeOverflow(_))));
}

#[test]
fn short_input_ends_inside_an_integer() {
    let input: &[u8] = &[0xe1, 0xe1, 0xe1, 0xe1, 0xe1];
    let mut reader = input;
    assert!(matches!(decode_variable(&mut reader), Err(Error::UnexpectedEnd)));
    let mut empty: &[u8] = &[];
    assert!(matches!(read_long(&mut empty), Err(Error::UnexpectedEnd)));
}

#[test]
fn tenth_group_keeps_only_the_low_bit() {
    let input = [0xFFu8, 0xFF, 0xFF, 0xFF, 0xFF, 0xFF, 0xFF, 0xFF, 0xFF, 0x7F, 0x05];
    let mut reader: &[u8] = &input;
    assert_eq!(decode_variable(&mut reader).unwrap(), u64::MAX);
    assert_eq!(reader, &[0x05]);
}

#[test]
fn decoding_reads_one_integer_at_a_time() {
    let input: &[u8] = &[0x96, 0x01, 0x03];
    let mut reader = input;
    assert_eq!(decode_variable(&mut reader).unwrap(), 150);
    assert_eq!(read_long(&mut reader).unwrap(), -2);
    assert!(reader.is_empty());
}

#[test]
fn int_out_of_range_is_rejected() {
    let mut buf = Vec::new();
    zig_i64(i32::MAX as i64 + 1, &mut buf);
    let mut reader: &[u8] = &buf;
    assert!(matches!(zag_i32(&mut reader), Err(Error::DecodeRange(_))));
    buf.clear();
    zig_i64(i32::MIN as i64 - 1, &mut buf);
    let mut reader: &[u8] = &buf;
    assert!(matches!(zag_i32(&mut reader), Err(Error::DecodeRange(_))));
}

#[test]
fn allocation_error_carries_both_numbers() {
    match safe_len(1024 * 1024 * 1024) {
        Err(Error::AllocationExceeded { requested, ceiling, .. }) => {
            assert_eq!(requested, 1024 * 1024 * 1024);
            assert_eq!(ceiling, 512 * 1024 * 1024);
        }
        _ => panic!("expected an allocation error"),
    }
    assert_eq!(safe_len(DEFAULT_MAX_ALLOCATION_BYTES).unwrap(), DEFAULT_MAX_ALLOCATION_BYTES);
    assert!(safe_len(DEFAULT_MAX_ALLOCATION_BYTES + 1).is_err());
    assert_eq!(check_len(10, 10).unwrap(), 10);
    assert!(check_len(11, 10).is_err());
}

#[test]
fn first_installed_ceiling_wins() {
    let mut limit = AllocationLimit::new();
    assert_eq!(limit.max_allocation_bytes(100), 100);
    assert_eq!(limit.max_allocation_bytes(5000), 100);
    assert_eq!(limit.safe_len(100).unwrap(), 100);
    assert!(limit.safe_len(101).is_err());
}

#[test]
fn first_check_freezes_the_default() {
    let mut limit = AllocationLimit::new();
    assert_eq!(limit.safe_len(42).unwrap(), 42);
    assert_eq!(limit.max_allocation_bytes(7), DEFAULT_MAX_ALLOCATION_BYTES);
    assert_eq!(limit.safe_len(1000).unwrap(), 1000);
}

#[test]
fn big_endian_bytes() {
    assert_eq!(
        transform_u64_to_array_of_u8(0x0102030405060708),
        [1, 2, 3, 4, 5, 6, 7, 8]
    );
    assert_eq!(transform_u64_to_array_of_u8(u64::MAX), [255; 8]);
    assert_eq!(
        transform_u128_to_array_of_u8(0x0102030405060708090a0b0c0d0e0f10),
        [1, 2, 3, 4, 5, 6, 7, 8, 9, 10, 11, 12, 13, 14, 15, 16]
    );
    assert_eq!(transform_u128_to_array_of_u8(0), [0; 16]);
}

#[test]
fn overflow_consumes_ten_bytes() {
    let mut input = vec![0x80u8; 10];
    input.push(0x01);
    input.push(0x02);
    let mut reader: &[u8] = &input;
    match decode_variable(&mut reader) {
        Err(Error::DecodeOverflow(e)) => assert_eq!(e.0, "overflow when decoding integer value"),
        _ => panic!("expected an overflow"),
    }
    assert_eq!(reader, &[0x01, 0x02]);
}

#[test]
fn short_input_is_consumed_whole() {
    let input: &[u8] = &[0x80, 0x81, 0xFF];
    let mut reader = input;
    assert!(matches!(zag_i64(&mut reader), Err(Error::UnexpectedEnd)));
    assert!(reader.is_empty());
}

#[test]
fn range_error_consumes_the_integer() {
    let mut buf = Vec::new();
    zig_i64(i64::MAX, &mut buf);
    buf.push(7);
    let mut reader: &[u8] = &buf;
    match zag_i32(&mut reader) {
        Err(Error::DecodeRange(e)) => assert_eq!(e.0, "int out of range"),
        _ => panic!("expected a range error"),
    }
    assert_eq!(reader, &[7]);
}
