use sdp::number::{decode_port, decode_time, to_i32, to_u16, to_u64, IntError};

fn u64_of(s: &str) -> Result<u64, IntError> {
    to_u64(s.as_bytes(), 0, s.len())
}

#[test]
fn reads_u64() {
    assert_eq!(u64_of("2890844526"), Ok(2890844526));
    assert_eq!(u64_of("+7"), Ok(7));
    assert_eq!(u64_of("0007"), Ok(7));
    assert_eq!(u64_of("18446744073709551615"), Ok(u64::MAX));
}

#[test]
fn u64_errors_are_told_apart() {
    assert_eq!(u64_of("18446744073709551616"), Err(IntError::Overflow));
    assert_eq!(u64_of("99999999999999999999999"), Err(IntError::Overflow));
    assert_eq!(u64_of(""), Err(IntError::Digits));
    assert_eq!(u64_of("+"), Err(IntError::Digits));
    assert_eq!(u64_of("-1"), Err(IntError::Digits));
    assert_eq!(u64_of("1a"), Err(IntError::Digits));
    assert_eq!(u64_of("99999999999999999999x"), Err(IntError::Digits));
    assert_eq!(to_u64(&[0xff], 0, 1), Err(IntError::Encoding));
    assert_eq!(to_u64(&[b'1', 0xc3], 0, 2), Err(IntError::Encoding));
    assert_eq!(u64_of("é"), Err(IntError::Digits));
}

#[test]
fn reads_within_a_range() {
    let b = b"xx42yy";
    assert_eq!(to_u64(b, 2, 4), Ok(42));
    assert_eq!(to_u16(b, 2, 4), Ok(42));
}

#[test]
fn reads_u16() {
    assert_eq!(to_u16(b"65535", 0, 5), Ok(65535));
    assert_eq!(to_u16(b"65536", 0, 5), Err(IntError::Overflow));
    assert_eq!(to_u16(b"6x", 0, 2), Err(IntError::Digits));
}

#[test]
fn reads_i32() {
    assert_eq!(to_i32(b"-2147483648", 0, 11), Ok(i32::MIN));
    assert_eq!(to_i32(b"2147483647", 0, 10), Ok(i32::MAX));
    assert_eq!(to_i32(b"2147483648", 0, 10), Err(IntError::Overflow));
    assert_eq!(to_i32(b"-2147483649", 0, 11), Err(IntError::Overflow));
    assert_eq!(to_i32(b"+12", 0, 3), Ok(12));
    assert_eq!(to_i32(b"-", 0, 1), Err(IntError::Digits));
    assert_eq!(to_i32(b"-+1", 0, 3), Err(IntError::Digits));
    assert_eq!(to_i32(&[b'-', 0x80], 0, 2), Err(IntError::Encoding));
}

#[test]
fn decodes_times() {
    assert_eq!(decode_time(b"0", 0, 1, 0), Some(0));
    assert_eq!(decode_time(b"0", 0, 1, u64::MAX), Some(u64::MAX));
    assert_eq!(decode_time(b"3034423619", 0, 10, 0), Some(825434819));
    assert_eq!(decode_time(b"00", 0, 2, 0), None);
    assert_eq!(decode_time(b"x", 0, 1, 0), None);
}

#[test]
fn decodes_ports() {
    assert_eq!(decode_port(b"49170", 0, 5), Some((49170, 1)));
    assert_eq!(decode_port(b"49170/2", 0, 7), Some((49170, 2)));
    assert_eq!(decode_port(b"49170/-3", 0, 8), Some((49170, -3)));
    assert_eq!(decode_port(b"49170/", 0, 6), None);
    assert_eq!(decode_port(b"/2", 0, 2), None);
    assert_eq!(decode_port(b"1/2/3", 0, 5), None);
}
