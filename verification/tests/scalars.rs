use ampiato::{decode_i64, decode_time, ColumnValue, ParseError, Time};

fn text(bytes: &[u8]) -> ColumnValue {
    ColumnValue::Text { length: bytes.len() as u32, data: bytes.to_vec() }
}

fn binary(bytes: &[u8]) -> ColumnValue {
    ColumnValue::Binary { length: bytes.len() as u32, data: bytes.to_vec() }
}

#[test]
fn i64_from_decimal_text() {
    assert_eq!(decode_i64(&text(b"123")), Ok(123));
    assert_eq!(decode_i64(&text(b"-45")), Ok(-45));
    assert_eq!(decode_i64(&text(b"+7")), Ok(7));
    assert_eq!(decode_i64(&text(b"0007")), Ok(7));
    assert_eq!(decode_i64(&text(b"9223372036854775807")), Ok(i64::MAX));
    assert_eq!(decode_i64(&text(b"-9223372036854775808")), Ok(i64::MIN));
}

#[test]
fn i64_text_errors() {
    assert_eq!(decode_i64(&text(b"")), Err(ParseError::ParseIntError));
    assert_eq!(decode_i64(&text(b"-")), Err(ParseError::ParseIntError));
    assert_eq!(decode_i64(&text(b"12a")), Err(ParseError::ParseIntError));
    assert_eq!(decode_i64(&text(b"9223372036854775808")), Err(ParseError::ParseIntError));
    assert_eq!(decode_i64(&text(&[0xFF, 0xFE])), Err(ParseError::Utf8Error));
}

#[test]
fn i64_from_binary_big_endian() {
    assert_eq!(decode_i64(&binary(&[0x01, 0x00])), Ok(256));
    assert_eq!(decode_i64(&binary(&[0x7F])), Ok(127));
    assert_eq!(decode_i64(&binary(&[0xFF])), Ok(-1));
    assert_eq!(decode_i64(&binary(&[0xFF, 0xFF, 0xFF, 0xFF, 0xFF, 0xFF, 0xFF, 0xFF])), Ok(-1));
    assert_eq!(
        decode_i64(&binary(&[0x80, 0x00, 0x00, 0x00, 0x00, 0x00, 0x00, 0x00])),
        Ok(i64::MIN)
    );
    assert_eq!(decode_i64(&binary(&[0x80])), Ok(-128));
}

#[test]
fn i64_binary_width_errors() {
    assert_eq!(decode_i64(&binary(&[])), Err(ParseError::InvalidWidth));
    assert_eq!(decode_i64(&binary(&[0; 9])), Err(ParseError::InvalidWidth));
}

#[test]
fn i64_null_column_is_invalid() {
    let null = ColumnValue::Null { length: 0, data: vec![] };
    assert_eq!(decode_i64(&null), Err(ParseError::InvalidColumnKind));
}

#[test]
fn time_from_text_without_zone() {
    assert_eq!(decode_time(&text(b"1970-01-01 00:00:10")), Ok(Time(10)));
}

#[test]
fn time_from_text_with_zone() {
    assert_eq!(decode_time(&text(b"1970-01-01 00:00:10+00")), Ok(Time(10)));
}

#[test]
fn time_text_errors() {
    assert_eq!(decode_time(&text(b"not a time")), Err(ParseError::ChronoParseError));
    assert_eq!(decode_time(&text(&[0xFF])), Err(ParseError::Utf8Error));
}

#[test]
fn time_from_binary_microseconds() {
    assert_eq!(decode_time(&binary(&[0x00])), Ok(Time(946_684_800)));
    let us: i64 = 5_000_000;
    assert_eq!(decode_time(&binary(&us.to_be_bytes())), Ok(Time(946_684_805)));
}

#[test]
fn time_rfc3339_round() {
    assert_eq!(Time::from_string("1970-01-01T00:00:10+00:00"), Ok(Time(10)));
    assert_eq!(
        Time::from_string("2024-01-18T02:00:00+01:00"),
        Ok(Time(1_705_539_600))
    );
    assert!(matches!(
        Time::from_string("not a date"),
        Err(ParseError::ChronoParseError)
    ));
    assert_eq!(Time(0).to_string(), "1970-01-01T00:00:00+00:00".to_string());
}

#[test]
fn time_arithmetic_and_epochs() {
    assert_eq!(Time::from_timestamp(42).timestamp(), 42);
    assert_eq!(Time(40).plus(Time(2)), Time(42));
    assert_eq!(Time(40).plus_seconds(5), Time(45));
    assert_eq!(Time::from_microseconds_since_postgres_epoch(1_000_000), Time(946_684_801));
    assert_eq!(Time::from_microseconds_since_postgres_epoch(-1_000_000), Time(946_684_799));
}

#[test]
fn parse_error_descriptions() {
    assert_eq!(ParseError::Utf8Error.describe(), "invalid UTF-8".to_string());
    let e = ParseError::UnexpectedEof.to_error();
    assert!(matches!(e, ampiato::Error::ReplicationError { .. }));
}
