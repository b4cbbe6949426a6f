use diesel_d1::date_and_time::{D1Date, D1Time, D1Timestamp};
use diesel_d1::types::{
    decode_blob, decode_bool, decode_date, decode_double_bits, decode_i16, decode_i32, decode_i64,
    decode_text, decode_time, decode_timestamp, encode, D1Scalar,
};
use diesel_d1::utils::{DecodeError, EncodeError};
use diesel_d1::value::{D1Value, TypedValue};

/// What the boundary outside the library does to an encoded value: nulls,
/// text and blobs pass through; integers become host numbers; doubles keep
/// their bits.
fn cross(tv: TypedValue) -> D1Value {
    match tv {
        TypedValue::Null => D1Value::Null,
        TypedValue::Integer(i) => {
            let f = i as f64;
            D1Value::Number { bits: f.to_bits(), whole: f as i64, exact: f as i64 == i && (f as i64) as f64 == f }
        }
        TypedValue::Double(bits) => {
            let f = f64::from_bits(bits);
            D1Value::Number { bits, whole: f as i64, exact: f == (f as i64) as f64 && !f.is_nan() }
        }
        TypedValue::Text(s) => D1Value::Text(s),
        TypedValue::Blob(b) => D1Value::Blob(b),
    }
}

#[test]
fn roundtrip_bool() {
    for v in [false, true] {
        let tv = encode(&D1Scalar::Bool(v)).unwrap();
        assert_eq!(decode_bool(&cross(tv)).unwrap(), v);
    }
}

#[test]
fn roundtrip_small_int() {
    for v in [0i16, 1, -1, i16::MIN, i16::MAX] {
        let tv = encode(&D1Scalar::SmallInt(v)).unwrap();
        assert_eq!(decode_i16(&cross(tv)).unwrap(), v);
    }
}

#[test]
fn roundtrip_integer() {
    for v in [0i32, 7, -7, i32::MIN, i32::MAX] {
        let tv = encode(&D1Scalar::Integer(v)).unwrap();
        assert_eq!(decode_i32(&cross(tv)).unwrap(), v);
    }
}

#[test]
fn roundtrip_big_int_within_exact_range() {
    for v in [0i64, 42, -42, 9007199254740992, -9007199254740992] {
        let tv = encode(&D1Scalar::BigInt(v)).unwrap();
        assert_eq!(decode_i64(&cross(tv)).unwrap(), v);
    }
}

#[test]
fn roundtrip_double_bits_including_nan_and_infinity() {
    for f in [0.0f64, -0.0, 1.5, -2.25, f64::NAN, f64::INFINITY, f64::NEG_INFINITY] {
        let tv = encode(&D1Scalar::Double(f.to_bits())).unwrap();
        assert_eq!(decode_double_bits(&cross(tv)).unwrap(), f.to_bits());
    }
}

#[test]
fn roundtrip_text() {
    let tv = encode(&D1Scalar::Text(String::from("hello ` world"))).unwrap();
    assert_eq!(decode_text(&cross(tv)).unwrap(), "hello ` world");
}

#[test]
fn roundtrip_blob() {
    let tv = encode(&D1Scalar::Blob(vec![0u8, 255, 7])).unwrap();
    assert_eq!(decode_blob(&cross(tv)).unwrap(), vec![0u8, 255, 7]);
}

#[test]
fn roundtrip_date() {
    let d = D1Date { year: 2024, month: 2, day: 29 };
    let tv = encode(&D1Scalar::Date(d)).unwrap();
    assert!(matches!(&tv, TypedValue::Text(s) if s == "2024-02-29"));
    assert_eq!(decode_date(&cross(tv)).unwrap(), d);
}

#[test]
fn roundtrip_time_with_and_without_fraction() {
    let whole = D1Time { hour: 10, minute: 0, second: 0, nanosecond: 0 };
    let tv = encode(&D1Scalar::Time(whole)).unwrap();
    assert!(matches!(&tv, TypedValue::Text(s) if s == "10:00:00"));
    assert_eq!(decode_time(&cross(tv)).unwrap(), whole);

    let frac = D1Time { hour: 23, minute: 59, second: 59, nanosecond: 500_000_000 };
    let tv = encode(&D1Scalar::Time(frac)).unwrap();
    assert!(matches!(&tv, TypedValue::Text(s) if s == "23:59:59.500"));
    assert_eq!(decode_time(&cross(tv)).unwrap(), frac);
}

#[test]
fn roundtrip_timestamp() {
    let ts = D1Timestamp {
        date: D1Date { year: 2021, month: 7, day: 1 },
        time: D1Time { hour: 10, minute: 0, second: 0, nanosecond: 0 },
    };
    let tv = encode(&D1Scalar::Timestamp(ts)).unwrap();
    assert!(matches!(&tv, TypedValue::Text(s) if s == "2021-07-01 10:00:00"));
    assert_eq!(decode_timestamp(&cross(tv)).unwrap(), ts);
}

#[test]
fn bool_rejects_other_numbers_as_corrupt() {
    let two = D1Value::Number { bits: 2.0f64.to_bits(), whole: 2, exact: true };
    assert_eq!(decode_bool(&two), Err(DecodeError::CorruptBoolean));
    let half = D1Value::Number { bits: 0.5f64.to_bits(), whole: 0, exact: false };
    assert_eq!(decode_bool(&half), Err(DecodeError::CorruptBoolean));
    assert_eq!(decode_bool(&D1Value::Text(String::from("1"))), Err(DecodeError::TypeMismatch));
}

#[test]
fn integer_narrowing_saturates() {
    let big = D1Value::Number { bits: 1e10f64.to_bits(), whole: 10_000_000_000, exact: true };
    assert_eq!(decode_i16(&big).unwrap(), i16::MAX);
    assert_eq!(decode_i32(&big).unwrap(), i32::MAX);
    assert_eq!(decode_i64(&big).unwrap(), 10_000_000_000);
}

#[test]
fn blob_requires_byte_array_shape() {
    assert_eq!(decode_blob(&D1Value::Text(String::from("xx"))), Err(DecodeError::TypeMismatch));
    assert_eq!(decode_text(&D1Value::Null), Err(DecodeError::TypeMismatch));
}

#[test]
fn encode_rejects_malformed_dates() {
    let bad = D1Date { year: 2023, month: 2, day: 29 };
    assert_eq!(encode(&D1Scalar::Date(bad)), Err(EncodeError::MalformedScalar));
    let bad_time = D1Time { hour: 24, minute: 0, second: 0, nanosecond: 0 };
    assert_eq!(encode(&D1Scalar::Time(bad_time)), Err(EncodeError::MalformedScalar));
}

#[test]
fn timestamp_decodes_zoned_text_pattern() {
    let v = D1Value::Text(String::from("2021-07-01T10:00:00Z"));
    let ts = decode_timestamp(&v).unwrap();
    assert_eq!(
        ts,
        D1Timestamp {
            date: D1Date { year: 2021, month: 7, day: 1 },
            time: D1Time { hour: 10, minute: 0, second: 0, nanosecond: 0 },
        }
    );
}

#[test]
fn timestamp_decodes_julian_day_number() {
    let v = D1Value::Text(String::from("2459396.5"));
    let ts = decode_timestamp(&v).unwrap();
    assert_eq!(
        ts,
        D1Timestamp {
            date: D1Date { year: 2021, month: 7, day: 1 },
            time: D1Time { hour: 0, minute: 0, second: 0, nanosecond: 0 },
        }
    );
}

#[test]
fn timestamp_decode_failure_carries_original_text() {
    let v = D1Value::Text(String::from("not-a-date"));
    assert_eq!(
        decode_timestamp(&v),
        Err(DecodeError::Parse(String::from("not-a-date")))
    );
}

#[test]
fn time_accepts_documented_patterns() {
    let t = |s: &str| decode_time(&D1Value::Text(String::from(s)));
    let base = D1Time { hour: 10, minute: 30, second: 0, nanosecond: 0 };
    assert_eq!(t("10:30").unwrap(), base);
    assert_eq!(t("10:30Z").unwrap(), base);
    assert_eq!(t("10:30+05:00").unwrap(), base);
    assert_eq!(t("10:30:00").unwrap(), base);
    assert_eq!(t("10:30:00.25-03:30").unwrap(), D1Time { nanosecond: 250_000_000, ..base });
    assert!(t("10:30:00.").is_err());
    assert!(t("25:00:00").is_err());
}

#[test]
fn timestamp_accepts_t_and_space_separators_with_offsets() {
    let p = |s: &str| decode_timestamp(&D1Value::Text(String::from(s)));
    let expect = D1Timestamp {
        date: D1Date { year: 1999, month: 12, day: 31 },
        time: D1Time { hour: 23, minute: 59, second: 59, nanosecond: 0 },
    };
    assert_eq!(p("1999-12-31 23:59:59").unwrap(), expect);
    assert_eq!(p("1999-12-31T23:59:59").unwrap(), expect);
    assert_eq!(p("1999-12-31T23:59:59+01:00").unwrap(), expect);
    assert_eq!(p("1999-12-31 23:59").unwrap(), D1Timestamp {
        time: D1Time { second: 0, ..expect.time },
        ..expect
    });
}

#[test]
fn julian_negative_fraction_truncates_to_whole_seconds() {
    // one and a half days before the count's epoch: seconds are truncated
    // toward zero and the fraction of a pre-epoch instant is dropped
    let v = D1Value::Text(String::from("2440586.0"));
    let ts = decode_timestamp(&v).unwrap();
    assert_eq!(
        ts,
        D1Timestamp {
            date: D1Date { year: 1969, month: 12, day: 30 },
            time: D1Time { hour: 12, minute: 0, second: 0, nanosecond: 0 },
        }
    );
}

#[test]
fn date_validity_is_checked_against_the_calendar() {
    let p = |s: &str| decode_date(&D1Value::Text(String::from(s)));
    assert!(p("2023-02-29").is_err());
    assert!(p("2024-02-29").is_ok());
    assert!(p("2023-04-31").is_err());
    assert!(p("2023-13-01").is_err());
    assert!(p("2023-2-9").is_err());
    assert_eq!(
        p("oops"),
        Err(DecodeError::Parse(String::from("oops")))
    );
}

#[test]
fn julian_out_of_range_day_counts_are_rejected() {
    let p = |s: &str| decode_timestamp(&D1Value::Text(String::from(s)));
    assert!(p("99999999999").is_err());
    assert!(p("-2459396.5").is_err());
    // thirteen fraction digits fall outside the decimal grammar
    assert!(p("2459396.1234567890123").is_err());
    assert!(p("2459396.123456789012").is_ok());
}

#[test]
fn null_check_and_accessors_follow_the_value_shape() {
    assert!(D1Value::Null.check_null());
    let text = D1Value::Text(String::from("x"));
    assert!(!text.check_null());
    assert_eq!(text.read_string().unwrap(), "x");
    assert!(text.read_blob().is_none());
    assert!(text.read_number().is_none());
    let num = D1Value::Number { bits: 1.0f64.to_bits(), whole: 1, exact: true };
    assert_eq!(num.read_number(), Some((1.0f64.to_bits(), 1, true)));
}
