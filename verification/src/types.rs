//! The value codec: the bidirectional marshaller between the framework's
//! typed scalars and the host's dynamic values.
//!
//! Encoding reduces every framework column type to one wire tag: booleans and
//! fixed-width integers to integers, floats to doubles, the date/time family
//! to canonical text. Decoding recovers the typed scalar from the dynamic
//! host value and the declared column type alone; all type recovery happens
//! at this one seam.

use vstd::prelude::*;
use crate::date_and_time::{
    date_text, date_wf, time_text, time_wf, timestamp_text, timestamp_wf, format_date, format_time,
    format_timestamp, D1Date, D1Time, D1Timestamp,
};
use crate::utils::{DecodeError, EncodeError};
use crate::value::{D1Value, TypedValue};

verus! {

/// A typed scalar of the framework, as it stands before encoding or after
/// decoding. Double-width floats are carried as their IEEE-754 bit pattern:
/// the adapter passes them through with no transformation, and the narrower
/// float width is widened to this one at the boundary outside this crate.
#[derive(Debug, Clone, PartialEq, Eq)]
pub enum D1Scalar {
    Null,
    Bool(bool),
    SmallInt(i16),
    Integer(i32),
    BigInt(i64),
    /// The IEEE-754 bit pattern of a 64-bit float.
    Double(u64),
    Text(String),
    Blob(Vec<u8>),
    Date(D1Date),
    Time(D1Time),
    Timestamp(D1Timestamp),
}

/// A scalar is well-formed when its date/time components, if any, are on the
/// calendar; every other scalar is well-formed outright.
pub open spec fn scalar_wf(s: D1Scalar) -> bool {
    match s {
        D1Scalar::Date(d) => date_wf(d),
        D1Scalar::Time(t) => time_wf(t),
        D1Scalar::Timestamp(ts) => timestamp_wf(ts),
        _ => true,
    }
}

/// The encoding relation: `tv` is the wire value for the scalar `s`. Booleans
/// encode as integer zero or one; fixed-width integers widen to 64 bits;
/// doubles keep their bits; text and blobs pass through; dates, times and
/// timestamps encode as their canonical text.
pub open spec fn encodes(s: D1Scalar, tv: TypedValue) -> bool {
    match s {
        D1Scalar::Null => tv is Null,
        D1Scalar::Bool(b) => tv == TypedValue::Integer(
            if b {
                1int as i64
            } else {
                0int as i64
            },
        ),
        D1Scalar::SmallInt(i) => tv == TypedValue::Integer(i as i64),
        D1Scalar::Integer(i) => tv == TypedValue::Integer(i as i64),
        D1Scalar::BigInt(i) => tv == TypedValue::Integer(i),
        D1Scalar::Double(b) => tv == TypedValue::Double(b),
        D1Scalar::Text(t) => tv matches TypedValue::Text(u) && u@ == t@,
        D1Scalar::Blob(b) => tv matches TypedValue::Blob(w) && w@ == b@,
        D1Scalar::Date(d) => tv matches TypedValue::Text(u) && u@ == date_text(d),
        D1Scalar::Time(t) => tv matches TypedValue::Text(u) && u@ == time_text(t),
        D1Scalar::Timestamp(ts) => tv matches TypedValue::Text(u) && u@ == timestamp_text(ts),
    }
}

/// Copy a byte sequence.
fn clone_bytes(v: &Vec<u8>) -> (r: Vec<u8>)
    ensures
        r@ == v@,
{
    let mut r: Vec<u8> = Vec::new();
    let mut i: usize = 0;
    while i < v.len()
        invariant
            i <= v.len(),
            r@ == v@.take(i as int),
        decreases v.len() - i,
    {
        r.push(v[i]);
        proof {
            assert(v@.take(i + 1) =~= v@.take(i as int).push(v@[i as int]));
        }
        i = i + 1;
    }
    proof {
        assert(v@.take(v@.len() as int) =~= v@);
    }
    r
}

/// Encode one typed scalar as the wire value shipped to the host. Succeeds
/// exactly on well-formed scalars; a malformed date/time has no canonical
/// encoding and is rejected.
pub fn encode(s: &D1Scalar) -> (r: Result<TypedValue, EncodeError>)
    ensures
        match r {
            Ok(tv) => scalar_wf(*s) && encodes(*s, tv),
            Err(e) => !scalar_wf(*s) && e == EncodeError::MalformedScalar,
        },
{
    match s {
        D1Scalar::Null => Ok(TypedValue::Null),
        D1Scalar::Bool(b) => Ok(
            TypedValue::Integer(
                if *b {
                    1
                } else {
                    0
                },
            ),
        ),
        D1Scalar::SmallInt(i) => Ok(TypedValue::Integer(*i as i64)),
        D1Scalar::Integer(i) => Ok(TypedValue::Integer(*i as i64)),
        D1Scalar::BigInt(i) => Ok(TypedValue::Integer(*i)),
        D1Scalar::Double(b) => Ok(TypedValue::Double(*b)),
        D1Scalar::Text(t) => Ok(TypedValue::Text(t.clone())),
        D1Scalar::Blob(b) => Ok(TypedValue::Blob(clone_bytes(b))),
        D1Scalar::Date(d) => {
            if d.year <= 9999 && 1 <= d.month && d.month <= 12 && 1 <= d.day && d.day
                <= crate::date_and_time::days_in_month(d.year, d.month) {
                Ok(TypedValue::Text(format_date(d)))
            } else {
                Err(EncodeError::MalformedScalar)
            }
        },
        D1Scalar::Time(t) => {
            if t.hour <= 23 && t.minute <= 59 && t.second <= 59 && t.nanosecond < 1000000000 {
                Ok(TypedValue::Text(format_time(t)))
            } else {
                Err(EncodeError::MalformedScalar)
            }
        },
        D1Scalar::Timestamp(ts) => {
            if ts.date.year <= 9999 && 1 <= ts.date.month && ts.date.month <= 12 && 1 <= ts.date.day
                && ts.date.day <= crate::date_and_time::days_in_month(ts.date.year, ts.date.month)
                && ts.time.hour <= 23 && ts.time.minute <= 59 && ts.time.second <= 59
                && ts.time.nanosecond < 1000000000 {
                Ok(TypedValue::Text(format_timestamp(ts)))
            } else {
                Err(EncodeError::MalformedScalar)
            }
        },
    }
}

/// Clamp an integer into an inclusive range.
pub open spec fn clamp(w: int, lo: int, hi: int) -> int {
    if w < lo {
        lo
    } else if w > hi {
        hi
    } else {
        w
    }
}

/// Decode a boolean. Any numeric host value other than exactly zero or one is
/// a corrupt data contract; a non-numeric host value is a type mismatch.
pub fn decode_bool(v: &D1Value) -> (r: Result<bool, DecodeError>)
    ensures
        match r {
            Ok(b) => *v matches D1Value::Number { whole, exact, .. } && exact && (whole == 0 || whole
                == 1) && b == (whole == 1),
            Err(DecodeError::CorruptBoolean) => *v matches D1Value::Number { whole, exact, .. } && !(
            exact && (whole == 0 || whole == 1)),
            Err(DecodeError::TypeMismatch) => !(v is Number),
            Err(_) => false,
        },
{
    match v {
        D1Value::Number { bits: _, whole, exact } => {
            if *exact && (*whole == 0 || *whole == 1) {
                Ok(*whole == 1)
            } else {
                Err(DecodeError::CorruptBoolean)
            }
        },
        _ => Err(DecodeError::TypeMismatch),
    }
}

/// Decode a 16-bit integer by narrowing the host number's truncation,
/// saturating at the type's bounds; precision loss is accepted silently.
pub fn decode_i16(v: &D1Value) -> (r: Result<i16, DecodeError>)
    ensures
        match r {
            Ok(x) => *v matches D1Value::Number { whole, .. } && x == clamp(
                whole as int,
                -32768,
                32767,
            ),
            Err(DecodeError::TypeMismatch) => !(v is Number),
            Err(_) => false,
        },
{
    match v {
        D1Value::Number { bits: _, whole, exact: _ } => {
            if *whole < -32768 {
                Ok(i16::MIN)
            } else if *whole > 32767 {
                Ok(i16::MAX)
            } else {
                Ok(*whole as i16)
            }
        },
        _ => Err(DecodeError::TypeMismatch),
    }
}

/// Decode a 32-bit integer by narrowing the host number's truncation,
/// saturating at the type's bounds; precision loss is accepted silently.
pub fn decode_i32(v: &D1Value) -> (r: Result<i32, DecodeError>)
    ensures
        match r {
            Ok(x) => *v matches D1Value::Number { whole, .. } && x == clamp(
                whole as int,
                -2147483648,
                2147483647,
            ),
            Err(DecodeError::TypeMismatch) => !(v is Number),
            Err(_) => false,
        },
{
    match v {
        D1Value::Number { bits: _, whole, exact: _ } => {
            if *whole < -2147483648 {
                Ok(i32::MIN)
            } else if *whole > 2147483647 {
                Ok(i32::MAX)
            } else {
                Ok(*whole as i32)
            }
        },
        _ => Err(DecodeError::TypeMismatch),
    }
}

/// Decode a 64-bit integer: the host number truncated toward zero. Magnitudes
/// beyond the host's exact-integer range lose precision silently; that loss
/// is a documented limitation, not corrected here.
pub fn decode_i64(v: &D1Value) -> (r: Result<i64, DecodeError>)
    ensures
        match r {
            Ok(x) => *v matches D1Value::Number { whole, .. } && x == whole,
            Err(DecodeError::TypeMismatch) => !(v is Number),
            Err(_) => false,
        },
{
    match v {
        D1Value::Number { bits: _, whole, exact: _ } => Ok(*whole),
        _ => Err(DecodeError::TypeMismatch),
    }
}

/// Decode a 64-bit float as its untouched bit pattern.
pub fn decode_double_bits(v: &D1Value) -> (r: Result<u64, DecodeError>)
    ensures
        match r {
            Ok(b) => *v matches D1Value::Number { bits, .. } && b == bits,
            Err(DecodeError::TypeMismatch) => !(v is Number),
            Err(_) => false,
        },
{
    match v {
        D1Value::Number { bits, whole: _, exact: _ } => Ok(*bits),
        _ => Err(DecodeError::TypeMismatch),
    }
}

/// Decode text: the host value passes through unchanged.
pub fn decode_text(v: &D1Value) -> (r: Result<String, DecodeError>)
    ensures
        match r {
            Ok(s) => *v matches D1Value::Text(t) && s@ == t@,
            Err(DecodeError::TypeMismatch) => !(v is Text),
            Err(_) => false,
        },
{
    match v {
        D1Value::Text(t) => Ok(t.clone()),
        _ => Err(DecodeError::TypeMismatch),
    }
}

/// Decode a blob: the host value must be byte-array-shaped.
pub fn decode_blob(v: &D1Value) -> (r: Result<Vec<u8>, DecodeError>)
    ensures
        match r {
            Ok(b) => *v matches D1Value::Blob(w) && b@ == w@,
            Err(DecodeError::TypeMismatch) => !(v is Blob),
            Err(_) => false,
        },
{
    match v {
        D1Value::Blob(w) => Ok(clone_bytes(w)),
        _ => Err(DecodeError::TypeMismatch),
    }
}

} // verus!

verus! {

/// Decode a date: the host value must be text in the canonical date format.
/// A failed parse is a decode error carrying the original text.
pub fn decode_date(v: &D1Value) -> (r: Result<D1Date, DecodeError>)
    ensures
        match r {
            Ok(d) => *v matches D1Value::Text(t) && date_wf(d) && t@ == date_text(d),
            Err(DecodeError::Parse(txt)) => *v matches D1Value::Text(t) && txt@ == t@ && (forall|
                d: D1Date,
            |
                date_wf(d) ==> t@ != date_text(d)),
            Err(DecodeError::TypeMismatch) => !(v is Text),
            Err(_) => false,
        },
{
    match v {
        D1Value::Text(t) => match crate::date_and_time::parse_date(t.as_str()) {
            Some(d) => Ok(d),
            None => Err(DecodeError::Parse(t.clone())),
        },
        _ => Err(DecodeError::TypeMismatch),
    }
}

/// Decode a time of day: the host value must be text in one of the accepted
/// time patterns. A failed parse is a decode error carrying the original
/// text.
pub fn decode_time(v: &D1Value) -> (r: Result<D1Time, DecodeError>)
    ensures
        match r {
            Ok(t) => *v matches D1Value::Text(u) && time_wf(t)
                && crate::date_and_time::time_matches(u@, t),
            Err(DecodeError::Parse(txt)) => *v matches D1Value::Text(u) && txt@ == u@ && (forall|
                t: D1Time,
            |
                time_wf(t) ==> !crate::date_and_time::time_matches(u@, t)),
            Err(DecodeError::TypeMismatch) => !(v is Text),
            Err(_) => false,
        },
{
    match v {
        D1Value::Text(u) => match crate::date_and_time::parse_time(u.as_str()) {
            Some(t) => Ok(t),
            None => Err(DecodeError::Parse(u.clone())),
        },
        _ => Err(DecodeError::TypeMismatch),
    }
}

/// Decode a timestamp: the host value must be text. The textual patterns are
/// tried first; if none fits, the text is read as a decimal day count; if
/// that also fails, the decode error carries the original text.
pub fn decode_timestamp(v: &D1Value) -> (r: Result<D1Timestamp, DecodeError>)
    ensures
        match r {
            Ok(ts) => *v matches D1Value::Text(u) && timestamp_wf(ts) && (
            crate::date_and_time::timestamp_matches(u@, ts) || ((forall|ts2: D1Timestamp|
                timestamp_wf(ts2) ==> !crate::date_and_time::timestamp_matches(u@, ts2))
                && exists|dot: int|
                {
                    &&& #[trigger] crate::julian::julian_split(u@, dot)
                    &&& crate::julian::MIN_TIMESTAMP_SECONDS <= crate::julian::julian_seconds(
                        u@,
                        dot,
                    ) < crate::julian::MAX_TIMESTAMP_SECONDS
                    &&& crate::julian::unix_seconds_of(ts) == crate::julian::julian_seconds(u@, dot)
                    &&& ts.time.nanosecond == crate::julian::julian_nanos(u@, dot)
                })),
            Err(DecodeError::Parse(txt)) => {
                &&& *v matches D1Value::Text(u)
                &&& txt@ == u@
                &&& forall|ts: D1Timestamp|
                    timestamp_wf(ts) ==> !crate::date_and_time::timestamp_matches(u@, ts)
                &&& forall|dot: int|
                    #[trigger] crate::julian::julian_split(u@, dot) ==> !(
                    crate::julian::MIN_TIMESTAMP_SECONDS <= crate::julian::julian_seconds(u@, dot)
                        < crate::julian::MAX_TIMESTAMP_SECONDS)
            },
            Err(DecodeError::TypeMismatch) => !(v is Text),
            Err(_) => false,
        },
{
    match v {
        D1Value::Text(u) => match crate::date_and_time::parse_timestamp(u.as_str()) {
            Some(ts) => Ok(ts),
            None => match crate::julian::parse_julian(u.as_str()) {
                Some(ts) => Ok(ts),
                None => Err(DecodeError::Parse(u.clone())),
            },
        },
        _ => Err(DecodeError::TypeMismatch),
    }
}

} // verus!
