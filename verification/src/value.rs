//! The two sides of the host boundary: the typed wire value the adapter ships
//! out, and the dynamic host value it reads back.
//!
//! The host's value space is dynamically typed and has no native booleans,
//! fixed-width integers or date/time values; its one number type is a 64-bit
//! float. This crate carries no floating point of its own, so a host number is
//! modelled by the three plain projections the decoding logic reads: its
//! IEEE-754 bit pattern, its truncation to a 64-bit integer, and whether that
//! truncation is exact. The boundary code outside this crate computes the
//! projections; everything downstream of them is verified.

use vstd::prelude::*;

verus! {

/// The largest integer magnitude a 64-bit float represents exactly
/// (two to the fifty-third power). Crossing the host boundary is lossless for
/// integers up to this magnitude and silently lossy beyond it.
pub const JS_EXACT_INTEGER_MAX: i64 = 9007199254740992;

/// An encoded value as shipped to the host: a tagged union over null,
/// 64-bit integers, 64-bit floats (carried as their bit pattern), text and
/// byte sequences. Every framework column type reduces to one of these tags.
#[derive(Debug, Clone, PartialEq, Eq)]
pub enum TypedValue {
    Null,
    Integer(i64),
    /// The IEEE-754 bit pattern of a 64-bit float, passed through untouched.
    Double(u64),
    Text(String),
    Blob(Vec<u8>),
}

/// A dynamic value handed back by the host: one field of one result row.
#[derive(Debug, Clone, PartialEq, Eq)]
pub enum D1Value {
    /// The host value is null or undefined.
    Null,
    /// A host number, seen through the three projections the codec reads.
    Number {
        /// The IEEE-754 bit pattern of the number.
        bits: u64,
        /// The number truncated toward zero and saturated to 64 bits; zero
        /// when the number is not a number at all.
        whole: i64,
        /// True when the number is integral and equals `whole` exactly.
        exact: bool,
    },
    Text(String),
    Blob(Vec<u8>),
}

impl D1Value {
    /// Whether the host value is null or undefined.
    pub fn check_null(&self) -> (r: bool)
        ensures
            r == (self is Null),
    {
        match self {
            D1Value::Null => true,
            _ => false,
        }
    }

    /// The text of a string-shaped host value.
    pub fn read_string(&self) -> (r: Option<&String>)
        ensures
            match r {
                Some(s) => self matches D1Value::Text(t) && t == s,
                None => !(self is Text),
            },
    {
        match self {
            D1Value::Text(s) => Some(s),
            _ => None,
        }
    }

    /// The bytes of a byte-array-shaped host value.
    pub fn read_blob(&self) -> (r: Option<&Vec<u8>>)
        ensures
            match r {
                Some(b) => self matches D1Value::Blob(w) && w == b,
                None => !(self is Blob),
            },
    {
        match self {
            D1Value::Blob(b) => Some(b),
            _ => None,
        }
    }
}

/// How the host may hand an encoded value back. The host keeps nulls, text
/// and blobs intact; an integer becomes a host number, exactly when its
/// magnitude is within [`JS_EXACT_INTEGER_MAX`] and with an unspecified
/// rounding beyond that; a double keeps its bit pattern. This is a relation,
/// not a function: the bit pattern a crossing integer acquires is float
/// arithmetic and is left open here.
pub open spec fn crosses(tv: TypedValue, hv: D1Value) -> bool {
    match tv {
        TypedValue::Null => hv is Null,
        TypedValue::Integer(i) => match hv {
            D1Value::Number { bits, whole, exact } => {
                -JS_EXACT_INTEGER_MAX <= i <= JS_EXACT_INTEGER_MAX ==> (whole == i && exact)
            },
            _ => false,
        },
        TypedValue::Double(b) => match hv {
            D1Value::Number { bits, whole, exact } => bits == b,
            _ => false,
        },
        TypedValue::Text(s) => match hv {
            D1Value::Text(t) => t@ == s@,
            _ => false,
        },
        TypedValue::Blob(v) => match hv {
            D1Value::Blob(w) => w@ == v@,
            _ => false,
        },
    }
}

} // verus!

verus! {

impl D1Value {
    /// The projections of a number-shaped host value: its bit pattern, its
    /// truncation toward zero, and whether the truncation is exact.
    pub fn read_number(&self) -> (r: Option<(u64, i64, bool)>)
        ensures
            match r {
                Some((bits, whole, exact)) => *self == (D1Value::Number { bits, whole, exact }),
                None => !(self is Number),
            },
    {
        match self {
            D1Value::Number { bits, whole, exact } => Some((*bits, *whole, *exact)),
            _ => None,
        }
    }
}

} // verus!
