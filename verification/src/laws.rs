//! The codec's round-trip laws: decoding an encoded scalar at its own
//! declared type gives the scalar back, for every value the host crossing
//! preserves. Each law is stated over the same specification functions the
//! encode and decode contracts use, so together with those contracts it pins
//! the executable round trip.

use vstd::prelude::*;
use crate::date_and_time::{
    date_text, date_wf, lemma_digits_text_props, lemma_pow10_adds,
    lemma_pow10_pos, lemma_suffix_shape, lemma_time_body_shape, offset_suffix, pow10, time_body_text,
    time_decomp, time_matches, time_text, time_variant_ok, time_wf, timestamp_decomp,
    timestamp_matches, timestamp_text, timestamp_wf, lemma_date_text_shape, D1Date, D1Time,
    D1Timestamp,
};
use crate::types::{clamp, encodes, D1Scalar};
use crate::value::{crosses, D1Value, TypedValue, JS_EXACT_INTEGER_MAX};

verus! {

/// A boolean survives the round trip: it crosses as an exact zero or one, and
/// decoding at the boolean type reads exactly that back.
pub proof fn lemma_roundtrip_bool(b: bool, tv: TypedValue, hv: D1Value)
    requires
        encodes(D1Scalar::Bool(b), tv),
        crosses(tv, hv),
    ensures
        hv matches D1Value::Number { whole, exact, .. } && exact && whole == (if b {
            1int
        } else {
            0
        }),
{
}

/// A 16-bit integer survives the round trip: its crossing is exact and the
/// saturating narrowing gives it back unchanged.
pub proof fn lemma_roundtrip_i16(i: i16, tv: TypedValue, hv: D1Value)
    requires
        encodes(D1Scalar::SmallInt(i), tv),
        crosses(tv, hv),
    ensures
        hv matches D1Value::Number { whole, .. } && clamp(whole as int, -32768, 32767) == i,
{
}

/// A 32-bit integer survives the round trip.
pub proof fn lemma_roundtrip_i32(i: i32, tv: TypedValue, hv: D1Value)
    requires
        encodes(D1Scalar::Integer(i), tv),
        crosses(tv, hv),
    ensures
        hv matches D1Value::Number { whole, .. } && clamp(whole as int, -2147483648, 2147483647)
            == i,
{
}

/// A 64-bit integer survives the round trip when its magnitude is within the
/// host's exact-integer range; beyond it the crossing itself loses precision,
/// a documented limitation.
pub proof fn lemma_roundtrip_i64(i: i64, tv: TypedValue, hv: D1Value)
    requires
        encodes(D1Scalar::BigInt(i), tv),
        crosses(tv, hv),
        -JS_EXACT_INTEGER_MAX <= i <= JS_EXACT_INTEGER_MAX,
    ensures
        hv matches D1Value::Number { whole, .. } && whole == i,
{
}

/// A double survives the round trip bit for bit: the adapter never touches
/// the payload, so every bit pattern — the quiet and signalling NaN patterns
/// and the infinities included — is accepted and preserved.
pub proof fn lemma_roundtrip_double(bits: u64, tv: TypedValue, hv: D1Value)
    requires
        encodes(D1Scalar::Double(bits), tv),
        crosses(tv, hv),
    ensures
        hv matches D1Value::Number { bits: b, .. } && b == bits,
{
}

/// Text survives the round trip unchanged.
pub proof fn lemma_roundtrip_text(s: Seq<char>, t0: String, tv: TypedValue, hv: D1Value)
    requires
        t0@ == s,
        encodes(D1Scalar::Text(t0), tv),
        crosses(tv, hv),
    ensures
        hv matches D1Value::Text(u) && u@ == s,
{
}

/// A blob survives the round trip unchanged.
pub proof fn lemma_roundtrip_blob(b: Seq<u8>, b0: Vec<u8>, tv: TypedValue, hv: D1Value)
    requires
        b0@ == b,
        encodes(D1Scalar::Blob(b0), tv),
        crosses(tv, hv),
    ensures
        hv matches D1Value::Blob(w) && w@ == b,
{
}

/// The canonical date text determines the date: two well-formed dates with
/// the same text are the same date.
pub proof fn lemma_date_text_injective(d1: D1Date, d2: D1Date)
    requires
        date_wf(d1),
        date_wf(d2),
        date_text(d1) == date_text(d2),
    ensures
        d1 == d2,
{
    lemma_date_text_shape(d1);
    lemma_date_text_shape(d2);
    reveal_with_fuel(pow10, 11);
    lemma_digits_text_props(d1.year as int, 4);
    lemma_digits_text_props(d2.year as int, 4);
    lemma_digits_text_props(d1.month as int, 2);
    lemma_digits_text_props(d2.month as int, 2);
    lemma_digits_text_props(d1.day as int, 2);
    lemma_digits_text_props(d2.day as int, 2);
    assert(date_text(d1).subrange(0, 4) == date_text(d2).subrange(0, 4));
    assert(date_text(d1).subrange(5, 7) == date_text(d2).subrange(5, 7));
    assert(date_text(d1).subrange(8, 10) == date_text(d2).subrange(8, 10));
}

/// A date survives the round trip: it crosses as its canonical text, and any
/// well-formed date decoded from that text is the original date.
pub proof fn lemma_roundtrip_date(d: D1Date, tv: TypedValue, hv: D1Value, d2: D1Date)
    requires
        date_wf(d),
        encodes(D1Scalar::Date(d), tv),
        crosses(tv, hv),
        date_wf(d2),
        hv matches D1Value::Text(u) && u@ == date_text(d2),
    ensures
        d2 == d,
{
    lemma_date_text_injective(d, d2);
}

/// The body length of any decomposition of a time text is determined by the
/// text's tail alone.
pub open spec fn expected_body_len(s: Seq<char>) -> int {
    if s.len() >= 1 && s[s.len() - 1] == 'Z' {
        s.len() - 1
    } else if s.len() >= 6 && (s[s.len() - 6] == '+' || s[s.len() - 6] == '-') {
        s.len() - 6
    } else {
        s.len() as int
    }
}

/// Any decomposition of a time text puts its body's end where the text's tail
/// says: before a trailing Z, before a trailing signed offset, else at the
/// text's end.
pub proof fn lemma_time_body_len_determined(
    s: Seq<char>,
    t: D1Time,
    fd: int,
    k: int,
    oh: int,
    om: int,
)
    requires
        time_decomp(s, t, fd, k, oh, om),
    ensures
        time_body_text(t, fd).len() == expected_body_len(s),
{
    lemma_time_body_shape(t, fd);
    lemma_suffix_shape(k, oh, om);
    let b = time_body_text(t, fd);
    let e = offset_suffix(k, oh, om);
    let n = s.len() as int;
    if k == 0 {
        assert(s[n - 1] == b[b.len() - 1]);
        if n >= 6 {
            assert(s[n - 6] == b[n - 6]);
        }
    } else if k == 1 {
        assert(s[n - 1] == e[0]);
        if n >= 6 {
            assert(s[n - 6] == b[n - 6]);
        }
    } else {
        assert(s[n - 1] == e[5]);
        assert(s[n - 6] == e[0]);
    }
}

/// A time text determines the time: two well-formed times that match the same
/// text are the same time.
pub proof fn lemma_time_matches_unique(s: Seq<char>, t1: D1Time, t2: D1Time)
    requires
        time_wf(t1),
        time_wf(t2),
        time_matches(s, t1),
        time_matches(s, t2),
    ensures
        t1 == t2,
{
    let (fd1, k1, oh1, om1): (int, int, int, int) = choose|fd: int, k: int, oh: int, om: int|
        time_decomp(s, t1, fd, k, oh, om);
    let (fd2, k2, oh2, om2): (int, int, int, int) = choose|fd: int, k: int, oh: int, om: int|
        time_decomp(s, t2, fd, k, oh, om);
    assert(time_decomp(s, t1, fd1, k1, oh1, om1));
    assert(time_decomp(s, t2, fd2, k2, oh2, om2));
    lemma_time_body_len_determined(s, t1, fd1, k1, oh1, om1);
    lemma_time_body_len_determined(s, t2, fd2, k2, oh2, om2);
    lemma_time_body_shape(t1, fd1);
    lemma_time_body_shape(t2, fd2);
    let b1 = time_body_text(t1, fd1);
    let b2 = time_body_text(t2, fd2);
    let bl = b1.len() as int;
    assert(b2.len() == bl);
    assert(fd1 == fd2);
    assert(forall|i: int| 0 <= i < bl ==> s[i] == b1[i] && s[i] == b2[i]);
    assert(b1.subrange(0, 2) =~= b2.subrange(0, 2));
    assert(b1.subrange(3, 5) =~= b2.subrange(3, 5));
    reveal_with_fuel(pow10, 11);
    lemma_digits_text_props(t1.hour as int, 2);
    lemma_digits_text_props(t2.hour as int, 2);
    lemma_digits_text_props(t1.minute as int, 2);
    lemma_digits_text_props(t2.minute as int, 2);
    assert(t1.hour == t2.hour);
    assert(t1.minute == t2.minute);
    if fd1 >= 0 {
        assert(b1.subrange(6, 8) =~= b2.subrange(6, 8));
        lemma_digits_text_props(t1.second as int, 2);
        lemma_digits_text_props(t2.second as int, 2);
        assert(t1.second == t2.second);
    }
    if fd1 >= 1 {
        assert(b1.subrange(9, bl) =~= b2.subrange(9, bl));
        let p = pow10(9 - fd1);
        lemma_pow10_pos(9 - fd1);
        lemma_pow10_adds(fd1, 9 - fd1);
        vstd::arithmetic::div_mod::lemma_multiply_divide_lt(t1.nanosecond as int, p, pow10(fd1));
        vstd::arithmetic::div_mod::lemma_multiply_divide_lt(t2.nanosecond as int, p, pow10(fd1));
        vstd::arithmetic::div_mod::lemma_div_pos_is_pos(t1.nanosecond as int, p);
        vstd::arithmetic::div_mod::lemma_div_pos_is_pos(t2.nanosecond as int, p);
        lemma_digits_text_props(t1.nanosecond as int / p, fd1);
        lemma_digits_text_props(t2.nanosecond as int / p, fd1);
        assert(t1.nanosecond as int / p == t2.nanosecond as int / p);
        vstd::arithmetic::div_mod::lemma_fundamental_div_mod(t1.nanosecond as int, p);
        vstd::arithmetic::div_mod::lemma_fundamental_div_mod(t2.nanosecond as int, p);
        assert(t1.nanosecond == t2.nanosecond);
    }
}

/// The fraction width the canonical time text uses.
pub open spec fn canonical_frac_width(ns: int) -> int {
    if ns == 0 {
        0
    } else if ns % 1000000 == 0 {
        3
    } else if ns % 1000 == 0 {
        6
    } else {
        9
    }
}

/// The canonical time text is one of the grammar's renderings of its time.
pub proof fn lemma_time_text_matches(t: D1Time)
    requires
        time_wf(t),
    ensures
        time_matches(time_text(t), t),
{
    let fd = canonical_frac_width(t.nanosecond as int);
    reveal_with_fuel(pow10, 11);
    assert(time_variant_ok(t, fd));
    assert(time_text(t) =~= time_body_text(t, fd) + offset_suffix(0, 0, 0));
    assert(time_decomp(time_text(t), t, fd, 0, 0, 0));
}

/// A time survives the round trip: it crosses as its canonical text, and any
/// well-formed time decoded from that text is the original time.
pub proof fn lemma_roundtrip_time(t: D1Time, tv: TypedValue, hv: D1Value, t2: D1Time)
    requires
        time_wf(t),
        encodes(D1Scalar::Time(t), tv),
        crosses(tv, hv),
        time_wf(t2),
        hv matches D1Value::Text(u) && time_matches(u@, t2),
    ensures
        t2 == t,
{
    lemma_time_text_matches(t);
    let u = hv->Text_0;
    assert(u@ == time_text(t));
    lemma_time_matches_unique(u@, t, t2);
}

/// A timestamp text determines the timestamp: two well-formed timestamps that
/// match the same text are the same timestamp.
pub proof fn lemma_timestamp_matches_unique(s: Seq<char>, ts1: D1Timestamp, ts2: D1Timestamp)
    requires
        timestamp_wf(ts1),
        timestamp_wf(ts2),
        timestamp_matches(s, ts1),
        timestamp_matches(s, ts2),
    ensures
        ts1 == ts2,
{
    let (sep1, fd1, k1, oh1, om1): (char, int, int, int, int) = choose|
        sep: char,
        fd: int,
        k: int,
        oh: int,
        om: int,
    | timestamp_decomp(s, ts1, sep, fd, k, oh, om);
    let (sep2, fd2, k2, oh2, om2): (char, int, int, int, int) = choose|
        sep: char,
        fd: int,
        k: int,
        oh: int,
        om: int,
    | timestamp_decomp(s, ts2, sep, fd, k, oh, om);
    assert(timestamp_decomp(s, ts1, sep1, fd1, k1, oh1, om1));
    assert(timestamp_decomp(s, ts2, sep2, fd2, k2, oh2, om2));
    lemma_date_text_shape(ts1.date);
    lemma_date_text_shape(ts2.date);
    assert(s.subrange(0, 10) =~= date_text(ts1.date));
    assert(s.subrange(0, 10) =~= date_text(ts2.date));
    lemma_date_text_injective(ts1.date, ts2.date);
    let rest = s.subrange(11, s.len() as int);
    assert(rest =~= time_body_text(ts1.time, fd1) + offset_suffix(k1, oh1, om1));
    assert(rest =~= time_body_text(ts2.time, fd2) + offset_suffix(k2, oh2, om2));
    assert(time_decomp(rest, ts1.time, fd1, k1, oh1, om1));
    assert(time_decomp(rest, ts2.time, fd2, k2, oh2, om2));
    assert(time_matches(rest, ts1.time));
    assert(time_matches(rest, ts2.time));
    lemma_time_matches_unique(rest, ts1.time, ts2.time);
}

/// The canonical timestamp text is one of the grammar's renderings of its
/// timestamp.
pub proof fn lemma_timestamp_text_matches(ts: D1Timestamp)
    requires
        timestamp_wf(ts),
    ensures
        timestamp_matches(timestamp_text(ts), ts),
{
    let fd = canonical_frac_width(ts.time.nanosecond as int);
    reveal_with_fuel(pow10, 11);
    assert(time_variant_ok(ts.time, fd));
    assert(time_text(ts.time) =~= time_body_text(ts.time, fd) + offset_suffix(0, 0, 0));
    assert(timestamp_text(ts) =~= date_text(ts.date) + seq![' '] + time_body_text(ts.time, fd)
        + offset_suffix(0, 0, 0));
    assert(timestamp_decomp(timestamp_text(ts), ts, ' ', fd, 0, 0, 0));
}

/// A timestamp survives the round trip: it crosses as its canonical text, and
/// any well-formed timestamp decoded from that text is the original one.
pub proof fn lemma_roundtrip_timestamp(
    ts: D1Timestamp,
    tv: TypedValue,
    hv: D1Value,
    ts2: D1Timestamp,
)
    requires
        timestamp_wf(ts),
        encodes(D1Scalar::Timestamp(ts), tv),
        crosses(tv, hv),
        timestamp_wf(ts2),
        hv matches D1Value::Text(u) && timestamp_matches(u@, ts2),
    ensures
        ts2 == ts,
{
    lemma_timestamp_text_matches(ts);
    let u = hv->Text_0;
    assert(u@ == timestamp_text(ts));
    lemma_timestamp_matches_unique(u@, ts, ts2);
}

} // verus!
