//! The adapter's date/time model and its canonical text forms.
//!
//! The host has no native date/time type: the date/time family travels as
//! text in one canonical format per type, and is recovered from text (or from
//! a numeric day count) at decode time. Dates are plain calendar components
//! with their validity invariant; the supported range is the four-digit years
//! 0 through 9999.

use vstd::prelude::*;

verus! {

/// A calendar date: year, month, day.
#[derive(Debug, Clone, Copy, PartialEq, Eq, Structural)]
pub struct D1Date {
    pub year: u32,
    pub month: u32,
    pub day: u32,
}

/// A time of day with nanosecond precision.
#[derive(Debug, Clone, Copy, PartialEq, Eq, Structural)]
pub struct D1Time {
    pub hour: u32,
    pub minute: u32,
    pub second: u32,
    pub nanosecond: u32,
}

/// A civil timestamp: a date and a time of day, with no zone attached.
#[derive(Debug, Clone, Copy, PartialEq, Eq, Structural)]
pub struct D1Timestamp {
    pub date: D1Date,
    pub time: D1Time,
}

/// The Gregorian leap-year rule.
pub open spec fn is_leap_year(y: int) -> bool {
    y % 4 == 0 && (y % 100 != 0 || y % 400 == 0)
}

/// Days in the given month of the given year.
pub open spec fn days_in_month_of(y: int, m: int) -> int {
    if m == 2 {
        if is_leap_year(y) {
            29
        } else {
            28
        }
    } else if m == 4 || m == 6 || m == 9 || m == 11 {
        30
    } else {
        31
    }
}

/// A date is well-formed when its year has at most four digits and its month
/// and day exist on the calendar.
pub open spec fn date_wf(d: D1Date) -> bool {
    &&& d.year <= 9999
    &&& 1 <= d.month <= 12
    &&& 1 <= d.day <= days_in_month_of(d.year as int, d.month as int)
}

/// A time of day is well-formed when every component is in range.
pub open spec fn time_wf(t: D1Time) -> bool {
    &&& t.hour <= 23
    &&& t.minute <= 59
    &&& t.second <= 59
    &&& t.nanosecond < 1000000000
}

/// A timestamp is well-formed when both halves are.
pub open spec fn timestamp_wf(ts: D1Timestamp) -> bool {
    date_wf(ts.date) && time_wf(ts.time)
}

/// Days in the given month of the given year.
pub fn days_in_month(y: u32, m: u32) -> (r: u32)
    ensures
        r == days_in_month_of(y as int, m as int),
{
    if m == 2 {
        if y % 4 == 0 && (y % 100 != 0 || y % 400 == 0) {
            29
        } else {
            28
        }
    } else if m == 4 || m == 6 || m == 9 || m == 11 {
        30
    } else {
        31
    }
}

/// The decimal digit character for a value between zero and nine.
pub open spec fn digit_char(d: int) -> char {
    if d == 0 {
        '0'
    } else if d == 1 {
        '1'
    } else if d == 2 {
        '2'
    } else if d == 3 {
        '3'
    } else if d == 4 {
        '4'
    } else if d == 5 {
        '5'
    } else if d == 6 {
        '6'
    } else if d == 7 {
        '7'
    } else if d == 8 {
        '8'
    } else {
        '9'
    }
}

/// The last `width` decimal digits of `n`, zero-padded on the left.
pub open spec fn digits_text(n: int, width: int) -> Seq<char>
    decreases width,
{
    if width <= 0 {
        Seq::empty()
    } else {
        digits_text(n / 10, width - 1).push(digit_char(n % 10))
    }
}

/// The canonical fractional-second text: nothing when the fraction is exactly
/// zero, else a dot and the shortest of three, six or nine digits that loses
/// no precision.
pub open spec fn frac_text(ns: int) -> Seq<char> {
    if ns == 0 {
        Seq::empty()
    } else if ns % 1000000 == 0 {
        seq!['.'] + digits_text(ns / 1000000, 3)
    } else if ns % 1000 == 0 {
        seq!['.'] + digits_text(ns / 1000, 6)
    } else {
        seq!['.'] + digits_text(ns, 9)
    }
}

/// The canonical date text: a four-digit year, two-digit month and two-digit
/// day, dash-separated.
pub open spec fn date_text(d: D1Date) -> Seq<char> {
    digits_text(d.year as int, 4) + seq!['-'] + digits_text(d.month as int, 2) + seq!['-']
        + digits_text(d.day as int, 2)
}

/// The canonical time text: two digits each of hour, minute and second,
/// colon-separated, with the fractional part elided when exactly zero.
pub open spec fn time_text(t: D1Time) -> Seq<char> {
    digits_text(t.hour as int, 2) + seq![':'] + digits_text(t.minute as int, 2) + seq![':']
        + digits_text(t.second as int, 2) + frac_text(t.nanosecond as int)
}

/// The canonical timestamp text: the date text, one space, the time text.
pub open spec fn timestamp_text(ts: D1Timestamp) -> Seq<char> {
    date_text(ts.date) + seq![' '] + time_text(ts.time)
}

/// The decimal digit string for a value between zero and nine.
fn digit_str(d: u32) -> (r: &'static str)
    requires
        d < 10,
    ensures
        r@ == seq![digit_char(d as int)],
{
    let r: &'static str = match d {
        0 => "0",
        1 => "1",
        2 => "2",
        3 => "3",
        4 => "4",
        5 => "5",
        6 => "6",
        7 => "7",
        8 => "8",
        _ => "9",
    };
    proof {
        reveal_strlit("0");
        reveal_strlit("1");
        reveal_strlit("2");
        reveal_strlit("3");
        reveal_strlit("4");
        reveal_strlit("5");
        reveal_strlit("6");
        reveal_strlit("7");
        reveal_strlit("8");
        reveal_strlit("9");
        assert(r@ =~= seq![digit_char(d as int)]);
    }
    r
}

/// Append the last `width` decimal digits of `n`, zero-padded.
fn push_digits(out: &mut String, n: u32, width: u32)
    ensures
        final(out)@ == old(out)@ + digits_text(n as int, width as int),
    decreases width,
{
    if width > 0 {
        push_digits(out, n / 10, width - 1);
        out.append(digit_str(n % 10));
        proof {
            assert(out@ =~= old(out)@ + digits_text(n as int, width as int));
        }
    } else {
        proof {
            assert(out@ =~= old(out)@ + digits_text(n as int, width as int));
        }
    }
}

/// Render a date in the canonical format.
pub fn format_date(d: &D1Date) -> (r: String)
    ensures
        r@ == date_text(*d),
{
    let mut out = String::new();
    push_digits(&mut out, d.year, 4);
    out.append("-");
    push_digits(&mut out, d.month, 2);
    out.append("-");
    push_digits(&mut out, d.day, 2);
    proof {
        reveal_strlit("-");
        assert(out@ =~= date_text(*d));
    }
    out
}

/// Append the canonical fractional-second text.
fn push_frac(out: &mut String, ns: u32)
    requires
        ns < 1000000000,
    ensures
        final(out)@ == old(out)@ + frac_text(ns as int),
{
    if ns != 0 {
        out.append(".");
        proof {
            reveal_strlit(".");
        }
        if ns % 1000000 == 0 {
            push_digits(out, ns / 1000000, 3);
        } else if ns % 1000 == 0 {
            push_digits(out, ns / 1000, 6);
        } else {
            push_digits(out, ns, 9);
        }
        proof {
            assert(out@ =~= old(out)@ + frac_text(ns as int));
        }
    } else {
        proof {
            assert(out@ =~= old(out)@ + frac_text(ns as int));
        }
    }
}

/// Append the canonical time text.
fn push_time(out: &mut String, t: &D1Time)
    requires
        t.nanosecond < 1000000000,
    ensures
        final(out)@ == old(out)@ + time_text(*t),
{
    push_digits(out, t.hour, 2);
    out.append(":");
    push_digits(out, t.minute, 2);
    out.append(":");
    push_digits(out, t.second, 2);
    push_frac(out, t.nanosecond);
    proof {
        reveal_strlit(":");
        assert(out@ =~= old(out)@ + time_text(*t));
    }
}

/// Render a time of day in the canonical format.
pub fn format_time(t: &D1Time) -> (r: String)
    requires
        t.nanosecond < 1000000000,
    ensures
        r@ == time_text(*t),
{
    let mut out = String::new();
    push_time(&mut out, t);
    proof {
        assert(out@ =~= time_text(*t));
    }
    out
}

/// Render a timestamp in the canonical format.
pub fn format_timestamp(ts: &D1Timestamp) -> (r: String)
    requires
        ts.time.nanosecond < 1000000000,
    ensures
        r@ == timestamp_text(*ts),
{
    let mut out = format_date(&ts.date);
    out.append(" ");
    push_time(&mut out, &ts.time);
    proof {
        reveal_strlit(" ");
        assert(out@ =~= timestamp_text(*ts));
    }
    out
}

} // verus!

// ---------------------------------------------------------------------------
// Parsing: the decode-side grammar.
// ---------------------------------------------------------------------------

use vstd::arithmetic::div_mod::lemma_fundamental_div_mod_converse;

verus! {

/// The numeric value of a decimal digit character, or a negative marker for
/// any other character.
pub open spec fn digit_val(c: char) -> int {
    if c == '0' {
        0
    } else if c == '1' {
        1
    } else if c == '2' {
        2
    } else if c == '3' {
        3
    } else if c == '4' {
        4
    } else if c == '5' {
        5
    } else if c == '6' {
        6
    } else if c == '7' {
        7
    } else if c == '8' {
        8
    } else if c == '9' {
        9
    } else {
        -1
    }
}

/// Whether a character is a decimal digit.
pub open spec fn is_digit(c: char) -> bool {
    digit_val(c) >= 0
}

/// Whether every character of a text is a decimal digit.
pub open spec fn all_digits(s: Seq<char>) -> bool {
    forall|i: int| 0 <= i < s.len() ==> is_digit(#[trigger] s[i])
}

/// The numeric value of a digit text, most significant digit first.
pub open spec fn digits_val(s: Seq<char>) -> int
    decreases s.len(),
{
    if s.len() == 0 {
        0
    } else {
        digits_val(s.drop_last()) * 10 + digit_val(s.last())
    }
}

/// Ten to the given power.
pub open spec fn pow10(k: int) -> int
    decreases k,
{
    if k <= 0 {
        1
    } else {
        10 * pow10(k - 1)
    }
}

/// Ten to the given power, executable.
pub fn pow10_exec(k: u32) -> (r: u32)
    requires
        k <= 9,
    ensures
        r == pow10(k as int),
{
    proof {
        reveal_with_fuel(pow10, 11);
    }
    match k {
        0 => 1,
        1 => 10,
        2 => 100,
        3 => 1000,
        4 => 10000,
        5 => 100000,
        6 => 1000000,
        7 => 10000000,
        8 => 100000000,
        _ => 1000000000,
    }
}

/// Powers of ten are positive.
pub proof fn lemma_pow10_pos(k: int)
    ensures
        pow10(k) >= 1,
    decreases k,
{
    if k > 0 {
        lemma_pow10_pos(k - 1);
    }
}

/// Powers of ten are monotone in the exponent.
pub proof fn lemma_pow10_mono(a: int, b: int)
    requires
        a <= b,
    ensures
        pow10(a) <= pow10(b),
    decreases b - a,
{
    if a < b {
        lemma_pow10_mono(a, b - 1);
        lemma_pow10_pos(b - 1);
    }
}

/// Powers of ten multiply by adding exponents.
pub proof fn lemma_pow10_adds(a: int, b: int)
    requires
        a >= 0,
        b >= 0,
    ensures
        pow10(a + b) == pow10(a) * pow10(b),
    decreases a,
{
    if a == 0 {
    } else {
        lemma_pow10_adds(a - 1, b);
        assert(pow10(a + b) == 10 * pow10(a - 1 + b));
        assert(10 * (pow10(a - 1) * pow10(b)) == (10 * pow10(a - 1)) * pow10(b)) by {
            vstd::arithmetic::mul::lemma_mul_is_associative(10, pow10(a - 1), pow10(b));
        }
    }
}

/// The digit character of a value between zero and nine reads back as itself.
pub proof fn lemma_digit_char_val(d: int)
    requires
        0 <= d <= 9,
    ensures
        is_digit(digit_char(d)),
        digit_val(digit_char(d)) == d,
{
}

/// A digit character is reproduced by its value.
pub proof fn lemma_digit_val_char(c: char)
    requires
        is_digit(c),
    ensures
        0 <= digit_val(c) <= 9,
        digit_char(digit_val(c)) == c,
{
}

/// The shape of a fixed-width digit rendering: the right length, all digits,
/// and it reads back as the rendered value.
pub proof fn lemma_digits_text_props(v: int, w: int)
    requires
        0 <= v < pow10(w),
        w >= 0,
    ensures
        digits_text(v, w).len() == w,
        all_digits(digits_text(v, w)),
        digits_val(digits_text(v, w)) == v,
    decreases w,
{
    if w == 0 {
    } else {
        assert(pow10(w) == 10 * pow10(w - 1));
        assert(v / 10 < pow10(w - 1)) by {
            lemma_pow10_pos(w - 1);
            assert(v <= 10 * pow10(w - 1) - 1);
            assert((10 * pow10(w - 1) - 1) / 10 == pow10(w - 1) - 1) by {
                lemma_fundamental_div_mod_converse(
                    10 * pow10(w - 1) - 1,
                    10,
                    pow10(w - 1) - 1,
                    9,
                );
            }
            vstd::arithmetic::div_mod::lemma_div_is_ordered(v, 10 * pow10(w - 1) - 1, 10);
        }
        lemma_digits_text_props(v / 10, w - 1);
        lemma_digit_char_val(v % 10);
        let t = digits_text(v, w);
        assert(t == digits_text(v / 10, w - 1).push(digit_char(v % 10)));
        assert(t.drop_last() =~= digits_text(v / 10, w - 1));
        assert(t.last() == digit_char(v % 10));
        assert(digits_val(t) == (v / 10) * 10 + (v % 10));
        assert((v / 10) * 10 + (v % 10) == v) by {
            vstd::arithmetic::div_mod::lemma_fundamental_div_mod(v, 10);
        }
        assert forall|i: int| 0 <= i < t.len() implies is_digit(#[trigger] t[i]) by {
            if i < w - 1 {
                assert(t[i] == digits_text(v / 10, w - 1)[i]);
            } else {
                assert(t[i] == digit_char(v % 10));
            }
        }
    }
}

/// A digit text is the fixed-width rendering of its own value.
pub proof fn lemma_digits_text_inverse(s: Seq<char>)
    requires
        all_digits(s),
    ensures
        0 <= digits_val(s) < pow10(s.len() as int),
        digits_text(digits_val(s), s.len() as int) == s,
    decreases s.len(),
{
    if s.len() == 0 {
        assert(digits_text(0, 0) =~= s);
    } else {
        let p = s.drop_last();
        let c = s.last();
        assert(forall|i: int| 0 <= i < p.len() ==> p[i] == s[i]);
        lemma_digits_text_inverse(p);
        lemma_digit_val_char(c);
        let pv = digits_val(p);
        let dv = digit_val(c);
        let v = pv * 10 + dv;
        assert(digits_val(s) == v);
        assert(v >= 0) by {
            vstd::arithmetic::mul::lemma_mul_nonnegative(pv, 10);
        }
        assert(v < pow10(s.len() as int)) by {
            assert(pow10(s.len() as int) == 10 * pow10(p.len() as int));
            assert(pv <= pow10(p.len() as int) - 1);
            assert(pv * 10 <= (pow10(p.len() as int) - 1) * 10) by {
                vstd::arithmetic::mul::lemma_mul_inequality(pv, pow10(p.len() as int) - 1, 10);
            }
        }
        assert(v / 10 == pv && v % 10 == dv) by {
            lemma_fundamental_div_mod_converse(v, 10, pv, dv);
        }
        assert(digits_text(v, s.len() as int) == digits_text(pv, p.len() as int).push(
            digit_char(dv),
        ));
        assert(digits_text(v, s.len() as int) =~= s);
    }
}

/// Map a character to its digit value, if it is one.
pub fn digit_of_char(c: char) -> (r: Option<u32>)
    ensures
        match r {
            Some(v) => is_digit(c) && v == digit_val(c),
            None => !is_digit(c),
        },
{
    match c {
        '0' => Some(0),
        '1' => Some(1),
        '2' => Some(2),
        '3' => Some(3),
        '4' => Some(4),
        '5' => Some(5),
        '6' => Some(6),
        '7' => Some(7),
        '8' => Some(8),
        '9' => Some(9),
        _ => None,
    }
}

/// Read a fixed-width digit run out of a text. Succeeds exactly when every
/// character in the window is a digit, and then the window is the canonical
/// rendering of the value read.
fn read_digits(s: &str, start: usize, width: usize) -> (r: Option<u32>)
    requires
        start + width <= s@.len(),
        start + width <= usize::MAX,
        width <= 9,
    ensures
        match r {
            Some(v) => {
                &&& v < pow10(width as int)
                &&& s@.subrange(start as int, (start + width) as int) == digits_text(
                    v as int,
                    width as int,
                )
            },
            None => !all_digits(s@.subrange(start as int, (start + width) as int)),
        },
{
    let ghost win = s@.subrange(start as int, (start + width) as int);
    let mut acc: u32 = 0;
    let mut k: usize = 0;
    proof {
        reveal_with_fuel(pow10, 11);
    }
    while k < width
        invariant
            start + width <= s@.len(),
            start + width <= usize::MAX,
            width <= 9,
            k <= width,
            win == s@.subrange(start as int, (start + width) as int),
            all_digits(win.take(k as int)),
            acc == digits_val(win.take(k as int)),
            acc < pow10(k as int),
        decreases width - k,
    {
        let c = s.get_char(start + k);
        proof {
            assert(win[k as int] == s@[(start + k) as int]);
        }
        match digit_of_char(c) {
            Some(d) => {
                proof {
                    assert(win.take(k + 1) =~= win.take(k as int).push(win[k as int]));
                    assert(win.take(k + 1).drop_last() =~= win.take(k as int));
                    assert(pow10(k + 1) == 10 * pow10(k as int));
                    assert(acc * 10 + d < pow10(k + 1)) by {
                        assert(acc <= pow10(k as int) - 1);
                        vstd::arithmetic::mul::lemma_mul_inequality(
                            acc as int,
                            pow10(k as int) - 1,
                            10,
                        );
                    }
                    assert(pow10(k + 1) <= 1000000000) by {
                        lemma_pow10_mono(k + 1, 9);
                        reveal_with_fuel(pow10, 11);
                    }
                }
                acc = acc * 10 + d;
                k = k + 1;
            },
            None => {
                proof {
                    assert(!is_digit(win[k as int]));
                }
                return None;
            },
        }
    }
    proof {
        assert(win.take(width as int) =~= win);
        lemma_digits_text_inverse(win);
    }
    Some(acc)
}

} // verus!

verus! {

/// The canonical date text has ten characters: digits everywhere but the two
/// dashes.
pub proof fn lemma_date_text_shape(d: D1Date)
    requires
        date_wf(d),
    ensures
        date_text(d).len() == 10,
        date_text(d).subrange(0, 4) == digits_text(d.year as int, 4),
        date_text(d)[4] == '-',
        date_text(d).subrange(5, 7) == digits_text(d.month as int, 2),
        date_text(d)[7] == '-',
        date_text(d).subrange(8, 10) == digits_text(d.day as int, 2),
{
    reveal_with_fuel(pow10, 11);
    lemma_digits_text_props(d.year as int, 4);
    lemma_digits_text_props(d.month as int, 2);
    lemma_digits_text_props(d.day as int, 2);
    let t = date_text(d);
    assert(t.subrange(0, 4) =~= digits_text(d.year as int, 4));
    assert(t.subrange(5, 7) =~= digits_text(d.month as int, 2));
    assert(t.subrange(8, 10) =~= digits_text(d.day as int, 2));
}

/// Parse the canonical date text. Succeeds exactly on the canonical rendering
/// of a well-formed date, and returns that date.
pub fn parse_date(s: &str) -> (r: Option<D1Date>)
    ensures
        match r {
            Some(d) => date_wf(d) && s@ == date_text(d),
            None => forall|d: D1Date| date_wf(d) ==> s@ != date_text(d),
        },
{
    let n = s.unicode_len();
    if n != 10 {
        proof {
            assert forall|d: D1Date| date_wf(d) implies s@ != date_text(d) by {
                lemma_date_text_shape(d);
            }
        }
        return None;
    }
    let y = match read_digits(s, 0, 4) {
        Some(v) => v,
        None => {
            proof {
                assert forall|d: D1Date| date_wf(d) implies s@ != date_text(d) by {
                    lemma_date_text_shape(d);
                    reveal_with_fuel(pow10, 11);
                    lemma_digits_text_props(d.year as int, 4);
                    if s@ == date_text(d) {
                        assert(s@.subrange(0, 4) == digits_text(d.year as int, 4));
                    }
                }
            }
            return None;
        },
    };
    if !(s.get_char(4) == '-' && s.get_char(7) == '-') {
        proof {
            assert forall|d: D1Date| date_wf(d) implies s@ != date_text(d) by {
                lemma_date_text_shape(d);
            }
        }
        return None;
    }
    let m = match read_digits(s, 5, 2) {
        Some(v) => v,
        None => {
            proof {
                assert forall|d: D1Date| date_wf(d) implies s@ != date_text(d) by {
                    lemma_date_text_shape(d);
                    reveal_with_fuel(pow10, 11);
                    lemma_digits_text_props(d.month as int, 2);
                    if s@ == date_text(d) {
                        assert(s@.subrange(5, 7) == digits_text(d.month as int, 2));
                    }
                }
            }
            return None;
        },
    };
    let day = match read_digits(s, 8, 2) {
        Some(v) => v,
        None => {
            proof {
                assert forall|d: D1Date| date_wf(d) implies s@ != date_text(d) by {
                    lemma_date_text_shape(d);
                    reveal_with_fuel(pow10, 11);
                    lemma_digits_text_props(d.day as int, 2);
                    if s@ == date_text(d) {
                        assert(s@.subrange(8, 10) == digits_text(d.day as int, 2));
                    }
                }
            }
            return None;
        },
    };
    let ok = 1 <= m && m <= 12 && 1 <= day && day <= days_in_month(y, m);
    if ok {
        let d0 = D1Date { year: y, month: m, day };
        proof {
            reveal_with_fuel(pow10, 11);
            assert(y <= 9999);
            lemma_date_text_shape(d0);
            assert(s@ =~= date_text(d0));
        }
        Some(d0)
    } else {
        proof {
            assert forall|d: D1Date| date_wf(d) implies s@ != date_text(d) by {
                if s@ == date_text(d) {
                    lemma_date_text_shape(d);
                    reveal_with_fuel(pow10, 11);
                    lemma_digits_text_props(d.year as int, 4);
                    lemma_digits_text_props(d.month as int, 2);
                    lemma_digits_text_props(d.day as int, 2);
                    lemma_digits_text_props(y as int, 4);
                    lemma_digits_text_props(m as int, 2);
                    lemma_digits_text_props(day as int, 2);
                    assert(s@.subrange(5, 7) == digits_text(d.month as int, 2));
                    assert(s@.subrange(5, 7) == digits_text(m as int, 2));
                    assert(m == d.month);
                    assert(s@.subrange(8, 10) == digits_text(d.day as int, 2));
                    assert(s@.subrange(8, 10) == digits_text(day as int, 2));
                    assert(day == d.day);
                    assert(s@.subrange(0, 4) == digits_text(d.year as int, 4));
                    assert(s@.subrange(0, 4) == digits_text(y as int, 4));
                    assert(y == d.year);
                }
            }
        }
        None
    }
}

} // verus!

// ---------------------------------------------------------------------------
// The time and timestamp grammars.
//
// Decoding accepts every combination the upstream producers may emit: hour
// and minute, optional seconds, an optional fraction of one to nine digits,
// and an optional zone suffix (a literal Z or a signed hour:minute offset,
// parsed and ignored, as a zoneless value keeps no zone); a timestamp is a
// date, a space or a literal T, and a time in that same grammar.
// ---------------------------------------------------------------------------

verus! {

/// The rendering of one time-body variant: `fd` is minus one for the
/// seconds-less form, zero for whole seconds, else the number of fraction
/// digits.
pub open spec fn time_body_text(t: D1Time, fd: int) -> Seq<char> {
    if fd == -1 {
        digits_text(t.hour as int, 2) + seq![':'] + digits_text(t.minute as int, 2)
    } else if fd == 0 {
        digits_text(t.hour as int, 2) + seq![':'] + digits_text(t.minute as int, 2) + seq![':']
            + digits_text(t.second as int, 2)
    } else {
        digits_text(t.hour as int, 2) + seq![':'] + digits_text(t.minute as int, 2) + seq![':']
            + digits_text(t.second as int, 2) + seq!['.'] + digits_text(
            t.nanosecond as int / pow10(9 - fd),
            fd,
        )
    }
}

/// Whether a time value can be written in the given body variant: elided
/// parts must be zero, and a fraction of `fd` digits must lose nothing.
pub open spec fn time_variant_ok(t: D1Time, fd: int) -> bool {
    if fd == -1 {
        t.second == 0 && t.nanosecond == 0
    } else if fd == 0 {
        t.nanosecond == 0
    } else {
        1 <= fd <= 9 && t.nanosecond as int % pow10(9 - fd) == 0
    }
}

/// The zone suffix variants: nothing, a literal Z, or a signed hour:minute
/// offset. The offset is parsed and ignored: a zoneless value keeps no zone.
pub open spec fn offset_suffix(k: int, oh: int, om: int) -> Seq<char> {
    if k == 0 {
        Seq::empty()
    } else if k == 1 {
        seq!['Z']
    } else {
        (if k == 2 {
            seq!['+']
        } else {
            seq!['-']
        }) + digits_text(oh, 2) + seq![':'] + digits_text(om, 2)
    }
}

/// The admissible suffix parameters.
pub open spec fn suffix_ok(k: int, oh: int, om: int) -> bool {
    &&& 0 <= k <= 3
    &&& 0 <= oh <= 23
    &&& 0 <= om <= 59
}

/// One full decomposition of a text as a time: a body variant followed by a
/// zone suffix.
pub open spec fn time_decomp(s: Seq<char>, t: D1Time, fd: int, k: int, oh: int, om: int) -> bool {
    &&& time_variant_ok(t, fd)
    &&& suffix_ok(k, oh, om)
    &&& s == time_body_text(t, fd) + offset_suffix(k, oh, om)
}

/// Whether a text is some rendering of the given time value.
pub open spec fn time_matches(s: Seq<char>, t: D1Time) -> bool {
    exists|fd: int, k: int, oh: int, om: int| time_decomp(s, t, fd, k, oh, om)
}

/// A fixed-width digit rendering has the right length and holds only digits,
/// whatever the value.
pub proof fn lemma_digits_text_shape(v: int, w: int)
    requires
        v >= 0,
        w >= 0,
    ensures
        digits_text(v, w).len() == w,
        all_digits(digits_text(v, w)),
    decreases w,
{
    if w > 0 {
        lemma_digits_text_shape(v / 10, w - 1);
        lemma_digit_char_val(v % 10);
        let t = digits_text(v, w);
        assert forall|i: int| 0 <= i < t.len() implies is_digit(#[trigger] t[i]) by {
            if i < w - 1 {
                assert(t[i] == digits_text(v / 10, w - 1)[i]);
            } else {
                assert(t[i] == digit_char(v % 10));
            }
        }
    }
}

/// The shape of a time body: its length per variant, the separators at their
/// fixed positions, digits everywhere else, and each component's digit window.
pub proof fn lemma_time_body_shape(t: D1Time, fd: int)
    requires
        time_variant_ok(t, fd),
    ensures
        ({
            let b = time_body_text(t, fd);
            &&& b.len() == (if fd == -1 {
                5int
            } else if fd == 0 {
                8int
            } else {
                9 + fd
            })
            &&& is_digit(b[0]) && is_digit(b[1]) && b[2] == ':' && is_digit(b[3]) && is_digit(b[4])
            &&& is_digit(b[b.len() - 1])
            &&& (fd >= 0 ==> b[5] == ':' && is_digit(b[6]) && is_digit(b[7]))
            &&& (fd >= 1 ==> b[8] == '.' && all_digits(b.subrange(9, b.len() as int)))
            &&& (forall|i: int| 0 <= i < b.len() ==> is_digit(#[trigger] b[i]) || b[i] == ':' || b[i] == '.')
            &&& b.subrange(0, 2) == digits_text(t.hour as int, 2)
            &&& b.subrange(3, 5) == digits_text(t.minute as int, 2)
            &&& (fd >= 0 ==> b.subrange(6, 8) == digits_text(t.second as int, 2))
            &&& (fd >= 1 ==> b.subrange(9, b.len() as int) == digits_text(
                t.nanosecond as int / pow10(9 - fd),
                fd,
            ))
        }),
{
    let b = time_body_text(t, fd);
    lemma_digits_text_shape(t.hour as int, 2);
    lemma_digits_text_shape(t.minute as int, 2);
    lemma_digits_text_shape(t.second as int, 2);
    if fd >= 1 {
        lemma_pow10_pos(9 - fd);
        vstd::arithmetic::div_mod::lemma_div_pos_is_pos(t.nanosecond as int, pow10(9 - fd));
        lemma_digits_text_shape(t.nanosecond as int / pow10(9 - fd), fd);
    }
    assert(b.subrange(0, 2) =~= digits_text(t.hour as int, 2));
    assert(b.subrange(3, 5) =~= digits_text(t.minute as int, 2));
    if fd >= 0 {
        assert(b.subrange(6, 8) =~= digits_text(t.second as int, 2));
    }
    if fd >= 1 {
        assert(b.subrange(9, b.len() as int) =~= digits_text(
            t.nanosecond as int / pow10(9 - fd),
            fd,
        ));
    }
    assert forall|i: int| 0 <= i < b.len() implies is_digit(#[trigger] b[i]) || b[i] == ':' || b[i]
        == '.' by {
        if 0 <= i < 2 {
            assert(b[i] == b.subrange(0, 2)[i]);
        } else if 3 <= i < 5 {
            assert(b[i] == b.subrange(3, 5)[i - 3]);
        } else if fd >= 0 && 6 <= i < 8 {
            assert(b[i] == b.subrange(6, 8)[i - 6]);
        } else if fd >= 1 && 9 <= i {
            assert(b[i] == b.subrange(9, b.len() as int)[i - 9]);
        }
    }
    assert(b[0] == b.subrange(0, 2)[0]);
    assert(b[1] == b.subrange(0, 2)[1]);
    assert(b[3] == b.subrange(3, 5)[0]);
    assert(b[4] == b.subrange(3, 5)[1]);
    if fd >= 0 {
        assert(b[6] == b.subrange(6, 8)[0]);
        assert(b[7] == b.subrange(6, 8)[1]);
    }
    if fd == -1 {
        assert(b[b.len() - 1] == b.subrange(3, 5)[1]);
    } else if fd == 0 {
        assert(b[b.len() - 1] == b.subrange(6, 8)[1]);
    } else {
        assert(b[b.len() - 1] == b.subrange(9, b.len() as int)[fd - 1]);
    }
}

/// The shape of a zone suffix: its length per variant, and its characters.
pub proof fn lemma_suffix_shape(k: int, oh: int, om: int)
    requires
        suffix_ok(k, oh, om),
    ensures
        ({
            let e = offset_suffix(k, oh, om);
            &&& e.len() == (if k == 0 {
                0int
            } else if k == 1 {
                1int
            } else {
                6
            })
            &&& (k == 1 ==> e[0] == 'Z')
            &&& (k >= 2 ==> (e[0] == '+' || e[0] == '-') && is_digit(e[1]) && is_digit(e[2]) && e[3]
                == ':' && is_digit(e[4]) && is_digit(e[5]))
            &&& (k >= 2 ==> e.subrange(1, 3) == digits_text(oh, 2) && e.subrange(4, 6)
                == digits_text(om, 2))
        }),
{
    let e = offset_suffix(k, oh, om);
    if k >= 2 {
        lemma_digits_text_shape(oh, 2);
        lemma_digits_text_shape(om, 2);
        assert(e.subrange(1, 3) =~= digits_text(oh, 2));
        assert(e.subrange(4, 6) =~= digits_text(om, 2));
        assert(e[1] == e.subrange(1, 3)[0]);
        assert(e[2] == e.subrange(1, 3)[1]);
        assert(e[4] == e.subrange(4, 6)[0]);
        assert(e[5] == e.subrange(4, 6)[1]);
    }
}

/// When no decomposition of a text exists, no time value matches it.
proof fn lemma_no_decomp_no_match(s: Seq<char>)
    requires
        forall|t: D1Time, fd: int, k: int, oh: int, om: int|
            !(time_wf(t) && #[trigger] time_decomp(s, t, fd, k, oh, om)),
    ensures
        forall|t: D1Time| time_wf(t) ==> !time_matches(s, t),
{
    assert forall|t: D1Time| time_wf(t) implies !time_matches(s, t) by {
        if time_matches(s, t) {
            let (fd, k, oh, om): (int, int, int, int) = choose|fd: int, k: int, oh: int, om: int|
                time_decomp(s, t, fd, k, oh, om);
            assert(!(time_wf(t) && time_decomp(s, t, fd, k, oh, om)));
        }
    }
}

} // verus!

verus! {

/// Detect and validate the zone suffix at the end of a time text. Returns the
/// body's end position together with the suffix decomposition; fails exactly
/// when no decomposition of the text as a well-formed time exists because its
/// tail is a malformed offset.
#[verifier::rlimit(60)]
fn strip_time_suffix(s: &str) -> (r: Option<(usize, Ghost<(int, int, int)>)>)
    requires
        1 <= s@.len() <= usize::MAX,
    ensures
        match r {
            Some((end, g)) => {
                &&& end <= s@.len()
                &&& suffix_ok(g@.0, g@.1, g@.2)
                &&& s@.subrange(end as int, s@.len() as int) == offset_suffix(g@.0, g@.1, g@.2)
                &&& forall|t: D1Time, fd: int, k: int, oh: int, om: int|
                    #[trigger] time_decomp(s@, t, fd, k, oh, om) ==> time_body_text(t, fd).len()
                        == end
            },
            None => forall|t: D1Time, fd: int, k: int, oh: int, om: int|
                !(time_wf(t) && #[trigger] time_decomp(s@, t, fd, k, oh, om)),
        },
{
    let n = s.unicode_len();
    if s.get_char(n - 1) == 'Z' {
        let end = n - 1;
        proof {
            assert(s@.subrange(end as int, n as int) =~= offset_suffix(1, 0, 0));
            assert forall|t: D1Time, fd: int, k: int, oh: int, om: int| #[trigger] time_decomp(
                s@,
                t,
                fd,
                k,
                oh,
                om,
            ) implies time_body_text(t, fd).len() == end by {
                lemma_time_body_shape(t, fd);
                lemma_suffix_shape(k, oh, om);
                let b = time_body_text(t, fd);
                let e = offset_suffix(k, oh, om);
                if k == 0 {
                    assert(s@[n - 1] == b[b.len() - 1]);
                } else if k >= 2 {
                    assert(s@[n - 1] == e[5]);
                }
            }
        }
        return Some((end, Ghost((1int, 0int, 0int))));
    }
    if n >= 6 && (s.get_char(n - 6) == '+' || s.get_char(n - 6) == '-') {
        // the tail must be a well-formed signed offset
        let plus = s.get_char(n - 6) == '+';
        let ohv = read_digits(s, n - 5, 2);
        let colon_ok = s.get_char(n - 3) == ':';
        let omv = read_digits(s, n - 2, 2);
        let ok = match (ohv, omv) {
            (Some(a), Some(b)) => colon_ok && a <= 23 && b <= 59,
            _ => false,
        };
        proof {
            assert forall|t: D1Time, fd: int, k: int, oh: int, om: int| #[trigger] time_decomp(
                s@,
                t,
                fd,
                k,
                oh,
                om,
            ) implies k >= 2 && time_body_text(t, fd).len() == n - 6 by {
                lemma_time_body_shape(t, fd);
                lemma_suffix_shape(k, oh, om);
                let b = time_body_text(t, fd);
                let e = offset_suffix(k, oh, om);
                if k == 0 {
                    assert(s@[n - 6] == b[n - 6]);
                } else if k == 1 {
                    assert(s@[n - 1] == e[0]);
                    assert(s@[n - 6] == b[n - 6]);
                }
            }
        }
        if ok {
            let end = n - 6;
            let oh64 = match ohv {
                Some(a) => a,
                None => 0,
            };
            let om64 = match omv {
                Some(b) => b,
                None => 0,
            };
            let ghost kk: int = if plus {
                2
            } else {
                3
            };
            proof {
                lemma_digits_text_shape(oh64 as int, 2);
                lemma_digits_text_shape(om64 as int, 2);
                lemma_suffix_shape(kk, oh64 as int, om64 as int);
                assert(s@.subrange(n - 5, n - 3) == digits_text(oh64 as int, 2));
                assert(s@.subrange(n - 2, n as int) == digits_text(om64 as int, 2));
                assert(s@.subrange(end as int, n as int) =~= offset_suffix(
                    kk,
                    oh64 as int,
                    om64 as int,
                ));
            }
            return Some((end, Ghost((kk, oh64 as int, om64 as int))));
        } else {
            proof {
                assert forall|t: D1Time, fd: int, k: int, oh: int, om: int|
                    !(time_wf(t) && #[trigger] time_decomp(s@, t, fd, k, oh, om)) by {
                    if time_wf(t) && time_decomp(s@, t, fd, k, oh, om) {
                        lemma_time_body_shape(t, fd);
                        lemma_suffix_shape(k, oh, om);
                        let b = time_body_text(t, fd);
                        let e = offset_suffix(k, oh, om);
                        if k == 0 {
                            assert(s@[n - 6] == b[n - 6]);
                        } else if k == 1 {
                            assert(s@[n - 1] == e[0]);
                        }
                        assert(k >= 2 && b.len() == n - 6);
                        assert(s@.subrange(n - 5, n - 3) =~= e.subrange(1, 3));
                        assert(s@.subrange(n - 2, n as int) =~= e.subrange(4, 6));
                        reveal_with_fuel(pow10, 11);
                        lemma_digits_text_props(oh, 2);
                        lemma_digits_text_props(om, 2);
                        match ohv {
                            Some(a) => {
                                lemma_digits_text_props(a as int, 2);
                            },
                            None => {},
                        }
                        match omv {
                            Some(bv) => {
                                lemma_digits_text_props(bv as int, 2);
                            },
                            None => {},
                        }
                        assert(s@[n - 3] == e[3]);
                    }
                }
            }
            return None;
        }
    }
    proof {
        assert(s@.subrange(n as int, n as int) =~= offset_suffix(0, 0, 0));
        assert forall|t: D1Time, fd: int, k: int, oh: int, om: int| #[trigger] time_decomp(
            s@,
            t,
            fd,
            k,
            oh,
            om,
        ) implies time_body_text(t, fd).len() == n by {
            lemma_time_body_shape(t, fd);
            lemma_suffix_shape(k, oh, om);
            let b = time_body_text(t, fd);
            let e = offset_suffix(k, oh, om);
            if k == 1 {
                assert(s@[n - 1] == e[0]);
            } else if k >= 2 {
                assert(s@.len() >= 11);
                assert(s@[n - 6] == e[0]);
            }
        }
    }
    Some((n, Ghost((0int, 0int, 0int))))
}

} // verus!

verus! {

/// Parse a time text: hour and minute, optional seconds, an optional fraction
/// of one to nine digits, and an optional zone suffix that is parsed and
/// ignored. Succeeds exactly on the texts that are some rendering of a
/// well-formed time, and returns that time.
#[verifier::rlimit(100)]
pub fn parse_time(s: &str) -> (r: Option<D1Time>)
    ensures
        match r {
            Some(t) => time_wf(t) && time_matches(s@, t),
            None => forall|t: D1Time| time_wf(t) ==> !time_matches(s@, t),
        },
{
    let n = s.unicode_len();
    if n < 5 {
        proof {
            assert forall|t: D1Time, fd: int, k: int, oh: int, om: int|
                !(time_wf(t) && #[trigger] time_decomp(s@, t, fd, k, oh, om)) by {
                if time_wf(t) && time_decomp(s@, t, fd, k, oh, om) {
                    lemma_time_body_shape(t, fd);
                    lemma_suffix_shape(k, oh, om);
                }
            }
            lemma_no_decomp_no_match(s@);
        }
        return None;
    }
    let stripped = match strip_time_suffix(s) {
        Some(p) => p,
        None => {
            proof {
                lemma_no_decomp_no_match(s@);
            }
            return None;
        },
    };
    let end = stripped.0;
    let ghost (k, oh, om) = stripped.1@;
    if end < 5 {
        proof {
            assert forall|t: D1Time, fd: int, k2: int, oh2: int, om2: int|
                !(time_wf(t) && #[trigger] time_decomp(s@, t, fd, k2, oh2, om2)) by {
                if time_wf(t) && time_decomp(s@, t, fd, k2, oh2, om2) {
                    lemma_time_body_shape(t, fd);
                }
            }
            lemma_no_decomp_no_match(s@);
        }
        return None;
    }
    let hv = read_digits(s, 0, 2);
    let c2 = s.get_char(2);
    let mv = read_digits(s, 3, 2);
    let (h, m) = match (hv, mv) {
        (Some(a), Some(b)) if c2 == ':' => (a, b),
        _ => {
            proof {
                assert forall|t: D1Time, fd: int, k2: int, oh2: int, om2: int|
                    !(time_wf(t) && #[trigger] time_decomp(s@, t, fd, k2, oh2, om2)) by {
                    if time_wf(t) && time_decomp(s@, t, fd, k2, oh2, om2) {
                        lemma_time_body_shape(t, fd);
                        let b = time_body_text(t, fd);
                        assert(s@.subrange(0, 2) =~= b.subrange(0, 2));
                        assert(s@.subrange(3, 5) =~= b.subrange(3, 5));
                        assert(s@[2] == b[2]);
                    }
                }
                lemma_no_decomp_no_match(s@);
            }
            return None;
        },
    };
    let mut sec: u32 = 0;
    let mut ns: u32 = 0;
    let ghost mut fd: int = -1;
    if end > 5 {
        // the body continues with seconds and maybe a fraction
        if !(s.get_char(5) == ':' && end >= 8) {
            proof {
                assert forall|t: D1Time, fd2: int, k2: int, oh2: int, om2: int|
                    !(time_wf(t) && #[trigger] time_decomp(s@, t, fd2, k2, oh2, om2)) by {
                    if time_wf(t) && time_decomp(s@, t, fd2, k2, oh2, om2) {
                        lemma_time_body_shape(t, fd2);
                        let b = time_body_text(t, fd2);
                        if fd2 >= 0 {
                            assert(s@[5] == b[5]);
                        }
                    }
                }
                lemma_no_decomp_no_match(s@);
            }
            return None;
        }
        let sv = match read_digits(s, 6, 2) {
            Some(v) => v,
            None => {
                proof {
                    assert forall|t: D1Time, fd2: int, k2: int, oh2: int, om2: int|
                        !(time_wf(t) && #[trigger] time_decomp(s@, t, fd2, k2, oh2, om2)) by {
                        if time_wf(t) && time_decomp(s@, t, fd2, k2, oh2, om2) {
                            lemma_time_body_shape(t, fd2);
                            let b = time_body_text(t, fd2);
                            if fd2 >= 0 {
                                assert(s@.subrange(6, 8) =~= b.subrange(6, 8));
                            } else {
                                assert(b.len() == 5);
                            }
                        }
                    }
                    lemma_no_decomp_no_match(s@);
                }
                return None;
            },
        };
        sec = sv;
        proof {
            fd = 0;
        }
        if end > 8 {
            // a fraction of one to nine digits follows
            if !(s.get_char(8) == '.' && end >= 10 && end <= 18) {
                proof {
                    assert forall|t: D1Time, fd2: int, k2: int, oh2: int, om2: int|
                        !(time_wf(t) && #[trigger] time_decomp(s@, t, fd2, k2, oh2, om2)) by {
                        if time_wf(t) && time_decomp(s@, t, fd2, k2, oh2, om2) {
                            lemma_time_body_shape(t, fd2);
                            let b = time_body_text(t, fd2);
                            if fd2 >= 1 {
                                assert(s@[8] == b[8]);
                            }
                        }
                    }
                    lemma_no_decomp_no_match(s@);
                }
                return None;
            }
            let fdw: usize = end - 9;
            let fv = match read_digits(s, 9, fdw) {
                Some(v) => v,
                None => {
                    proof {
                        assert forall|t: D1Time, fd2: int, k2: int, oh2: int, om2: int|
                            !(time_wf(t) && #[trigger] time_decomp(s@, t, fd2, k2, oh2, om2)) by {
                            if time_wf(t) && time_decomp(s@, t, fd2, k2, oh2, om2) {
                                lemma_time_body_shape(t, fd2);
                                let b = time_body_text(t, fd2);
                                if fd2 >= 1 {
                                    assert(s@.subrange(9, end as int) =~= b.subrange(
                                        9,
                                        b.len() as int,
                                    ));
                                }
                            }
                        }
                        lemma_no_decomp_no_match(s@);
                    }
                    return None;
                },
            };
            let p = pow10_exec((9 - fdw) as u32);
            proof {
                lemma_pow10_adds(fdw as int, 9 - fdw as int);
                reveal_with_fuel(pow10, 11);
                assert(fv * p < 1000000000) by {
                    lemma_pow10_pos(9 - fdw as int);
                    vstd::arithmetic::mul::lemma_mul_inequality(
                        fv as int,
                        pow10(fdw as int) - 1,
                        pow10(9 - fdw as int),
                    );
                    vstd::arithmetic::mul::lemma_mul_is_commutative(
                        pow10(fdw as int) - 1,
                        pow10(9 - fdw as int),
                    );
                    assert((pow10(fdw as int) - 1) * pow10(9 - fdw as int) == pow10(fdw as int)
                        * pow10(9 - fdw as int) - pow10(9 - fdw as int)) by {
                        vstd::arithmetic::mul::lemma_mul_is_distributive_sub_other_way(
                            pow10(9 - fdw as int),
                            pow10(fdw as int),
                            1,
                        );
                    }
                }
            }
            ns = fv * p;
            proof {
                fd = fdw as int;
                vstd::arithmetic::div_mod::lemma_mod_multiples_basic(fv as int, p as int);
                vstd::arithmetic::div_mod::lemma_div_by_multiple(fv as int, p as int);
                assert(ns as int % pow10(9 - fd) == 0);
                assert(ns as int / pow10(9 - fd) == fv as int);
            }
        }
    }
    let ok = h <= 23 && m <= 59 && sec <= 59;
    if !ok {
        proof {
            assert forall|t: D1Time, fd2: int, k2: int, oh2: int, om2: int|
                !(time_wf(t) && #[trigger] time_decomp(s@, t, fd2, k2, oh2, om2)) by {
                if time_wf(t) && time_decomp(s@, t, fd2, k2, oh2, om2) {
                    lemma_time_body_shape(t, fd2);
                    reveal_with_fuel(pow10, 11);
                    lemma_digits_text_props(t.hour as int, 2);
                    lemma_digits_text_props(t.minute as int, 2);
                    lemma_digits_text_props(h as int, 2);
                    lemma_digits_text_props(m as int, 2);
                    let b = time_body_text(t, fd2);
                    assert(s@.subrange(0, 2) =~= b.subrange(0, 2));
                    assert(s@.subrange(3, 5) =~= b.subrange(3, 5));
                    assert(h == t.hour);
                    assert(m == t.minute);
                    if fd2 >= 0 {
                        lemma_digits_text_props(t.second as int, 2);
                        lemma_digits_text_props(sec as int, 2);
                        assert(s@.subrange(6, 8) =~= b.subrange(6, 8));
                        assert(sec == t.second);
                    } else {
                        assert(b.len() == 5);
                        assert(sec == 0);
                    }
                }
            }
            lemma_no_decomp_no_match(s@);
        }
        return None;
    }
    let t0 = D1Time { hour: h, minute: m, second: sec, nanosecond: ns };
    proof {
        assert(time_variant_ok(t0, fd));
        lemma_time_body_shape(t0, fd);
        let b = time_body_text(t0, fd);
        assert(b.len() == end);
        let rhs = b + offset_suffix(k, oh, om);
        assert forall|i: int| 0 <= i < s@.len() implies s@[i] == rhs[i] by {
            if i < 2 {
                assert(b[i] == b.subrange(0, 2)[i]);
                assert(s@[i] == s@.subrange(0, 2)[i]);
            } else if 3 <= i < 5 {
                assert(b[i] == b.subrange(3, 5)[i - 3]);
                assert(s@[i] == s@.subrange(3, 5)[i - 3]);
            } else if fd >= 0 && 6 <= i < 8 {
                assert(b[i] == b.subrange(6, 8)[i - 6]);
                assert(s@[i] == s@.subrange(6, 8)[i - 6]);
            } else if fd >= 1 && 9 <= i < end {
                assert(b[i] == b.subrange(9, b.len() as int)[i - 9]);
                assert(s@[i] == s@.subrange(9, end as int)[i - 9]);
            } else if i >= end {
                assert(s@[i] == s@.subrange(end as int, s@.len() as int)[i - end]);
            }
        }
        assert(s@ =~= rhs);
        assert(time_decomp(s@, t0, fd, k, oh, om));
        assert(time_matches(s@, t0));
    }
    Some(t0)
}

} // verus!

verus! {

/// One full decomposition of a text as a timestamp: a date, a space or a
/// literal T, and a time body with a zone suffix.
pub open spec fn timestamp_decomp(
    s: Seq<char>,
    ts: D1Timestamp,
    sep: char,
    fd: int,
    k: int,
    oh: int,
    om: int,
) -> bool {
    &&& (sep == ' ' || sep == 'T')
    &&& time_variant_ok(ts.time, fd)
    &&& suffix_ok(k, oh, om)
    &&& s == date_text(ts.date) + seq![sep] + time_body_text(ts.time, fd) + offset_suffix(
        k,
        oh,
        om,
    )
}

/// Whether a text is some rendering of the given timestamp.
pub open spec fn timestamp_matches(s: Seq<char>, ts: D1Timestamp) -> bool {
    exists|sep: char, fd: int, k: int, oh: int, om: int|
        timestamp_decomp(s, ts, sep, fd, k, oh, om)
}

/// When no decomposition of a text exists, no timestamp matches it.
proof fn lemma_no_ts_decomp_no_match(s: Seq<char>)
    requires
        forall|ts: D1Timestamp, sep: char, fd: int, k: int, oh: int, om: int|
            !(timestamp_wf(ts) && #[trigger] timestamp_decomp(s, ts, sep, fd, k, oh, om)),
    ensures
        forall|ts: D1Timestamp| timestamp_wf(ts) ==> !timestamp_matches(s, ts),
{
    assert forall|ts: D1Timestamp| timestamp_wf(ts) implies !timestamp_matches(s, ts) by {
        if timestamp_matches(s, ts) {
            let (sep, fd, k, oh, om): (char, int, int, int, int) = choose|
                sep: char,
                fd: int,
                k: int,
                oh: int,
                om: int,
            | timestamp_decomp(s, ts, sep, fd, k, oh, om);
            assert(!(timestamp_wf(ts) && timestamp_decomp(s, ts, sep, fd, k, oh, om)));
        }
    }
}

/// Parse a timestamp text: a date, a space or a literal T, and a time in the
/// time grammar. Succeeds exactly on the texts that are some rendering of a
/// well-formed timestamp, and returns that timestamp.
#[verifier::rlimit(100)]
pub fn parse_timestamp(s: &str) -> (r: Option<D1Timestamp>)
    ensures
        match r {
            Some(ts) => timestamp_wf(ts) && timestamp_matches(s@, ts),
            None => forall|ts: D1Timestamp| timestamp_wf(ts) ==> !timestamp_matches(s@, ts),
        },
{
    let n = s.unicode_len();
    if n < 16 {
        proof {
            assert forall|ts: D1Timestamp, sep: char, fd: int, k: int, oh: int, om: int|
                !(timestamp_wf(ts) && #[trigger] timestamp_decomp(s@, ts, sep, fd, k, oh, om)) by {
                if timestamp_wf(ts) && timestamp_decomp(s@, ts, sep, fd, k, oh, om) {
                    lemma_date_text_shape(ts.date);
                    lemma_time_body_shape(ts.time, fd);
                    lemma_suffix_shape(k, oh, om);
                }
            }
            lemma_no_ts_decomp_no_match(s@);
        }
        return None;
    }
    let date_part = s.substring_char(0, 10);
    let d = match parse_date(date_part) {
        Some(d) => d,
        None => {
            proof {
                assert forall|ts: D1Timestamp, sep: char, fd: int, k: int, oh: int, om: int|
                    !(timestamp_wf(ts) && #[trigger] timestamp_decomp(s@, ts, sep, fd, k, oh, om))
                    by {
                    if timestamp_wf(ts) && timestamp_decomp(s@, ts, sep, fd, k, oh, om) {
                        lemma_date_text_shape(ts.date);
                        assert(date_part@ =~= date_text(ts.date));
                    }
                }
                lemma_no_ts_decomp_no_match(s@);
            }
            return None;
        },
    };
    let sep = s.get_char(10);
    if !(sep == ' ' || sep == 'T') {
        proof {
            assert forall|ts: D1Timestamp, sep2: char, fd: int, k: int, oh: int, om: int|
                !(timestamp_wf(ts) && #[trigger] timestamp_decomp(s@, ts, sep2, fd, k, oh, om)) by {
                if timestamp_wf(ts) && timestamp_decomp(s@, ts, sep2, fd, k, oh, om) {
                    lemma_date_text_shape(ts.date);
                    assert(s@[10] == sep2);
                }
            }
            lemma_no_ts_decomp_no_match(s@);
        }
        return None;
    }
    let rest = s.substring_char(11, n);
    let t = match parse_time(rest) {
        Some(t) => t,
        None => {
            proof {
                assert forall|ts: D1Timestamp, sep2: char, fd: int, k: int, oh: int, om: int|
                    !(timestamp_wf(ts) && #[trigger] timestamp_decomp(s@, ts, sep2, fd, k, oh, om))
                    by {
                    if timestamp_wf(ts) && timestamp_decomp(s@, ts, sep2, fd, k, oh, om) {
                        lemma_date_text_shape(ts.date);
                        assert(rest@ =~= time_body_text(ts.time, fd) + offset_suffix(k, oh, om));
                        assert(time_decomp(rest@, ts.time, fd, k, oh, om));
                        assert(time_matches(rest@, ts.time));
                    }
                }
                lemma_no_ts_decomp_no_match(s@);
            }
            return None;
        },
    };
    let ts0 = D1Timestamp { date: d, time: t };
    proof {
        assert(time_matches(rest@, t));
        let (fd, k, oh, om): (int, int, int, int) = choose|fd: int, k: int, oh: int, om: int|
            time_decomp(rest@, t, fd, k, oh, om);
        assert(time_decomp(rest@, t, fd, k, oh, om));
        lemma_date_text_shape(d);
        lemma_time_body_shape(t, fd);
        lemma_suffix_shape(k, oh, om);
        let rhs = date_text(d) + seq![sep] + time_body_text(t, fd) + offset_suffix(k, oh, om);
        assert(rest@ == time_body_text(t, fd) + offset_suffix(k, oh, om));
        assert(rest@.len() == time_body_text(t, fd).len() + offset_suffix(k, oh, om).len());
        assert(rest@ == s@.subrange(11, n as int));
        assert(rest@.len() == n - 11);
        assert(date_text(d).len() == 10);
        assert(rhs.len() == s@.len());
        assert forall|i: int| 0 <= i < s@.len() implies s@[i] == rhs[i] by {
            if i < 10 {
                assert(rhs[i] == date_text(d)[i]);
                assert(s@[i] == s@.subrange(0, 10)[i]);
            } else if i >= 11 {
                assert(rhs[i] == (time_body_text(t, fd) + offset_suffix(k, oh, om))[i - 11]);
                assert(s@[i] == s@.subrange(11, n as int)[i - 11]);
            }
        }
        assert(s@ =~= rhs);
        assert(timestamp_decomp(s@, ts0, sep, fd, k, oh, om));
        assert(timestamp_matches(s@, ts0));
    }
    Some(ts0)
}

} // verus!
