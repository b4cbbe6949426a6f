//! The numeric day-count fallback and the civil-calendar arithmetic under it.
//!
//! Some producers write timestamps as a fractional day count from a fixed
//! epoch instead of text. Decoding interprets such a text as an exact decimal
//! number of days, converts it to seconds from the Unix epoch (the day-count
//! epoch lies 2440587.5 days before it, so one scaled subtraction and a
//! multiplication by 86400 suffice), truncates the seconds toward zero, takes
//! the fractional remainder as nanoseconds, and reconstructs the civil
//! timestamp. All arithmetic here is exact integer arithmetic on the decimal's
//! scaled value; no floating point is involved.

use vstd::prelude::*;
use vstd::arithmetic::div_mod::lemma_fundamental_div_mod;
use vstd::arithmetic::div_mod::lemma_fundamental_div_mod_converse;
use crate::date_and_time::{
    all_digits, date_wf, days_in_month, days_in_month_of, digits_val, is_digit, is_leap_year,
    pow10, timestamp_wf, D1Date, D1Time, D1Timestamp,
};

verus! {

/// Days from the calendar's year zero up to the first day of the given year,
/// in closed form: one leap day per year divisible by four, taken back for
/// centuries, restored for years divisible by four hundred.
pub open spec fn days_before_year(y: int) -> int {
    365 * y + (y + 3) / 4 - (y + 99) / 100 + (y + 399) / 400
}

/// Days in the given year.
pub open spec fn days_in_year_of(y: int) -> int {
    if is_leap_year(y) {
        366
    } else {
        365
    }
}

/// Days from the first of January up to the first of the given month.
pub open spec fn days_before_month(y: int, m: int) -> int
    decreases m,
{
    if m <= 1 {
        0
    } else {
        days_before_month(y, m - 1) + days_in_month_of(y, m - 1)
    }
}

/// The day number of a date: days from the calendar's year zero.
pub open spec fn day_number(d: D1Date) -> int {
    days_before_year(d.year as int) + days_before_month(d.year as int, d.month as int) + d.day - 1
}

/// Days from the calendar's year zero to the Unix epoch.
pub const EPOCH_DAY_NUMBER: i64 = 719528;

/// Seconds from the Unix epoch of a timestamp, the civil reading.
pub open spec fn unix_seconds_of(ts: D1Timestamp) -> int {
    (day_number(ts.date) - EPOCH_DAY_NUMBER) * 86400 + ts.time.hour * 3600 + ts.time.minute * 60
        + ts.time.second
}

/// The smallest representable timestamp, in seconds from the Unix epoch: the
/// first instant of year zero.
pub const MIN_TIMESTAMP_SECONDS: i64 = -62167219200;

/// One past the largest representable timestamp, in seconds from the Unix
/// epoch: the first instant of the year ten thousand.
pub const MAX_TIMESTAMP_SECONDS: i64 = 253402300800;

/// One year advances the day count by its length.
proof fn lemma_floor_step(y: int, d: int)
    requires
        y >= 0,
        d >= 2,
    ensures
        (y + d) / d == y / d + 1,
        (y + d - 1) / d == y / d + (if y % d == 0 {
            0int
        } else {
            1
        }),
{
    lemma_fundamental_div_mod(y, d);
    let q = y / d;
    let r = y % d;
    assert((q + 1) * d == q * d + d) by {
        vstd::arithmetic::mul::lemma_mul_is_distributive_add_other_way(d, q, 1);
    }
    assert(q * d == d * q) by {
        vstd::arithmetic::mul::lemma_mul_is_commutative(q, d);
    }
    lemma_fundamental_div_mod_converse(y + d, d, q + 1, r);
    if r == 0 {
        lemma_fundamental_div_mod_converse(y + d - 1, d, q, d - 1);
    } else {
        lemma_fundamental_div_mod_converse(y + d - 1, d, q + 1, r - 1);
    }
}

/// The closed-form day count steps by the year's length.
pub proof fn lemma_days_before_year_step(y: int)
    requires
        y >= 0,
    ensures
        days_before_year(y + 1) == days_before_year(y) + days_in_year_of(y),
{
    lemma_floor_step(y, 4);
    lemma_floor_step(y, 100);
    lemma_floor_step(y, 400);
}

/// The day count never shrinks as years advance.
pub proof fn lemma_days_before_year_mono(a: int, b: int)
    requires
        0 <= a <= b,
    ensures
        days_before_year(a) <= days_before_year(b),
    decreases b - a,
{
    if a < b {
        lemma_days_before_year_step(b - 1);
        lemma_days_before_year_mono(a, b - 1);
    }
}

/// The months of a year sum to its length.
pub proof fn lemma_days_before_month_full(y: int)
    ensures
        days_before_month(y, 13) == days_in_year_of(y),
{
    reveal_with_fuel(days_before_month, 14);
}

/// Month starts never shrink as months advance.
pub proof fn lemma_days_before_month_mono(y: int, a: int, b: int)
    requires
        a <= b,
    ensures
        days_before_month(y, a) <= days_before_month(y, b),
    decreases b - a,
{
    if a < b {
        lemma_days_before_month_mono(y, a, b - 1);
    }
}

/// A well-formed date's day number lies in the calendar's range.
pub proof fn lemma_day_number_range(d: D1Date)
    requires
        date_wf(d),
    ensures
        0 <= day_number(d) < 3652425,
        days_before_year(10000) == 3652425,
{
    lemma_days_before_year_mono(0, d.year as int);
    lemma_days_before_month_mono(d.year as int, 1, d.month as int);
    lemma_days_before_month_mono(d.year as int, d.month as int + 1, 13);
    lemma_days_before_month_full(d.year as int);
    lemma_days_before_year_step(d.year as int);
    lemma_days_before_year_mono(d.year as int + 1, 10000);
    assert(days_before_month(d.year as int, d.month as int + 1) == days_before_month(
        d.year as int,
        d.month as int,
    ) + days_in_month_of(d.year as int, d.month as int));
}

/// Days in the given year.
pub fn days_in_year(y: u32) -> (r: u32)
    ensures
        r == days_in_year_of(y as int),
{
    if y % 4 == 0 && (y % 100 != 0 || y % 400 == 0) {
        366
    } else {
        365
    }
}

/// The date with the given day number, found by walking years and then
/// months from the calendar's start.
pub fn date_from_day_number(n: u32) -> (d: D1Date)
    requires
        n < 3652425,
    ensures
        date_wf(d),
        day_number(d) == n,
{
    let mut y: u32 = 0;
    let mut rem: u32 = n;
    let mut len = days_in_year(0);
    while rem >= len
        invariant
            n < 3652425,
            y <= 9999,
            len == days_in_year_of(y as int),
            days_before_year(y as int) + rem == n,
        decreases rem,
    {
        proof {
            lemma_days_before_year_step(y as int);
            if y == 9999 {
                assert(days_before_year(10000) == 3652425);
                assert(false);
            }
        }
        rem = rem - len;
        y = y + 1;
        len = days_in_year(y);
    }
    let mut m: u32 = 1;
    let mut dim = days_in_month(y, 1);
    while rem >= dim
        invariant
            y <= 9999,
            1 <= m <= 12,
            dim == days_in_month_of(y as int, m as int),
            days_before_year(y as int) + days_before_month(y as int, m as int) + rem == n,
            days_before_month(y as int, m as int) + rem < days_in_year_of(y as int),
        decreases 12 - m,
    {
        proof {
            if m == 12 {
                lemma_days_before_month_full(y as int);
                reveal_with_fuel(days_before_month, 14);
                assert(false);
            }
            lemma_days_before_month_mono(y as int, 1, m as int);
            lemma_days_before_month_full(y as int);
            lemma_days_before_month_mono(y as int, m as int + 1, 13);
        }
        rem = rem - dim;
        m = m + 1;
        dim = days_in_month(y, m);
    }
    let d = D1Date { year: y, month: m, day: rem + 1 };
    proof {
        lemma_days_before_month_mono(d.year as int, 1, d.month as int);
        lemma_days_before_year_mono(0, d.year as int);
    }
    d
}

/// The civil timestamp a count of seconds from the Unix epoch denotes, with
/// the given nanosecond fraction attached; absent exactly when the count
/// falls outside the representable years.
pub fn timestamp_from_unix_seconds(secs: i64, nanos: u32) -> (r: Option<D1Timestamp>)
    requires
        nanos < 1000000000,
    ensures
        match r {
            Some(ts) => {
                &&& timestamp_wf(ts)
                &&& unix_seconds_of(ts) == secs
                &&& ts.time.nanosecond == nanos
            },
            None => secs < MIN_TIMESTAMP_SECONDS || secs >= MAX_TIMESTAMP_SECONDS,
        },
{
    if secs < MIN_TIMESTAMP_SECONDS || secs >= MAX_TIMESTAMP_SECONDS {
        return None;
    }
    let shifted: u64 = (secs - MIN_TIMESTAMP_SECONDS) as u64;
    let day: u64 = shifted / 86400;
    let sod: u64 = shifted % 86400;
    let date = date_from_day_number(day as u32);
    let hour: u32 = (sod / 3600) as u32;
    let minute: u32 = ((sod % 3600) / 60) as u32;
    let second: u32 = (sod % 60) as u32;
    let ts = D1Timestamp { date, time: D1Time { hour, minute, second, nanosecond: nanos } };
    proof {
        lemma_fundamental_div_mod(shifted as int, 86400);
        lemma_fundamental_div_mod(sod as int, 3600);
        lemma_fundamental_div_mod(sod as int % 3600, 60);
        vstd::arithmetic::div_mod::lemma_mod_mod(sod as int, 60, 60);
        assert(sod as int % 3600 % 60 == sod as int % 60) by {
            vstd::arithmetic::div_mod::lemma_mod_breakdown(sod as int, 60, 60);
        }
        assert(hour * 3600 + minute * 60 + second == sod) by {
            vstd::arithmetic::div_mod::lemma_mod_breakdown(sod as int, 60, 60);
        }
        assert((day_number(ts.date) - EPOCH_DAY_NUMBER) * 86400 == day * 86400 - EPOCH_DAY_NUMBER
            * 86400) by {
            vstd::arithmetic::mul::lemma_mul_is_distributive_sub_other_way(
                86400,
                day_number(ts.date),
                EPOCH_DAY_NUMBER as int,
            );
        }
    }
    Some(ts)
}

} // verus!

verus! {

/// The sign marker of a decimal day-count text: none, plus, or minus.
pub open spec fn julian_sign(s: Seq<char>) -> int {
    if s.len() == 0 {
        0
    } else if s[0] == '+' {
        1
    } else if s[0] == '-' {
        2
    } else {
        0
    }
}

/// Where the digits of a decimal day-count text begin.
pub open spec fn julian_start(s: Seq<char>) -> int {
    if julian_sign(s) == 0 {
        0
    } else {
        1
    }
}

/// Whether `dot` splits the text as a decimal day count: an optional sign, a
/// nonempty run of integer digits, and optionally a dot with one to twelve
/// fraction digits. `dot` is the dot's position, or the text's length when
/// there is no fraction.
pub open spec fn julian_split(s: Seq<char>, dot: int) -> bool {
    &&& julian_start(s) < dot <= s.len()
    &&& all_digits(s.subrange(julian_start(s), dot))
    &&& (dot < s.len() ==> {
        &&& s[dot] == '.'
        &&& dot + 1 < s.len()
        &&& s.len() - dot - 1 <= 12
        &&& all_digits(s.subrange(dot + 1, s.len() as int))
    })
}

/// The number of fraction digits of a split.
pub open spec fn julian_frac_len(s: Seq<char>, dot: int) -> int {
    if dot == s.len() {
        0
    } else {
        s.len() - dot - 1
    }
}

/// The day count as a signed integer scaled by ten to the fraction length.
pub open spec fn julian_scaled(s: Seq<char>, dot: int) -> int {
    (if julian_sign(s) == 2 {
        -1int
    } else {
        1
    }) * (digits_val(s.subrange(julian_start(s), dot)) * pow10(julian_frac_len(s, dot)) + (if dot
        == s.len() {
        0int
    } else {
        digits_val(s.subrange(dot + 1, s.len() as int))
    }))
}

/// Truncating division: toward zero, as the numeric fallback demands.
pub open spec fn trunc_div(a: int, b: int) -> int {
    if a >= 0 {
        a / b
    } else {
        -((-a) / b)
    }
}

/// The scaled seconds numerator: the day count shifted to the Unix epoch and
/// multiplied by the seconds of a day, still scaled by ten to the fraction
/// length. The day-count epoch lies 2440587.5 days before the Unix epoch, and
/// 2440587.5 times 86400 is exactly 210866760000.
pub open spec fn julian_p(s: Seq<char>, dot: int) -> int {
    julian_scaled(s, dot) * 86400 - 210866760000 * pow10(julian_frac_len(s, dot))
}

/// The seconds a decimal day-count text denotes, truncated toward zero.
pub open spec fn julian_seconds(s: Seq<char>, dot: int) -> int {
    trunc_div(julian_p(s, dot), pow10(julian_frac_len(s, dot)))
}

/// The nanosecond fraction a decimal day-count text denotes: the fractional
/// remainder of the seconds scaled to nanoseconds and truncated, and zero for
/// a count before the epoch.
pub open spec fn julian_nanos(s: Seq<char>, dot: int) -> int {
    if julian_p(s, dot) >= 0 {
        (julian_p(s, dot) % pow10(julian_frac_len(s, dot))) * 1000000000 / pow10(
            julian_frac_len(s, dot),
        )
    } else {
        0
    }
}

/// A split's dot position is determined by the text: it is the end of the
/// digit run that begins after the sign.
proof fn lemma_julian_split_unique(s: Seq<char>, e: int)
    requires
        julian_start(s) <= e <= s.len(),
        all_digits(s.subrange(julian_start(s), e)),
        e < s.len() ==> !is_digit(s[e]),
    ensures
        forall|dot: int| #[trigger] julian_split(s, dot) ==> dot == e,
{
    assert forall|dot: int| #[trigger] julian_split(s, dot) implies dot == e by {
        let start = julian_start(s);
        if dot < e {
            assert(is_digit(s.subrange(start, e)[dot - start]));
        } else if dot > e {
            assert(is_digit(s.subrange(start, dot)[e - start]));
        }
    }
}

/// Find the end of the digit run that starts at the given position.
fn scan_digits(s: &str, from: usize) -> (e: usize)
    requires
        from <= s@.len(),
        s@.len() <= usize::MAX,
    ensures
        from <= e <= s@.len(),
        all_digits(s@.subrange(from as int, e as int)),
        e < s@.len() ==> !is_digit(s@[e as int]),
{
    let n = s.unicode_len();
    let mut i = from;
    while i < n
        invariant
            from <= i <= n,
            n == s@.len(),
            s@.len() <= usize::MAX,
            all_digits(s@.subrange(from as int, i as int)),
        decreases n - i,
    {
        let c = s.get_char(i);
        match crate::date_and_time::digit_of_char(c) {
            Some(_) => {
                proof {
                    assert(s@.subrange(from as int, i + 1) =~= s@.subrange(
                        from as int,
                        i as int,
                    ).push(s@[i as int]));
                }
                i = i + 1;
            },
            None => {
                return i;
            },
        }
    }
    i
}

/// Read a digit run's value, saturating at the hundred-million mark: a day
/// count that large lies far outside the representable years, so its exact
/// value no longer matters.
fn digits_value_sat(s: &str, from: usize, to: usize) -> (r: (u64, bool))
    requires
        from <= to <= s@.len(),
        s@.len() <= usize::MAX,
        all_digits(s@.subrange(from as int, to as int)),
    ensures
        r.1 ==> digits_val(s@.subrange(from as int, to as int)) >= 100000000,
        !r.1 ==> r.0 == digits_val(s@.subrange(from as int, to as int)) && r.0 < 100000000,
{
    let ghost win = s@.subrange(from as int, to as int);
    let mut acc: u64 = 0;
    let mut sat = false;
    let mut i = from;
    while i < to
        invariant
            from <= i <= to <= s@.len(),
            s@.len() <= usize::MAX,
            win == s@.subrange(from as int, to as int),
            all_digits(win),
            sat ==> digits_val(win.take(i - from)) >= 100000000,
            !sat ==> acc == digits_val(win.take(i - from)) && acc < 100000000,
        decreases to - i,
    {
        let c = s.get_char(i);
        proof {
            assert(win[i - from] == s@[i as int]);
            assert(is_digit(win[i - from]));
            assert(win.take(i + 1 - from) =~= win.take(i - from).push(win[i - from]));
            assert(win.take(i + 1 - from).drop_last() =~= win.take(i - from));
        }
        let d = match crate::date_and_time::digit_of_char(c) {
            Some(d) => d,
            None => {
                proof {
                    assert(false);
                }
                0
            },
        };
        if sat {
        } else if acc * 10 + (d as u64) >= 100000000 {
            sat = true;
        } else {
            acc = acc * 10 + (d as u64);
        }
        i = i + 1;
    }
    proof {
        assert(win.take(to - from) =~= win);
    }
    (acc, sat)
}

/// Read a digit run of at most twelve digits exactly.
fn digits_value_u64(s: &str, from: usize, to: usize) -> (r: u64)
    requires
        from <= to <= s@.len(),
        to - from <= 12,
        s@.len() <= usize::MAX,
        all_digits(s@.subrange(from as int, to as int)),
    ensures
        r == digits_val(s@.subrange(from as int, to as int)),
        r < pow10((to - from) as int),
{
    let ghost win = s@.subrange(from as int, to as int);
    proof {
        reveal_with_fuel(pow10, 14);
    }
    let mut acc: u64 = 0;
    let mut i = from;
    while i < to
        invariant
            from <= i <= to <= s@.len(),
            to - from <= 12,
            s@.len() <= usize::MAX,
            win == s@.subrange(from as int, to as int),
            all_digits(win),
            acc == digits_val(win.take(i - from)),
            acc < pow10(i - from),
        decreases to - i,
    {
        let c = s.get_char(i);
        proof {
            assert(win[i - from] == s@[i as int]);
            assert(is_digit(win[i - from]));
            assert(win.take(i + 1 - from) =~= win.take(i - from).push(win[i - from]));
            assert(win.take(i + 1 - from).drop_last() =~= win.take(i - from));
        }
        let d = match crate::date_and_time::digit_of_char(c) {
            Some(d) => d,
            None => {
                proof {
                    assert(false);
                }
                0
            },
        };
        proof {
            assert(pow10(i + 1 - from) == 10 * pow10(i - from));
            assert(acc * 10 + d < pow10(i + 1 - from)) by {
                vstd::arithmetic::mul::lemma_mul_inequality(
                    acc as int,
                    pow10(i - from) - 1,
                    10,
                );
            }
            crate::date_and_time::lemma_pow10_mono(i + 1 - from, 12);
            reveal_with_fuel(pow10, 14);
            assert(pow10(12) == 1000000000000);
        }
        acc = acc * 10 + (d as u64);
        i = i + 1;
    }
    proof {
        assert(win.take(to - from) =~= win);
        crate::date_and_time::lemma_pow10_mono((to - from) as int, 12);
    }
    acc
}

} // verus!

verus! {

/// Ten to the given power, executable at the widths the fraction needs.
fn pow10_u64(k: u32) -> (r: u64)
    requires
        k <= 12,
    ensures
        r == pow10(k as int),
        r >= 1,
{
    proof {
        reveal_with_fuel(pow10, 14);
    }
    match k {
        0 => 1,
        1 => 10,
        2 => 100,
        3 => 1000,
        4 => 10000,
        5 => 100000,
        6 => 1000000,
        7 => 10000000,
        8 => 100000000,
        9 => 1000000000,
        10 => 10000000000,
        11 => 100000000000,
        _ => 1000000000000,
    }
}

/// A digit run's value is never negative.
proof fn lemma_digits_val_nonneg(s: Seq<char>)
    requires
        all_digits(s),
    ensures
        digits_val(s) >= 0,
{
    crate::date_and_time::lemma_digits_text_inverse(s);
}

/// A day count whose integer digits reach nine figures denotes an instant far
/// outside the representable years.
proof fn lemma_julian_out_of_range(s: Seq<char>, dot: int)
    requires
        julian_split(s, dot),
        digits_val(s.subrange(julian_start(s), dot)) >= 100000000,
    ensures
        !(MIN_TIMESTAMP_SECONDS <= julian_seconds(s, dot) < MAX_TIMESTAMP_SECONDS),
{
    let l = julian_frac_len(s, dot);
    let p10 = pow10(l);
    crate::date_and_time::lemma_pow10_pos(l);
    let iv = digits_val(s.subrange(julian_start(s), dot));
    let fv: int = if dot == s.len() {
        0int
    } else {
        digits_val(s.subrange(dot + 1, s.len() as int))
    };
    if dot < s.len() {
        lemma_digits_val_nonneg(s.subrange(dot + 1, s.len() as int));
    }
    let mag = iv * p10 + fv;
    assert(mag >= 100000000 * p10) by (nonlinear_arith)
        requires
            iv >= 100000000,
            fv >= 0,
            p10 >= 1,
            mag == iv * p10 + fv,
    ;
    let p = julian_p(s, dot);
    if julian_sign(s) != 2 {
        assert(p >= 8429133240000 * p10) by (nonlinear_arith)
            requires
                mag >= 100000000 * p10,
                p10 >= 1,
                p == mag * 86400 - 210866760000 * p10,
        ;
        assert(p / p10 >= 8429133240000) by {
            vstd::arithmetic::div_mod::lemma_div_by_multiple(8429133240000, p10);
            vstd::arithmetic::div_mod::lemma_div_is_ordered(8429133240000 * p10, p, p10);
        }
        assert(julian_seconds(s, dot) >= 8429133240000);
    } else {
        assert(-p >= 8850866760000 * p10) by (nonlinear_arith)
            requires
                mag >= 100000000 * p10,
                p10 >= 1,
                p == (-1) * mag * 86400 - 210866760000 * p10,
        ;
        assert((-p) / p10 >= 8850866760000) by {
            vstd::arithmetic::div_mod::lemma_div_by_multiple(8850866760000, p10);
            vstd::arithmetic::div_mod::lemma_div_is_ordered(8850866760000 * p10, -p, p10);
        }
        assert(julian_seconds(s, dot) <= -8850866760000);
    }
}

/// Decode a decimal day-count text as a civil timestamp: absent when the text
/// is not such a decimal, or when the instant it denotes falls outside the
/// representable years.
#[verifier::rlimit(100)]
pub fn parse_julian(s: &str) -> (r: Option<D1Timestamp>)
    ensures
        match r {
            Some(ts) => {
                &&& timestamp_wf(ts)
                &&& exists|dot: int|
                    {
                        &&& #[trigger] julian_split(s@, dot)
                        &&& MIN_TIMESTAMP_SECONDS <= julian_seconds(s@, dot)
                            < MAX_TIMESTAMP_SECONDS
                        &&& unix_seconds_of(ts) == julian_seconds(s@, dot)
                        &&& ts.time.nanosecond == julian_nanos(s@, dot)
                    }
            },
            None => forall|dot: int|
                #[trigger] julian_split(s@, dot) ==> !(MIN_TIMESTAMP_SECONDS <= julian_seconds(
                    s@,
                    dot,
                ) < MAX_TIMESTAMP_SECONDS),
        },
{
    let n = s.unicode_len();
    if n == 0 {
        return None;
    }
    let c0 = s.get_char(0);
    let neg = c0 == '-';
    let start: usize = if c0 == '+' || c0 == '-' {
        1
    } else {
        0
    };
    let e = scan_digits(s, start);
    if e == start {
        proof {
            assert forall|dot: int| #[trigger] julian_split(s@, dot) implies false by {
                assert(is_digit(s@.subrange(julian_start(s@), dot)[0]));
            }
        }
        return None;
    }
    let mut fval: u64 = 0;
    let mut fl: usize = 0;
    if e < n {
        if s.get_char(e) != '.' {
            proof {
                lemma_julian_split_unique(s@, e as int);
                assert forall|dot: int| #[trigger] julian_split(s@, dot) implies false by {
                    assert(dot == e);
                }
            }
            return None;
        }
        fl = n - e - 1;
        if fl == 0 || fl > 12 {
            proof {
                lemma_julian_split_unique(s@, e as int);
                assert forall|dot: int| #[trigger] julian_split(s@, dot) implies false by {
                    assert(dot == e);
                }
            }
            return None;
        }
        let fe = scan_digits(s, e + 1);
        if fe < n {
            proof {
                lemma_julian_split_unique(s@, e as int);
                assert forall|dot: int| #[trigger] julian_split(s@, dot) implies false by {
                    assert(dot == e);
                    assert(is_digit(s@.subrange(dot + 1, s@.len() as int)[fe - e - 1]));
                }
            }
            return None;
        }
        fval = digits_value_u64(s, e + 1, n);
    }
    let ghost dotw: int = e as int;
    proof {
        assert(julian_split(s@, dotw));
        lemma_julian_split_unique(s@, e as int);
    }
    let (ival, sat) = digits_value_sat(s, start, e);
    if sat {
        proof {
            assert forall|dot: int| #[trigger] julian_split(s@, dot) implies !(
            MIN_TIMESTAMP_SECONDS <= julian_seconds(s@, dot) < MAX_TIMESTAMP_SECONDS) by {
                assert(dot == dotw);
                lemma_julian_out_of_range(s@, dot);
            }
        }
        return None;
    }
    let powl = pow10_u64(fl as u32);
    proof {
        reveal_with_fuel(pow10, 14);
        crate::date_and_time::lemma_pow10_mono(fl as int, 12);
        assert(fval < pow10(fl as int));
    }
    proof {
        assert(ival as int * powl as int <= 100000000 * 1000000000000) by (nonlinear_arith)
            requires
                0 <= ival as int,
                ival as int <= 100000000,
                0 <= powl as int,
                powl as int <= 1000000000000,
        ;
    }
    let qmag: u128 = (ival as u128) * (powl as u128) + (fval as u128);
    let eterm: u128 = 210866760000u128 * (powl as u128);
    let pos: u128 = qmag * 86400;
    let ghost p = julian_p(s@, dotw);
    proof {
        assert(julian_scaled(s@, dotw) == (if neg {
            -1int
        } else {
            1int
        }) * (ival as int * pow10(fl as int) + fval as int));
        if neg {
            assert(p == -(pos as int) + (-1) * (eterm as int)) by (nonlinear_arith)
                requires
                    p == (-1) * (qmag as int) * 86400 - (eterm as int),
                    pos as int == (qmag as int) * 86400,
                    eterm as int >= 0,
            ;
        }
    }
    let (pm, pneg): (u128, bool) = if neg {
        (pos + eterm, true)
    } else if pos >= eterm {
        (pos - eterm, false)
    } else {
        (eterm - pos, true)
    };
    proof {
        if pneg {
            assert(p == -(pm as int));
        } else {
            assert(p == pm as int);
        }
    }
    let sec128: u128 = pm / (powl as u128);
    let rem: u128 = pm % (powl as u128);
    proof {
        vstd::arithmetic::div_mod::lemma_fundamental_div_mod(pm as int, powl as int);
    }
    if pneg {
        if sec128 > 62167219200 {
            proof {
                assert(julian_seconds(s@, dotw) == -(sec128 as int));
                assert forall|dot: int| #[trigger] julian_split(s@, dot) implies !(
                MIN_TIMESTAMP_SECONDS <= julian_seconds(s@, dot) < MAX_TIMESTAMP_SECONDS) by {
                    assert(dot == dotw);
                }
            }
            return None;
        }
        let sec: i64 = -((sec128 as u64) as i64);
        proof {
            assert(julian_seconds(s@, dotw) == sec as int);
            assert(julian_nanos(s@, dotw) == 0);
        }
        let ts = match timestamp_from_unix_seconds(sec, 0) {
            Some(ts) => ts,
            None => {
                proof {
                    assert(false);
                }
                return None;
            },
        };
        proof {
            assert(julian_split(s@, dotw) && MIN_TIMESTAMP_SECONDS <= julian_seconds(s@, dotw)
                < MAX_TIMESTAMP_SECONDS && unix_seconds_of(ts) == julian_seconds(s@, dotw)
                && ts.time.nanosecond == julian_nanos(s@, dotw));
        }
        Some(ts)
    } else {
        if sec128 >= 253402300800 {
            proof {
                assert(julian_seconds(s@, dotw) == sec128 as int);
                assert forall|dot: int| #[trigger] julian_split(s@, dot) implies !(
                MIN_TIMESTAMP_SECONDS <= julian_seconds(s@, dot) < MAX_TIMESTAMP_SECONDS) by {
                    assert(dot == dotw);
                }
            }
            return None;
        }
        let sec: i64 = (sec128 as u64) as i64;
        let nanos128: u128 = rem * 1000000000 / (powl as u128);
        proof {
            assert(rem * 1000000000 < (powl as u128) * 1000000000) by (nonlinear_arith)
                requires
                    0 <= rem as int,
                    (rem as int) < (powl as int),
            ;
            vstd::arithmetic::div_mod::lemma_multiply_divide_lt(
                rem as int * 1000000000,
                powl as int,
                1000000000,
            );
            assert((powl as int) * 1000000000 == (rem as int * 1000000000 / powl as int) * 0 + (
            powl as int) * 1000000000);
            assert(nanos128 < 1000000000);
            assert(julian_seconds(s@, dotw) == sec as int);
            assert(julian_nanos(s@, dotw) == nanos128 as int);
        }
        let ts = match timestamp_from_unix_seconds(sec, nanos128 as u32) {
            Some(ts) => ts,
            None => {
                proof {
                    assert(false);
                }
                return None;
            },
        };
        proof {
            assert(julian_split(s@, dotw) && MIN_TIMESTAMP_SECONDS <= julian_seconds(s@, dotw)
                < MAX_TIMESTAMP_SECONDS && unix_seconds_of(ts) == julian_seconds(s@, dotw)
                && ts.time.nanosecond == julian_nanos(s@, dotw));
        }
        Some(ts)
    }
}

} // verus!

verus! {

/// Days from the calendar's year zero up to the first day of the given year.
fn days_before_year_exec(y: u32) -> (r: i64)
    requires
        y <= 10000,
    ensures
        r == days_before_year(y as int),
{
    let y64 = y as i64;
    365 * y64 + (y64 + 3) / 4 - (y64 + 99) / 100 + (y64 + 399) / 400
}

/// Days from the first of January up to the first of the given month.
fn days_before_month_exec(y: u32, m: u32) -> (r: i64)
    requires
        1 <= m <= 12,
    ensures
        r == days_before_month(y as int, m as int),
        0 <= r <= 366,
{
    let mut acc: i64 = 0;
    let mut i: u32 = 1;
    while i < m
        invariant
            1 <= i <= m <= 12,
            acc == days_before_month(y as int, i as int),
            0 <= acc <= 366,
        decreases m - i,
    {
        proof {
            lemma_days_before_month_mono(y as int, 1, i as int);
            lemma_days_before_month_mono(y as int, i as int + 1, 13);
            lemma_days_before_month_full(y as int);
        }
        acc = acc + (days_in_month(y, i) as i64);
        i = i + 1;
    }
    acc
}

/// The seconds from the Unix epoch a civil timestamp denotes.
pub fn unix_seconds(ts: &D1Timestamp) -> (r: i64)
    requires
        timestamp_wf(*ts),
    ensures
        r == unix_seconds_of(*ts),
        MIN_TIMESTAMP_SECONDS <= r < MAX_TIMESTAMP_SECONDS,
{
    proof {
        lemma_day_number_range(ts.date);
    }
    let dn: i64 = days_before_year_exec(ts.date.year) + days_before_month_exec(
        ts.date.year,
        ts.date.month,
    ) + (ts.date.day as i64) - 1;
    let tod: i64 = (ts.time.hour as i64) * 3600 + (ts.time.minute as i64) * 60 + (
    ts.time.second as i64);
    proof {
        vstd::arithmetic::mul::lemma_mul_is_distributive_sub_other_way(
            86400,
            dn as int,
            EPOCH_DAY_NUMBER as int,
        );
        vstd::arithmetic::mul::lemma_mul_inequality(dn as int, 3652424, 86400);
        vstd::arithmetic::mul::lemma_mul_inequality(0, dn as int, 86400);
    }
    (dn - EPOCH_DAY_NUMBER) * 86400 + tod
}

/// A civil timestamp carrying the zone offset it was read with, in seconds.
#[derive(Debug, Clone, Copy, PartialEq, Eq, Structural)]
pub struct OffsetDateTime {
    /// The civil reading in the value's own zone.
    pub local: D1Timestamp,
    /// The zone's offset from universal time, in seconds.
    pub offset_seconds: i32,
}

/// Shift an offset-carrying timestamp to universal time and drop the offset:
/// the zoneless civil reading of the same instant. Absent exactly when the
/// shifted instant falls outside the representable years.
pub fn naive_utc(dt: &OffsetDateTime) -> (r: Option<D1Timestamp>)
    requires
        timestamp_wf(dt.local),
    ensures
        match r {
            Some(ts) => {
                &&& timestamp_wf(ts)
                &&& unix_seconds_of(ts) == unix_seconds_of(dt.local) - dt.offset_seconds
                &&& ts.time.nanosecond == dt.local.time.nanosecond
            },
            None => unix_seconds_of(dt.local) - dt.offset_seconds < MIN_TIMESTAMP_SECONDS
                || unix_seconds_of(dt.local) - dt.offset_seconds >= MAX_TIMESTAMP_SECONDS,
        },
{
    let s = unix_seconds(&dt.local);
    timestamp_from_unix_seconds(s - (dt.offset_seconds as i64), dt.local.time.nanosecond)
}

} // verus!
