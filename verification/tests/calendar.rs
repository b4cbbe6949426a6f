use diesel_d1::date_and_time::{D1Date, D1Time, D1Timestamp};
use diesel_d1::julian::{
    date_from_day_number, naive_utc, timestamp_from_unix_seconds, unix_seconds, OffsetDateTime,
};

fn ts(year: u32, month: u32, day: u32, hour: u32, minute: u32, second: u32) -> D1Timestamp {
    D1Timestamp {
        date: D1Date { year, month, day },
        time: D1Time { hour, minute, second, nanosecond: 0 },
    }
}

#[test]
fn unix_seconds_of_the_epoch_is_zero() {
    assert_eq!(unix_seconds(&ts(1970, 1, 1, 0, 0, 0)), 0);
    assert_eq!(unix_seconds(&ts(1970, 1, 1, 0, 0, 1)), 1);
    assert_eq!(unix_seconds(&ts(1969, 12, 31, 23, 59, 59)), -1);
}

#[test]
fn seconds_and_civil_form_agree_both_ways() {
    for s in [0i64, 86400, -86400, 951782400, 1625140800, -62167219200, 253402300799] {
        let t = timestamp_from_unix_seconds(s, 0).unwrap();
        assert_eq!(unix_seconds(&t), s);
    }
    assert!(timestamp_from_unix_seconds(253402300800, 0).is_none());
    assert!(timestamp_from_unix_seconds(-62167219201, 0).is_none());
}

#[test]
fn day_numbering_knows_leap_years() {
    // the day after the twenty-eighth of February differs between years
    let leap = timestamp_from_unix_seconds(unix_seconds(&ts(2024, 2, 28, 0, 0, 0)) + 86400, 0)
        .unwrap();
    assert_eq!(leap.date, D1Date { year: 2024, month: 2, day: 29 });
    let common = timestamp_from_unix_seconds(unix_seconds(&ts(2023, 2, 28, 0, 0, 0)) + 86400, 0)
        .unwrap();
    assert_eq!(common.date, D1Date { year: 2023, month: 3, day: 1 });
    assert_eq!(date_from_day_number(0), D1Date { year: 0, month: 1, day: 1 });
}

#[test]
fn naive_utc_shifts_by_the_offset_and_keeps_the_fraction() {
    let local = D1Timestamp {
        date: D1Date { year: 2021, month: 7, day: 1 },
        time: D1Time { hour: 1, minute: 30, second: 0, nanosecond: 250_000_000 },
    };
    // half past one in a zone two hours east of universal time is half past
    // eleven of the previous day in universal time
    let shifted = naive_utc(&OffsetDateTime { local, offset_seconds: 7200 }).unwrap();
    assert_eq!(shifted.date, D1Date { year: 2021, month: 6, day: 30 });
    assert_eq!(shifted.time, D1Time { hour: 23, minute: 30, second: 0, nanosecond: 250_000_000 });
}
