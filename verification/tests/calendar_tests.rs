use hoc_long_tieng::calendar::{
    chrono_timestamp, civil_from_unix, format_timestamp, seconds_or_epoch, CivilTime,
};

fn days_in_month(y: u64, m: u64) -> u64 {
    let leap = y % 4 == 0 && (y % 100 != 0 || y % 400 == 0);
    match m {
        2 => {
            if leap {
                29
            } else {
                28
            }
        }
        4 | 6 | 9 | 11 => 30,
        _ => 31,
    }
}

// Seconds since the epoch of a civil time, counted day by day from 1970.
fn seconds_of(t: &CivilTime) -> u64 {
    let mut days: u64 = 0;
    for y in 1970..t.year {
        for m in 1..=12 {
            days += days_in_month(y, m);
        }
    }
    for m in 1..t.month {
        days += days_in_month(t.year, m);
    }
    days += t.day - 1;
    days * 86400 + t.hour * 3600 + t.minute * 60 + t.second
}

#[test]
fn epoch_stamp() {
    assert_eq!(format_timestamp(0), "19700101_000000");
}

#[test]
fn last_second_of_first_day() {
    assert_eq!(format_timestamp(86399), "19700101_235959");
}

#[test]
fn leap_days() {
    assert_eq!(format_timestamp(68169600), "19720229_000000");
    assert_eq!(format_timestamp(951782400), "20000229_000000");
}

#[test]
fn ordinary_instant() {
    assert_eq!(format_timestamp(1700000000), "20231114_221320");
}

#[test]
fn century_not_leap() {
    assert_eq!(format_timestamp(4102444800), "21000101_000000");
}

#[test]
fn end_of_year_9999_and_beyond() {
    assert_eq!(format_timestamp(253402300799), "99991231_235959");
    assert_eq!(format_timestamp(253402300800), "100000101_000000");
}

#[test]
fn largest_instant() {
    assert_eq!(format_timestamp(u64::MAX), "5845540512231109_070015");
}

#[test]
fn civil_fields() {
    let t = civil_from_unix(1700000000);
    assert_eq!((t.year, t.month, t.day), (2023, 11, 14));
    assert_eq!((t.hour, t.minute, t.second), (22, 13, 20));
}

#[test]
fn civil_round_trip_over_decades() {
    let mut secs: u64 = 0;
    while secs < 4_200_000_000 {
        let t = civil_from_unix(secs);
        assert!(t.month >= 1 && t.month <= 12);
        assert!(t.day >= 1 && t.day <= days_in_month(t.year, t.month));
        assert_eq!(seconds_of(&t), secs);
        secs += 7_777_777;
    }
}

#[test]
fn stamp_of_now_has_fixed_shape() {
    let s = chrono_timestamp();
    assert_eq!(s.len(), 15);
    assert_eq!(s.as_bytes()[8], b'_');
    assert!(s.starts_with("20") || s.starts_with("19"));
}

#[test]
fn distinct_instants_have_distinct_fields() {
    let a = civil_from_unix(951782399);
    let b = civil_from_unix(951782400);
    assert_eq!((a.year, a.month, a.day, a.hour, a.minute, a.second), (2000, 2, 28, 23, 59, 59));
    assert_eq!((b.year, b.month, b.day, b.hour, b.minute, b.second), (2000, 2, 29, 0, 0, 0));
}

#[test]
fn clock_before_epoch_reads_as_epoch() {
    assert_eq!(seconds_or_epoch(None), 0);
    assert_eq!(seconds_or_epoch(Some(1700000000)), 1700000000);
    assert_eq!(format_timestamp(seconds_or_epoch(None)), "19700101_000000");
}

#[test]
fn stamps_sort_in_time_order() {
    let instants = [0u64, 59, 60, 3599, 3600, 86399, 86400, 951782399, 951782400, 1700000000, 253402300799];
    for w in instants.windows(2) {
        let a = format_timestamp(w[0]);
        let b = format_timestamp(w[1]);
        assert!(a < b, "{} should sort before {}", a, b);
    }
}
