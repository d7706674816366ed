use fablr_pipeline::civil::{epoch_to_civil, parse_iso, unix_to_iso};
use fablr_pipeline::clock::{now_unix, unix_from_clock};
use fablr_pipeline::text::{decimal_string, padded_decimal_string};

#[test]
fn epoch_is_the_first_of_january_1970() {
    assert_eq!(epoch_to_civil(0), (1970, 1, 1, 0, 0, 0));
    assert_eq!(epoch_to_civil(86399), (1970, 1, 1, 23, 59, 59));
}

#[test]
fn times_before_the_epoch_fall_in_1969() {
    assert_eq!(epoch_to_civil(-1), (1969, 12, 31, 23, 59, 59));
}

#[test]
fn leap_day_of_2000() {
    assert_eq!(epoch_to_civil(951782400), (2000, 2, 29, 0, 0, 0));
    assert_eq!(epoch_to_civil(951868800), (2000, 3, 1, 0, 0, 0));
}

#[test]
fn iso_texts_of_known_moments() {
    assert_eq!(unix_to_iso(0), "1970-01-01T00:00:00Z");
    assert_eq!(unix_to_iso(1725029869), "2024-08-30T14:57:49Z");
    assert_eq!(unix_to_iso(253402300799), "9999-12-31T23:59:59Z");
    assert_eq!(unix_to_iso(253402300800), "10000-01-01T00:00:00Z");
    assert_eq!(unix_to_iso(-62135596801), "0000-12-31T23:59:59Z");
    assert_eq!(unix_to_iso(-62167219201), "-001-12-31T23:59:59Z");
}

#[test]
fn extreme_timestamps_do_not_fail() {
    let (_, m, d, h, mi, s) = epoch_to_civil(i64::MAX);
    assert!((1..=12).contains(&m) && (1..=31).contains(&d) && h < 24 && mi < 60 && s < 60);
    let (_, m, d, h, mi, s) = epoch_to_civil(i64::MIN);
    assert!((1..=12).contains(&m) && (1..=31).contains(&d) && h < 24 && mi < 60 && s < 60);
}

#[test]
fn parse_iso_reads_the_leading_number() {
    assert_eq!(parse_iso("1725029869"), Some(1725029869));
    assert_eq!(parse_iso("007"), Some(7));
    assert_eq!(parse_iso("12a"), Some(12));
    assert_eq!(parse_iso("1970-01-01T00:00:00Z"), Some(1970));
    assert_eq!(parse_iso("2024-08-30T14:57:49Z"), Some(2024));
    assert_eq!(parse_iso("-5"), None);
    assert_eq!(parse_iso("+7"), None);
    assert_eq!(parse_iso(""), None);
    assert_eq!(parse_iso(" 12"), None);
    assert_eq!(parse_iso("T12"), None);
    assert_eq!(parse_iso("\u{663}"), None);
}

#[test]
fn parse_iso_refuses_numbers_beyond_i64() {
    assert_eq!(parse_iso("9223372036854775807"), Some(i64::MAX));
    assert_eq!(parse_iso("9223372036854775807-01"), Some(i64::MAX));
    assert_eq!(parse_iso("9223372036854775808"), None);
    assert_eq!(parse_iso("99999999999999999999999x"), None);
}

#[test]
fn iso_text_reads_back_as_its_year() {
    assert_eq!(parse_iso(&unix_to_iso(1725029869)), Some(2024));
    assert_eq!(parse_iso(&unix_to_iso(0)), Some(1970));
    assert_eq!(parse_iso(&unix_to_iso(-62135596801)), Some(0));
    assert_eq!(parse_iso(&unix_to_iso(-62167219201)), None);
}

#[test]
fn decimal_texts() {
    assert_eq!(decimal_string(0), "0");
    assert_eq!(decimal_string(1234567890), "1234567890");
    assert_eq!(decimal_string(u64::MAX), u64::MAX.to_string());
    assert_eq!(padded_decimal_string(7, 2), "07");
    assert_eq!(padded_decimal_string(123, 2), "123");
    assert_eq!(padded_decimal_string(-5, 4), "-005");
    assert_eq!(padded_decimal_string(-12345, 4), "-12345");
    assert_eq!(padded_decimal_string(i64::MIN, 4), i64::MIN.to_string());
    assert_eq!(padded_decimal_string(5, 0), "5");
}

#[test]
fn clock_readings_become_unix_seconds() {
    assert_eq!(unix_from_clock(Some(1725029869)), 1725029869);
    assert_eq!(unix_from_clock(None), 0);
    assert_eq!(unix_from_clock(Some(u64::MAX)), -1);
}

#[test]
fn now_is_after_2020() {
    assert!(now_unix() > 1_577_836_800);
}

#[test]
fn days_roll_over_months_and_years() {
    assert_eq!(epoch_to_civil(2678399), (1970, 1, 31, 23, 59, 59));
    assert_eq!(epoch_to_civil(2678400), (1970, 2, 1, 0, 0, 0));
    assert_eq!(epoch_to_civil(31535999), (1970, 12, 31, 23, 59, 59));
    assert_eq!(epoch_to_civil(31536000), (1971, 1, 1, 0, 0, 0));
    assert_eq!(epoch_to_civil(4107456000), (2100, 2, 28, 0, 0, 0));
    assert_eq!(epoch_to_civil(4107542400), (2100, 3, 1, 0, 0, 0));
}

#[test]
fn civil_times_sort_as_time_does() {
    let moments = [
        -62167219201i64, -1, 0, 1, 59, 60, 86399, 86400, 2678399, 2678400, 31535999, 31536000,
        951782400, 951868800, 1725029869, 4107456000, 253402300799,
    ];
    for a in moments {
        for b in moments {
            assert_eq!(a < b, epoch_to_civil(a) < epoch_to_civil(b), "{} {}", a, b);
            assert_eq!(a == b, epoch_to_civil(a) == epoch_to_civil(b), "{} {}", a, b);
        }
    }
}

#[test]
fn iso_texts_sort_as_time_does() {
    let moments = [
        -62135596800i64, -1, 0, 1, 59, 60, 3599, 3600, 86399, 86400, 2678399, 2678400, 31535999,
        951782400, 951868800, 1725029869, 4107456000, 253402300799,
    ];
    for a in moments {
        for b in moments {
            assert_eq!(a < b, unix_to_iso(a) < unix_to_iso(b), "{} {}", a, b);
            assert_eq!(a == b, unix_to_iso(a) == unix_to_iso(b), "{} {}", a, b);
        }
    }
}
