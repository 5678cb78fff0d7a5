use kestrel_connector::capitalcom::CapitalComAdapter;
use kestrel_connector::civil_date::{civil_from_days, days_from_civil, format_date};
use kestrel_connector::double::Double;
use kestrel_connector::ib::IbAdapter;
use kestrel_connector::text::{comes_before, integer_text};

#[test]
fn days_count_from_1970() {
    assert_eq!(days_from_civil(1970, 1, 1), 0);
    assert_eq!(days_from_civil(1969, 12, 31), -1);
    assert_eq!(days_from_civil(2000, 2, 29), 11_016);
    assert_eq!(days_from_civil(2024, 1, 2), 19_724);
    assert_eq!(days_from_civil(0, 3, 1), -719_468);
    assert_eq!(days_from_civil(i32::MAX, 12, 31), 784_351_576_776);
}

#[test]
fn days_outside_the_calendar_are_counted_on() {
    assert_eq!(days_from_civil(2023, 2, 29), days_from_civil(2023, 3, 1));
    assert_eq!(days_from_civil(2024, 1, 0), days_from_civil(2023, 12, 31));
    assert_eq!(days_from_civil(2024, 0, 5), days_from_civil(2023, 12, 5));
    assert_eq!(days_from_civil(2023, 14, 1), days_from_civil(2024, 2, 1));
    assert_eq!(days_from_civil(2023, 15, 1), days_from_civil(2023, 3, 1) + 367);
}

#[test]
fn dates_and_days_are_inverse() {
    for days in (-1_000_000..1_000_000).step_by(331) {
        let (year, month, day) = civil_from_days(days);
        assert!((1..=12).contains(&month) && (1..=31).contains(&day));
        assert_eq!(days_from_civil(year, month, day), days);
    }
    assert_eq!(civil_from_days(0), (1970, 1, 1));
    assert_eq!(civil_from_days(11_016), (2000, 2, 29));
    assert_eq!(civil_from_days(-719_528), (0, 1, 1));
    assert_eq!(civil_from_days(-719_529), (-1, 12, 31));
}

#[test]
fn consecutive_days_have_consecutive_dates() {
    let mut before = civil_from_days(-800_000);
    for days in -799_999..-700_000 {
        let date = civil_from_days(days);
        let next_day = (before.0, before.1, before.2 + 1);
        let next_month = (before.0, before.1 + 1, 1);
        let next_year = (before.0 + 1, 1, 1);
        assert!(date == next_day || date == next_month || (before.1 == 12 && date == next_year));
        before = date;
    }
}

#[test]
fn a_year_that_does_not_fit_is_written_as_1970() {
    let last = days_from_civil(i32::MAX, 12, 31);
    assert_eq!(civil_from_days(last), (i32::MAX, 12, 31));
    assert_eq!(civil_from_days(last + 1), (1970, 1, 1));
    let first = days_from_civil(i32::MIN, 1, 1);
    assert_eq!(civil_from_days(first), (i32::MIN, 1, 1));
    assert_eq!(civil_from_days(first - 1), (1970, 12, 31));
    assert_eq!(civil_from_days(i64::MAX - 719_468).0, 1970);
    assert_eq!(civil_from_days(i64::MIN).0, 1970);
}

#[test]
fn dates_are_written_without_their_time() {
    assert_eq!(format_date(0), "1970-01-01");
    assert_eq!(format_date(86_399), "1970-01-01");
    assert_eq!(format_date(86_400), "1970-01-02");
    assert_eq!(format_date(-1), "1969-12-31");
    assert_eq!(format_date(1_788_652_800), "2026-09-06");
    assert_eq!(format_date(253_402_300_799), "9999-12-31");
    assert_eq!(format_date(253_402_300_800), "10000-01-01");
    assert_eq!(format_date(days_from_civil(7, 8, 9) * 86_400), "0007-08-09");
    assert_eq!(format_date(days_from_civil(-5, 1, 1) * 86_400), "-005-01-01");
    assert_eq!(
        format_date(days_from_civil(-12345, 1, 1) * 86_400),
        "-12345-01-01"
    );
}

#[test]
fn integers_are_written_in_decimal() {
    for n in [
        0,
        7,
        10,
        -1,
        1_000_000_000,
        i64::MIN as i128,
        i64::MAX as i128 * 1_000_000_000,
        i128::MIN,
        i128::MAX,
    ] {
        assert_eq!(integer_text(n), n.to_string());
    }
}

#[test]
fn texts_are_ordered_as_strings_are() {
    let texts = ["", "2", "2024-01-02", "2024-01-03", "9999-12-31", "é", "z", "𝄞", "\u{ffff}"];
    for a in texts {
        for b in texts {
            assert_eq!(comes_before(a, b), a < b, "{a} {b}");
        }
    }
}

#[test]
fn doubles_are_ordered_as_numbers_are() {
    let numbers = [
        0.0,
        -0.0,
        1.0,
        -1.0,
        100.0,
        900.0,
        f64::MIN_POSITIVE,
        5e-324,
        -5e-324,
        f64::MAX,
        f64::MIN,
        f64::INFINITY,
        f64::NEG_INFINITY,
        f64::NAN,
        -f64::NAN,
    ];
    for a in numbers {
        let left = Double { bits: a.to_bits() };
        assert_eq!(left.is_at_most_zero(), a <= 0.0, "{a}");
        for b in numbers {
            let right = Double { bits: b.to_bits() };
            assert_eq!(left.is_greater(right), a > b, "{a} {b}");
        }
    }
    assert_eq!(Double::zero(), Double { bits: 0.0f64.to_bits() });
}

#[test]
fn connections_keep_what_they_are_given() {
    assert_eq!(CapitalComAdapter::new("key").api_key, "key");
    let ib = IbAdapter::new("localhost", 7497);
    assert_eq!(ib.host, "localhost");
    assert_eq!(ib.port, 7497);
}
