use barcode_service::protocol::Date;
use std::cmp::Ordering;

fn d(year: u16, month: u8, day: u8) -> Date {
    Date { year, month, day }
}

#[test]
fn next_within_month() {
    assert_eq!(d(2023, 1, 31).next(), d(2023, 2, 1));
}

#[test]
fn next_february_is_leap_ignorant() {
    assert_eq!(d(2023, 2, 28).next(), d(2023, 2, 29));
    assert_eq!(d(2023, 2, 29).next(), d(2023, 3, 1));
    // 2024 is a real leap year, but the table never changes
    assert_eq!(d(2024, 2, 28).next(), d(2024, 2, 29));
    assert_eq!(d(2024, 2, 29).next(), d(2024, 3, 1));
}

#[test]
fn next_rolls_over_year() {
    assert_eq!(d(2023, 12, 31).next(), d(2024, 1, 1));
}

#[test]
fn next_thirty_day_month() {
    assert_eq!(d(2023, 4, 30).next(), d(2023, 5, 1));
    assert_eq!(d(2023, 4, 29).next(), d(2023, 4, 30));
}

#[test]
fn compare_is_lexicographic() {
    assert_eq!(d(2022, 12, 31).partial_cmp(&d(2023, 1, 1)), Some(Ordering::Less));
    assert_eq!(d(2023, 2, 1).partial_cmp(&d(2023, 1, 31)), Some(Ordering::Greater));
    assert_eq!(d(2023, 5, 7).partial_cmp(&d(2023, 5, 7)), Some(Ordering::Equal));
    assert_eq!(d(2023, 5, 6).partial_cmp(&d(2023, 5, 7)), Some(Ordering::Less));
    assert!(d(2020, 6, 15) < d(2021, 1, 1));
    assert!(d(2021, 1, 2) > d(2021, 1, 1));
    assert!(d(2021, 1, 1) <= d(2021, 1, 1));
}

#[test]
fn to_string_zero_pads() {
    assert_eq!(d(2024, 5, 1).to_string(), "2024-05-01");
    assert_eq!(d(987, 12, 31).to_string(), "0987-12-31");
    assert_eq!(d(1, 1, 1).to_string(), "0001-01-01");
}

#[test]
fn to_string_keeps_all_digits_of_a_wide_year() {
    // zero-padding is a minimum width: a five-digit year is printed whole
    assert_eq!(d(12345, 1, 1).to_string(), "12345-01-01");
}

#[test]
fn plausible_checks_table() {
    assert!(d(2023, 2, 29).plausible());
    assert!(!d(2023, 2, 30).plausible());
    assert!(!d(2023, 0, 1).plausible());
    assert!(!d(2023, 13, 1).plausible());
    assert!(!d(2023, 4, 31).plausible());
    assert!(!d(2023, 1, 0).plausible());
    assert!(d(2023, 1, 31).plausible());
}
