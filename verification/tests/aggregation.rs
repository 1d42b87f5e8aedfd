use barcode_service::aggregate::{AggregationError, Aggregator, DirOutcome, Entry};
use barcode_service::protocol::Date;

fn d(year: u16, month: u8, day: u8) -> Date {
    Date { year, month, day }
}

fn entry(code: &str, content: &[u8]) -> Entry {
    Entry { code: code.to_owned(), content: content.to_vec() }
}

#[test]
fn empty_range_yields_zero_rows_without_error() {
    // start after end: the scan starts already finished
    let agg = Aggregator::new(d(2024, 5, 3), d(2024, 5, 1));
    assert!(agg.finished());
    assert!(agg.into_rows().is_empty());
}

#[test]
fn range_with_absent_day_yields_ordered_rows() {
    // 2024-05-01 has one entry, 2024-05-02 is absent, 2024-05-03 has one
    let mut agg = Aggregator::new(d(2024, 5, 1), d(2024, 5, 3));

    assert!(!agg.finished());
    assert_eq!(agg.current_dir(), "2024-05-01");
    agg.step(DirOutcome::Listed(vec![entry("ABC123", &[1, 0, 0, 0])])).unwrap();

    assert!(!agg.finished());
    assert_eq!(agg.current_dir(), "2024-05-02");
    agg.step(DirOutcome::Absent).unwrap();

    assert!(!agg.finished());
    assert_eq!(agg.current_dir(), "2024-05-03");
    agg.step(DirOutcome::Listed(vec![entry("XYZ789", &[10, 0, 0, 0])])).unwrap();

    assert!(agg.finished());
    let rows = agg.into_rows();
    assert_eq!(rows.len(), 2);
    assert_eq!(rows[0].date, d(2024, 5, 1));
    assert_eq!(rows[0].code, "ABC123");
    assert_eq!(rows[0].count, 1);
    assert_eq!(rows[1].date, d(2024, 5, 3));
    assert_eq!(rows[1].code, "XYZ789");
    assert_eq!(rows[1].count, 10);
}

#[test]
fn count_is_little_endian() {
    let mut agg = Aggregator::new(d(2024, 5, 1), d(2024, 5, 1));
    agg.step(DirOutcome::Listed(vec![entry("A", &[0x01, 0x02, 0x03, 0x04])])).unwrap();
    let rows = agg.into_rows();
    assert_eq!(rows[0].count, 0x04030201);
}

#[test]
fn short_count_file_aborts_the_whole_scan() {
    let mut agg = Aggregator::new(d(2024, 5, 1), d(2024, 5, 2));
    let err = agg
        .step(DirOutcome::Listed(vec![
            entry("GOOD", &[1, 0, 0, 0]),
            entry("BAD", &[1, 0, 0]),
            entry("LATER", &[2, 0, 0, 0]),
        ]))
        .unwrap_err();
    match err {
        AggregationError::BadCount { date, code } => {
            assert_eq!(date, d(2024, 5, 1));
            assert_eq!(code, "BAD");
        }
        other => panic!("expected BadCount, got {other:?}"),
    }
    // the scan did not move on
    assert!(!agg.finished());
}

#[test]
fn long_count_file_aborts_too() {
    let mut agg = Aggregator::new(d(2024, 5, 1), d(2024, 5, 1));
    let err = agg.step(DirOutcome::Listed(vec![entry("BAD", &[1, 0, 0, 0, 0])])).unwrap_err();
    assert!(matches!(err, AggregationError::BadCount { .. }));
}

#[test]
fn unreadable_directory_aborts_with_the_date() {
    let mut agg = Aggregator::new(d(2024, 5, 1), d(2024, 5, 2));
    agg.step(DirOutcome::Absent).unwrap();
    let err = agg.step(DirOutcome::Failed).unwrap_err();
    match err {
        AggregationError::Unreadable { date } => assert_eq!(date, d(2024, 5, 2)),
        other => panic!("expected Unreadable, got {other:?}"),
    }
}

#[test]
fn single_day_range_visits_one_directory() {
    let mut agg = Aggregator::new(d(2023, 2, 28), d(2023, 2, 28));
    assert_eq!(agg.current_dir(), "2023-02-28");
    agg.step(DirOutcome::Absent).unwrap();
    assert!(agg.finished());
    assert!(agg.into_rows().is_empty());
}

#[test]
fn range_crosses_month_with_leap_ignorant_february() {
    let mut agg = Aggregator::new(d(2023, 2, 28), d(2023, 3, 1));
    assert_eq!(agg.current_dir(), "2023-02-28");
    agg.step(DirOutcome::Absent).unwrap();
    assert_eq!(agg.current_dir(), "2023-02-29");
    agg.step(DirOutcome::Absent).unwrap();
    assert_eq!(agg.current_dir(), "2023-03-01");
    agg.step(DirOutcome::Absent).unwrap();
    assert!(agg.finished());
}

#[test]
fn interleaved_scans_stay_isolated() {
    // two scans over overlapping ranges, driven in interleaved steps: each
    // gathers only what was handed to it
    let mut a = Aggregator::new(d(2024, 5, 1), d(2024, 5, 2));
    let mut b = Aggregator::new(d(2024, 5, 2), d(2024, 5, 3));

    a.step(DirOutcome::Listed(vec![entry("A1", &[1, 0, 0, 0])])).unwrap();
    b.step(DirOutcome::Listed(vec![entry("B1", &[2, 0, 0, 0])])).unwrap();
    a.step(DirOutcome::Listed(vec![entry("A2", &[3, 0, 0, 0])])).unwrap();
    b.step(DirOutcome::Absent).unwrap();

    assert!(a.finished());
    assert!(b.finished());
    let rows_a = a.into_rows();
    let rows_b = b.into_rows();
    assert_eq!(rows_a.len(), 2);
    assert_eq!(rows_a[0].code, "A1");
    assert_eq!(rows_a[1].code, "A2");
    assert_eq!(rows_b.len(), 1);
    assert_eq!(rows_b[0].code, "B1");
}
