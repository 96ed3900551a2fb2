use rstock::dates::Ymd;
use rstock::scan::{
    check_scan_request, classify_series, effective_history_days, may_spawn, split_point,
    symbol_scan_failure, symbol_scan_result, PatternDataSourceConfig, ScanRequestError, ScanTally,
    SeriesOutcome,
};

#[test]
fn data_source_defaults() {
    let c = PatternDataSourceConfig::new("http://h:1".to_string());
    assert_eq!(c.base_url, "http://h:1");
    assert_eq!(c.authorization, None);
    assert_eq!(c.timeout_secs, 30);
    assert_eq!(c.adjust_type, "qfq");
    assert!(c.tdx_fallback);
    assert_eq!(c.batch_size, 200);
    assert_eq!(c.fetch_concurrency, 4);
}

#[test]
fn series_are_classified_by_length() {
    assert_eq!(classify_series(0), SeriesOutcome::NoSeries);
    assert_eq!(classify_series(19), SeriesOutcome::TooShort);
    assert_eq!(classify_series(20), SeriesOutcome::Scan);
}

#[test]
fn tally_counts_each_kind_of_result() {
    let mut t = ScanTally::new(4);
    let p = t.record_result(symbol_scan_result("A".into(), SeriesOutcome::Scan, 2));
    assert_eq!((p.completed_symbols, p.series_count, p.signal_count), (1, 1, 2));
    let p = t.record_result(symbol_scan_result("B".into(), SeriesOutcome::TooShort, 5));
    assert_eq!((p.series_count, p.skipped_short_series, p.signal_count), (2, 1, 2));
    let p = t.record_result(symbol_scan_result("C".into(), SeriesOutcome::NoSeries, 5));
    assert_eq!((p.completed_symbols, p.series_count), (3, 2));
    let p = t.record_result(symbol_scan_failure("D".into(), "bad".into()));
    assert_eq!(p.failed_symbols, 1);
    assert_eq!(p.latest_failure.unwrap().symbol, "D");
    assert_eq!(t.fetched_symbols, vec!["A".to_string(), "B".to_string()]);
    assert_eq!(t.requested_symbols, 4);
}

#[test]
fn tally_counts_unjoined_tasks_as_unknown_failures() {
    let mut t = ScanTally::new(1);
    let p = t.record_join_failure("join error".into());
    assert_eq!(p.completed_symbols, 1);
    let f = p.latest_failure.unwrap();
    assert_eq!(f.symbol, "<unknown>");
    assert_eq!(f.error, "join error");
}

#[test]
fn spawning_respects_concurrency() {
    assert!(may_spawn(0, 3, 0, 0));
    assert!(!may_spawn(0, 3, 1, 0));
    assert!(may_spawn(1, 3, 3, 4));
    assert!(!may_spawn(3, 3, 0, 4));
}

#[test]
fn scan_requests_are_checked() {
    let d = |y, m, dd| Ymd { year: y, month: m, day: dd };
    assert_eq!(check_scan_request(0, d(2026, 1, 1), d(2026, 1, 2)), Err(ScanRequestError::NoSymbols));
    assert_eq!(check_scan_request(1, d(2026, 1, 3), d(2026, 1, 2)), Err(ScanRequestError::StartAfterEnd));
    assert_eq!(check_scan_request(1, d(2026, 1, 2), d(2026, 1, 2)), Ok(()));
}

#[test]
fn batches_split_in_halves_and_history_has_a_floor() {
    assert_eq!(split_point(5), Some(2));
    assert_eq!(split_point(1), None);
    assert_eq!(effective_history_days(None), 365);
    assert_eq!(effective_history_days(Some(5)), 30);
    assert_eq!(effective_history_days(Some(400)), 400);
}
