use rstock::dates::Ymd;
use rstock::jobs::{MarketScanJob, Stamp};
use rstock::report::{
    append_failure_section, append_omitted_count, append_signal_section, flatten_text, join_lines,
    render_check_all_feishu_message, render_market_scan_failed_feishu_message,
    render_market_scan_feishu_message, ScanSummary,
};
use rstock::scan::PatternScanFailure;

fn failure(symbol: &str, error: &str) -> PatternScanFailure {
    PatternScanFailure { symbol: symbol.into(), error: error.into() }
}

#[test]
fn flatten_collapses_whitespace() {
    assert_eq!(flatten_text("  a \n\t b  c "), "a b c");
    assert_eq!(flatten_text(""), "");
    assert_eq!(flatten_text(" \n "), "");
}

#[test]
fn omitted_count_only_when_over_limit() {
    let mut lines = Vec::new();
    append_omitted_count(&mut lines, 3, 3);
    assert!(lines.is_empty());
    append_omitted_count(&mut lines, 25, 20);
    assert_eq!(lines, vec!["- ... and 5 more".to_string()]);
}

#[test]
fn failure_section_lists_and_truncates() {
    let mut lines = Vec::new();
    append_failure_section(&mut lines, &[], 2);
    assert_eq!(lines, vec!["Failed Symbols:".to_string(), "- None".to_string()]);
    let mut lines = Vec::new();
    let fs = vec![failure("A", "x\ny"), failure("B", "z"), failure("C", "w")];
    append_failure_section(&mut lines, &fs, 2);
    assert_eq!(
        lines,
        vec![
            "Failed Symbols:".to_string(),
            "- A | x y".to_string(),
            "- B | z".to_string(),
            "- ... and 1 more".to_string()
        ]
    );
}

#[test]
fn signal_section_lists_and_truncates() {
    let mut lines = Vec::new();
    append_signal_section(&mut lines, "Matched", &[], 2);
    assert_eq!(lines, vec!["Matched:".to_string(), "- None".to_string(), String::new()]);
    let mut lines = Vec::new();
    let sl: Vec<String> = vec!["- s1".into(), "- s2".into(), "- s3".into()];
    append_signal_section(&mut lines, "Matched", &sl, 2);
    assert_eq!(
        lines,
        vec![
            "Matched:".to_string(),
            "- s1".to_string(),
            "- s2".to_string(),
            "- ... and 1 more".to_string(),
            String::new()
        ]
    );
}

#[test]
fn lines_join_with_newlines() {
    assert_eq!(join_lines(&vec!["a".to_string(), String::new(), "b".to_string()]), "a\n\nb");
    assert_eq!(join_lines(&vec![]), "");
}

#[test]
fn failed_scan_message() {
    let mut job = MarketScanJob::queued(
        "market-scan-3".into(),
        "w_bottom".into(),
        Ymd { year: 2026, month: 5, day: 20 },
        365,
        false,
        10,
        Stamp { secs: 0, nanos: 0 },
    );
    job.completed_symbols = 4;
    job.failed_symbols.push(failure("000001.SZ", "timed\nout"));
    job.fail("qmt   down".into(), Stamp { secs: 5, nanos: 0 });
    assert_eq!(
        render_market_scan_failed_feishu_message(&job),
        "Pattern Market Scan Failed\nJob ID: market-scan-3\nTrade Date: 2026-05-20\nPattern: w_bottom\n\
         Requested Symbols: 10\nCompleted Symbols: 4\nError: qmt down\n\nFailed Symbols:\n- 000001.SZ | timed out"
    );
}

#[test]
fn check_all_message() {
    let msg = render_check_all_feishu_message(
        "000001.SZ",
        Ymd { year: 2026, month: 5, day: 20 },
        1,
        0,
        &[],
        &["- 000001.SZ | w_bottom | 2026-05-20 | score 0.91 | ok".to_string()],
    );
    assert_eq!(
        msg,
        "Pattern Check-All Finished\nTrade Date: 2026-05-20\nSymbol: 000001.SZ\n\
         Summary: matched 1 patterns, skipped 0 short series, failed 0 symbols\n\n\
         Matched Patterns:\n- 000001.SZ | w_bottom | 2026-05-20 | score 0.91 | ok\n\n\
         Failed Symbols:\n- None"
    );
}

#[test]
fn market_scan_message() {
    let summary = ScanSummary { requested_symbols: 5, signal_count: 0, fetched_symbols: 4, skipped_short_series: 1 };
    let msg = render_market_scan_feishu_message(
        "market-scan-9",
        "all",
        Ymd { year: 2026, month: 1, day: 2 },
        &summary,
        &[failure("X", "e")],
        &[],
    );
    assert_eq!(
        msg,
        "Pattern Market Scan Finished\nJob ID: market-scan-9\nTrade Date: 2026-01-02\nPattern: all\n\
         Summary: requested 5, completed 5, matched 0, fetched 4, failed 1\nSkipped Short Series: 1\n\n\
         Matched Signals:\n- None\n\nFailed Symbols:\n- X | e"
    );
}
