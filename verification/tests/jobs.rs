use rstock::dates::Ymd;
use rstock::jobs::{
    cleanup_market_scan_jobs, market_scan_job_id, market_scan_job_status_label, JobEntry,
    MarketScanJob, MarketScanJobStatus, Stamp, MARKET_SCAN_JOB_MAX_COUNT,
};
use rstock::scan::{symbol_scan_failure, symbol_scan_result, PatternScanProgress, ScanTally, SeriesOutcome};

fn at(secs: i64) -> Stamp {
    Stamp { secs, nanos: 0 }
}

const HOUR: i64 = 3600;

fn finished(created: i64, finished: i64) -> JobEntry {
    JobEntry { status: MarketScanJobStatus::Succeeded, created_at: at(created), finished_at: Some(at(finished)) }
}

#[test]
fn status_labels_and_ids() {
    assert_eq!(market_scan_job_status_label(MarketScanJobStatus::Queued), "queued");
    assert_eq!(market_scan_job_status_label(MarketScanJobStatus::Running), "running");
    assert_eq!(market_scan_job_status_label(MarketScanJobStatus::Succeeded), "succeeded");
    assert_eq!(market_scan_job_status_label(MarketScanJobStatus::Failed), "failed");
    assert_eq!(market_scan_job_id(7), "market-scan-7");
}

#[test]
fn cleanup_drops_finished_jobs_past_the_time_to_live() {
    let now = at(100 * HOUR);
    let jobs = vec![
        finished(0, 70 * HOUR),
        finished(0, 80 * HOUR),
        JobEntry { status: MarketScanJobStatus::Running, created_at: at(0), finished_at: None },
        JobEntry { status: MarketScanJobStatus::Failed, created_at: at(90 * HOUR), finished_at: None },
        JobEntry { status: MarketScanJobStatus::Failed, created_at: at(10 * HOUR), finished_at: None },
    ];
    assert_eq!(cleanup_market_scan_jobs(&jobs, now), vec![false, true, true, true, false]);
}

#[test]
fn cleanup_keeps_at_most_the_maximum_dropping_oldest_finished() {
    let now = at(1000 * HOUR);
    let mut jobs = Vec::new();
    for k in 0..(MARKET_SCAN_JOB_MAX_COUNT as i64 + 5) {
        jobs.push(finished(0, 990 * HOUR + k));
    }
    jobs.push(JobEntry { status: MarketScanJobStatus::Queued, created_at: at(0), finished_at: None });
    let kept = cleanup_market_scan_jobs(&jobs, now);
    assert_eq!(kept.iter().filter(|k| **k).count(), MARKET_SCAN_JOB_MAX_COUNT);
    for k in 0..6 {
        assert!(!kept[k]);
    }
    assert!(kept[6]);
    assert!(kept[jobs.len() - 1]);
}

#[test]
fn cleanup_never_drops_unfinished_jobs_even_when_too_many() {
    let now = at(10);
    let jobs: Vec<JobEntry> = (0..(MARKET_SCAN_JOB_MAX_COUNT + 3))
        .map(|_| JobEntry { status: MarketScanJobStatus::Running, created_at: at(0), finished_at: None })
        .collect();
    assert!(cleanup_market_scan_jobs(&jobs, now).iter().all(|k| *k));
}

#[test]
fn cleanup_breaks_ties_by_creation_then_listing_order() {
    let now = at(1000 * HOUR);
    let mut jobs = Vec::new();
    for _ in 0..MARKET_SCAN_JOB_MAX_COUNT {
        jobs.push(finished(5, 999 * HOUR));
    }
    jobs.insert(0, finished(9, 999 * HOUR));
    jobs.push(finished(1, 999 * HOUR));
    let kept = cleanup_market_scan_jobs(&jobs, now);
    assert!(kept[0]);
    assert!(!kept[jobs.len() - 1]);
    assert!(!kept[1]);
    assert!(kept[2]);
}

fn job() -> MarketScanJob {
    MarketScanJob::queued(
        "market-scan-1".into(),
        "w_bottom".into(),
        Ymd { year: 2026, month: 5, day: 20 },
        365,
        false,
        3,
        at(10),
    )
}

#[test]
fn job_moves_from_queued_to_succeeded() {
    let mut j = job();
    assert_eq!(j.status, MarketScanJobStatus::Queued);
    assert_eq!(j.requested_symbols, 3);
    j.mark_running(3, at(11));
    assert_eq!(j.status, MarketScanJobStatus::Running);
    assert_eq!(j.started_at, Some(at(11)));

    let mut tally = ScanTally::new(3);
    let p = tally.record_result(symbol_scan_result("000001.SZ".into(), SeriesOutcome::Scan, 2));
    j.apply_progress(p);
    let p = tally.record_result(symbol_scan_failure("000002.SZ".into(), "timeout".into()));
    j.apply_progress(p);
    assert_eq!(j.completed_symbols, 2);
    assert_eq!(j.failed_symbols.len(), 1);
    assert_eq!(j.signal_count, 2);
    let p = tally.record_result(symbol_scan_result("000003.SZ".into(), SeriesOutcome::TooShort, 9));
    j.apply_progress(p);
    j.complete(&tally, at(20));
    assert_eq!(j.status, MarketScanJobStatus::Succeeded);
    assert_eq!(j.completed_symbols, 3);
    assert_eq!(j.series_count, 2);
    assert_eq!(j.skipped_short_series, 1);
    assert_eq!(j.signal_count, 2);
    assert_eq!(j.failed_symbols[0].error, "timeout");
    assert_eq!(j.finished_at, Some(at(20)));
    assert_eq!(j.entry().finished_at, Some(at(20)));
}

#[test]
fn failed_job_keeps_its_counts() {
    let mut j = job();
    j.mark_running(3, at(11));
    j.apply_progress(PatternScanProgress {
        requested_symbols: 3,
        completed_symbols: 1,
        series_count: 1,
        skipped_short_series: 0,
        signal_count: 0,
        failed_symbols: 0,
        latest_failure: None,
    });
    j.fail("boom".into(), at(12));
    assert_eq!(j.status, MarketScanJobStatus::Failed);
    assert_eq!(j.completed_symbols, 1);
    assert_eq!(j.error.as_deref(), Some("boom"));
    assert_eq!(j.finished_at, Some(at(12)));
}
