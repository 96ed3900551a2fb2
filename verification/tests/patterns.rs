use rstock::dates::{DateError, Ymd};
use rstock::patterns::{
    accepted_response, available_pattern_ids, default_detector_kinds, job_symbols, list_patterns,
    parse_pattern_id, pattern_id, plan_all_patterns, plan_market_scan, plan_market_scan_all,
    plan_single_pattern, unknown_pattern_message, PatternAllRequest, PatternKind,
    PatternMarketAllRequest, PatternMarketRequest, PatternRequestError, PatternSingleRequest,
};

#[test]
fn ids_are_sorted_and_complete() {
    let ids = available_pattern_ids();
    assert_eq!(ids.len(), 14);
    let mut sorted = ids.clone();
    sorted.sort();
    assert_eq!(ids, sorted);
    assert_eq!(ids[0], "bottom_trend_inflection");
    assert_eq!(ids[13], "w_bottom");
    assert_eq!(list_patterns().pattern_ids, ids);
}

#[test]
fn ids_round_trip_through_parsing() {
    for k in default_detector_kinds() {
        assert_eq!(parse_pattern_id(pattern_id(k)), Some(k));
    }
    assert_eq!(parse_pattern_id("  morning_star "), Some(PatternKind::MorningStar));
    assert_eq!(parse_pattern_id("nope"), None);
    assert_eq!(default_detector_kinds()[0], PatternKind::BottomTrendInflection);
    assert_eq!(default_detector_kinds()[13], PatternKind::Strategy2560Selection);
}

#[test]
fn single_pattern_plan() {
    let req = PatternSingleRequest {
        symbol: "000001.SZ".into(),
        trade_date: "2026-05-20".into(),
        pattern_id: " w_bottom ".into(),
        history_days: Some(10),
        refresh_remote: None,
    };
    let plan = plan_single_pattern(&req).unwrap();
    assert_eq!(plan.kinds, vec![PatternKind::WBottom]);
    assert_eq!(plan.symbols, vec!["000001.SZ".to_string()]);
    assert_eq!(plan.trade_date, Ymd { year: 2026, month: 5, day: 20 });
    assert_eq!(plan.history_days, 30);
    assert!(!plan.refresh_remote);
}

#[test]
fn single_pattern_errors_in_order() {
    let bad_both = PatternSingleRequest {
        symbol: "x".into(),
        trade_date: "".into(),
        pattern_id: "nope".into(),
        history_days: None,
        refresh_remote: None,
    };
    assert_eq!(plan_single_pattern(&bad_both).err(), Some(PatternRequestError::TradeDate(DateError::Empty)));
    let bad_id = PatternSingleRequest { trade_date: "20260520".into(), ..bad_both };
    assert_eq!(plan_single_pattern(&bad_id).err(), Some(PatternRequestError::UnknownPattern));
}

#[test]
fn all_pattern_plan_runs_every_detector() {
    let req = PatternAllRequest {
        symbol: "600000.SH".into(),
        trade_date: "20260520".into(),
        history_days: None,
        refresh_remote: Some(true),
    };
    let plan = plan_all_patterns(&req).unwrap();
    assert_eq!(plan.kinds, default_detector_kinds());
    assert_eq!(plan.history_days, 365);
    assert!(plan.refresh_remote);
}

#[test]
fn market_scan_plans() {
    let req = PatternMarketRequest {
        pattern_id: "w_bottom".into(),
        trade_date: "2026-05-20".into(),
        history_days: Some(100),
        refresh_remote: None,
        symbols: Some(vec!["a".into(), "b".into()]),
    };
    let p = plan_market_scan(&req).unwrap();
    assert_eq!(p.requested_symbols, 2);
    assert_eq!(p.history_days, 100);
    let req = PatternMarketAllRequest {
        trade_date: "2026-02-30".into(),
        history_days: None,
        refresh_remote: None,
        symbols: None,
    };
    assert_eq!(plan_market_scan_all(&req), Err(DateError::InvalidDate));
}

#[test]
fn job_symbols_fall_back_to_discovery() {
    assert_eq!(job_symbols(None), None);
    assert_eq!(job_symbols(Some(vec![])), None);
    assert_eq!(job_symbols(Some(vec!["a".to_string()])), Some(vec!["a".to_string()]));
}

#[test]
fn accepted_jobs_are_queued() {
    let r = accepted_response("market-scan-1".into());
    assert_eq!(r.job_id, "market-scan-1");
    assert_eq!(r.status, "queued");
}

#[test]
fn unknown_pattern_message_lists_ids() {
    let msg = unknown_pattern_message(" nope ");
    let expected = format!(
        "unknown pattern_id nope, available pattern ids: {}",
        available_pattern_ids().join(", ")
    );
    assert_eq!(msg, expected);
}
