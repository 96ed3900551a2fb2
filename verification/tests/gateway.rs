use rstock::qmt::{ensure_status_ok, map_adjust_type, map_quote_period, AdjustType, QmtStatus, QuotePeriod};
use rstock::tdx::{normalize_daily_query, normalize_minute_query_checked, QueryError, TdxKlineQuery};
use rstock::dates::DateError;
use rstock::symbols::SymbolError;

fn query(symbol: &str, sd: Option<&str>, ed: Option<&str>, st: Option<&str>, et: Option<&str>) -> TdxKlineQuery {
    TdxKlineQuery {
        symbol: symbol.into(),
        start_date: sd.map(String::from),
        end_date: ed.map(String::from),
        start_time: st.map(String::from),
        end_time: et.map(String::from),
    }
}

#[test]
fn quote_periods_are_read_case_insensitively() {
    assert_eq!(map_quote_period(" 1D "), Ok(QuotePeriod::QuotePeriod1d));
    assert_eq!(map_quote_period("1mo"), Ok(QuotePeriod::QuotePeriod1mon));
    assert_eq!(map_quote_period("tick"), Ok(QuotePeriod::Tick));
    assert_eq!(map_quote_period(" 2D "), Err("2d".to_string()));
}

#[test]
fn adjust_types_accept_aliases() {
    assert_eq!(map_adjust_type(""), Ok(AdjustType::Unadjusted));
    assert_eq!(map_adjust_type("QFQ"), Ok(AdjustType::Front));
    assert_eq!(map_adjust_type("hfq"), Ok(AdjustType::Back));
    assert_eq!(map_adjust_type("front_ratio"), Ok(AdjustType::FrontRatio));
    assert_eq!(map_adjust_type("x"), Err("x".to_string()));
}

#[test]
fn status_code_zero_is_ok() {
    assert_eq!(ensure_status_ok(None, "Get"), Ok(()));
    let ok = QmtStatus { code: 0, message: "fine".into() };
    assert_eq!(ensure_status_ok(Some(&ok), "Get"), Ok(()));
    let bad = QmtStatus { code: -3, message: "denied".into() };
    assert_eq!(
        ensure_status_ok(Some(&bad), "GetKlineHistory"),
        Err("GetKlineHistory failed: code=-3, message=denied".to_string())
    );
}

#[test]
fn daily_query_is_normalised() {
    let q = normalize_daily_query(query(" 000001.sz ", Some("2026-05-20"), Some("20260521"), Some("x"), None)).unwrap();
    assert_eq!(q.symbol, "000001.SZ");
    assert_eq!(q.start_date.as_deref(), Some("20260520"));
    assert_eq!(q.end_date.as_deref(), Some("20260521"));
    assert_eq!(q.start_time, None);
}

#[test]
fn daily_query_errors() {
    assert_eq!(
        normalize_daily_query(query("000001.SZ", None, Some("20260521"), None, None)).unwrap_err(),
        QueryError::MissingStartDate
    );
    assert_eq!(
        normalize_daily_query(query("000001.SZ", Some("20260522"), Some("20260521"), None, None)).unwrap_err(),
        QueryError::StartAfterEnd
    );
    assert_eq!(
        normalize_daily_query(query("1.SZ", Some("20260522"), Some("20260521"), None, None)).unwrap_err(),
        QueryError::Symbol(SymbolError::InvalidCode)
    );
    assert_eq!(
        normalize_daily_query(query("000001.SZ", Some("20260230"), Some("20260521"), None, None)).unwrap_err(),
        QueryError::Date(DateError::InvalidDate)
    );
}

#[test]
fn minute_query_fills_session_times() {
    let q = normalize_minute_query_checked(query("600000.SH", Some("2026-05-20"), Some("20260520"), None, None))
        .unwrap()
        .unwrap();
    assert_eq!(q.start_time.as_deref(), Some("20260520093000"));
    assert_eq!(q.end_time.as_deref(), Some("20260520150000"));
    let q = normalize_minute_query_checked(query(
        "600000.SH",
        None,
        None,
        Some("2026-05-20 10:00:00"),
        Some("20260520110000"),
    ))
    .unwrap()
    .unwrap();
    assert_eq!(q.start_date.as_deref(), Some("20260520"));
    assert_eq!(q.start_time.as_deref(), Some("20260520100000"));
    assert_eq!(
        normalize_minute_query_checked(query("600000.SH", None, Some("20260520"), None, None)).unwrap().unwrap_err(),
        QueryError::MissingStart
    );
    assert_eq!(
        normalize_minute_query_checked(query(
            "600000.SH",
            None,
            None,
            Some("20260520110000"),
            Some("20260520100000")
        ))
        .unwrap()
        .unwrap_err(),
        QueryError::StartTimeAfterEndTime
    );
}
