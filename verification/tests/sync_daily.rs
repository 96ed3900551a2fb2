use rstock::sync::{dedup_daily_rows, DailyBarKey};

struct Bar {
    symbol: String,
    exchange: String,
    time: String,
    open: Option<f64>,
}

fn daily_bar(symbol: &str, exchange: &str, time: &str, open: f64) -> Bar {
    Bar {
        symbol: symbol.to_string(),
        exchange: exchange.to_string(),
        time: time.to_string(),
        open: Some(open),
    }
}

fn dedup(rows: Vec<Bar>) -> Vec<Bar> {
    let keys: Vec<DailyBarKey> = rows
        .iter()
        .map(|b| DailyBarKey {
            symbol: b.symbol.clone(),
            exchange: b.exchange.clone(),
            time: b.time.clone(),
        })
        .collect();
    let kept = dedup_daily_rows(&keys);
    let mut slots: Vec<Option<Bar>> = rows.into_iter().map(Some).collect();
    kept.iter().map(|&i| slots[i].take().unwrap()).collect()
}

#[test]
fn dedup_daily_rows_keeps_latest_row_per_symbol_and_day() {
    let rows = vec![
        daily_bar("000001.SZ", "SZ", "2026-05-20", 10.0),
        daily_bar("000001.SZ", "SZ", "2026-05-20", 11.0),
        daily_bar("000001.SZ", "SZ", "2026-05-21", 12.0),
        daily_bar("600000.SH", "SH", "2026-05-20", 8.0),
    ];

    let deduped = dedup(rows);

    assert_eq!(deduped.len(), 3);
    assert_eq!(deduped[0].symbol, "000001.SZ");
    assert_eq!(deduped[0].time, "2026-05-20");
    assert_eq!(deduped[0].open, Some(11.0));
    assert_eq!(deduped[1].time, "2026-05-21");
    assert_eq!(deduped[2].symbol, "600000.SH");
}

#[test]
fn dedup_orders_rows_by_symbol_then_day() {
    let keys = vec![
        DailyBarKey { symbol: "600000.SH".into(), exchange: "SH".into(), time: "2026-05-21".into() },
        DailyBarKey { symbol: "000002.SZ".into(), exchange: "SZ".into(), time: "2026-05-22".into() },
        DailyBarKey { symbol: "000002.SZ".into(), exchange: "SZ".into(), time: "2026-05-20".into() },
        DailyBarKey { symbol: "600000.SH".into(), exchange: "SH".into(), time: "2026-05-21".into() },
    ];
    assert_eq!(dedup_daily_rows(&keys), vec![2, 1, 3]);
}

#[test]
fn dedup_of_no_rows_is_empty() {
    assert!(dedup_daily_rows(&[]).is_empty());
}

use rstock::dates::{DateError, Ymd};
use rstock::sync::{
    daily_sync_range, minute_sync_range, request_dates, watermark_day, SyncError, SyncRequest,
};

#[test]
fn daily_range_checks_sizes_first() {
    assert_eq!(
        daily_sync_range("2026-01-01", "2026-01-31", 0, 8, false, None),
        Err(SyncError::ZeroChunkSize)
    );
    assert_eq!(
        daily_sync_range("2026-01-01", "2026-01-31", 200, 0, false, None),
        Err(SyncError::ZeroFetchConcurrency)
    );
}

#[test]
fn daily_range_reads_both_date_forms() {
    assert_eq!(
        daily_sync_range(" 2026-01-01 ", "20260131", 200, 8, false, None),
        Ok(Some(("20260101".to_string(), "20260131".to_string())))
    );
    assert_eq!(
        daily_sync_range("2026/01/01", "20260131", 200, 8, false, None),
        Err(SyncError::Date(DateError::InvalidFormat))
    );
    assert_eq!(
        daily_sync_range("20260230", "20260301", 200, 8, false, None),
        Err(SyncError::Date(DateError::InvalidDate))
    );
}

#[test]
fn daily_range_moves_start_past_watermark() {
    assert_eq!(
        daily_sync_range("20260101", "20260131", 200, 8, true, Some("2026-01-10\n")),
        Ok(Some(("20260111".to_string(), "20260131".to_string())))
    );
    assert_eq!(
        daily_sync_range("20260101", "20260131", 200, 8, true, Some("20251231")),
        Ok(Some(("20260101".to_string(), "20260131".to_string())))
    );
    assert_eq!(
        daily_sync_range("20260101", "20260131", 200, 8, false, Some("20260110")),
        Ok(Some(("20260101".to_string(), "20260131".to_string())))
    );
    assert_eq!(
        daily_sync_range("20260101", "20260131", 200, 8, true, Some("20260131")),
        Ok(None)
    );
    assert_eq!(
        daily_sync_range("20260101", "20260131", 200, 8, true, Some("garbage")),
        Err(SyncError::Date(DateError::InvalidFormat))
    );
    assert_eq!(
        daily_sync_range("20260101", "20260131", 200, 8, true, Some("   ")),
        Ok(Some(("20260101".to_string(), "20260131".to_string())))
    );
}

#[test]
fn daily_range_with_start_after_end_has_nothing_to_do() {
    assert_eq!(daily_sync_range("20260201", "20260131", 200, 8, false, None), Ok(None));
}

#[test]
fn watermark_text_is_read_as_a_day() {
    assert_eq!(watermark_day(""), Ok(None));
    assert_eq!(
        watermark_day(" 20240229 "),
        Ok(Some(Ymd { year: 2024, month: 2, day: 29 }))
    );
    assert_eq!(watermark_day("20230229"), Err(DateError::InvalidDate));
}

#[test]
fn minute_range_checks_sizes_and_dates() {
    assert_eq!(
        minute_sync_range("2026-05-24", "2026-05-25", 100, 4),
        Ok(("20260524".to_string(), "20260525".to_string()))
    );
    assert_eq!(minute_sync_range("2026-05-24", "x", 100, 4), Err(SyncError::Date(DateError::InvalidFormat)));
    assert_eq!(minute_sync_range("2026-05-24", "2026-05-25", 0, 4), Err(SyncError::ZeroChunkSize));
}

#[test]
fn sync_request_without_body_means_today() {
    assert_eq!(
        request_dates(None, "20260524".to_string()),
        ("20260524".to_string(), "20260524".to_string())
    );
}

#[test]
fn sync_request_date_fills_missing_bounds() {
    let req = SyncRequest { date: Some("20260501".into()), start_date: None, end_date: None };
    assert_eq!(
        request_dates(Some(req), "20260524".into()),
        ("20260501".to_string(), "20260501".to_string())
    );
    let req = SyncRequest { date: None, start_date: Some("20260501".into()), end_date: None };
    assert_eq!(
        request_dates(Some(req), "20260524".into()),
        ("20260501".to_string(), "20260501".to_string())
    );
    let req = SyncRequest { date: None, start_date: None, end_date: Some("20260510".into()) };
    assert_eq!(
        request_dates(Some(req), "20260524".into()),
        ("20260524".to_string(), "20260510".to_string())
    );
    let req = SyncRequest {
        date: Some("20260503".into()),
        start_date: Some("20260501".into()),
        end_date: None,
    };
    assert_eq!(
        request_dates(Some(req), "20260524".into()),
        ("20260501".to_string(), "20260503".to_string())
    );
}
