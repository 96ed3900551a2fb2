use rstock::dates::Ymd;
use rstock::tdx_fallback::{
    bar_day_in_range, next_page, parse_tdx_symbol, sort_dedup_bars, tdx_compact_date,
    tdx_minute_time, TdxMarket,
};

#[test]
fn symbols_name_their_market() {
    assert_eq!(
        parse_tdx_symbol("000001.sz"),
        Some((TdxMarket::Shenzhen, "000001".to_string(), "SZ".to_string()))
    );
    assert_eq!(
        parse_tdx_symbol("a.b.SH"),
        Some((TdxMarket::Shanghai, "a.b".to_string(), "SH".to_string()))
    );
    assert_eq!(parse_tdx_symbol("830799.BJ").unwrap().0, TdxMarket::Beijing);
    assert_eq!(parse_tdx_symbol("00700.HK"), None);
    assert_eq!(parse_tdx_symbol("000001"), None);
}

#[test]
fn paging_stops_on_short_empty_or_reached_pages() {
    assert_eq!(next_page(0, 800, false, 800), Some(800));
    assert_eq!(next_page(800, 800, true, 800), None);
    assert_eq!(next_page(800, 799, false, 800), None);
    assert_eq!(next_page(800, 0, false, 800), None);
}

#[test]
fn bars_are_sorted_and_first_of_each_key_kept() {
    let keys = vec![
        (2026, 5, 21, 0, 0),
        (2026, 5, 20, 0, 0),
        (2026, 5, 21, 0, 0),
        (2025, 12, 31, 15, 0),
    ];
    assert_eq!(sort_dedup_bars(&keys), vec![3, 1, 0]);
}

#[test]
fn bar_days_are_checked_and_ranged() {
    let s = Ymd { year: 2026, month: 5, day: 1 };
    let e = Ymd { year: 2026, month: 5, day: 31 };
    assert_eq!(bar_day_in_range(2026, 5, 20, s, e), Some(Ymd { year: 2026, month: 5, day: 20 }));
    assert_eq!(bar_day_in_range(2026, 6, 1, s, e), None);
    assert_eq!(bar_day_in_range(2026, 2, 30, s, e), None);
}

#[test]
fn minute_times_and_dates() {
    assert_eq!(tdx_minute_time(Ymd { year: 2026, month: 5, day: 20 }, 9, 5), "2026-05-20 09:05:00");
    assert_eq!(tdx_compact_date("2026-05-20"), Some(Ymd { year: 2026, month: 5, day: 20 }));
    assert_eq!(tdx_compact_date("20260520"), Some(Ymd { year: 2026, month: 5, day: 20 }));
    assert_eq!(tdx_compact_date("2026/05/20"), None);
}
