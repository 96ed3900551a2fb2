use rstock::dates::{
    compact_date, dashed_date, month_windows, month_windows_between, normalize_compact_date,
    normalize_compact_datetime, parse_request_date, DateError, Ymd,
};

fn pairs(v: &[(&str, &str)]) -> Vec<(String, String)> {
    v.iter().map(|(a, b)| (a.to_string(), b.to_string())).collect()
}

#[test]
fn compact_date_accepts_both_forms() {
    assert_eq!(compact_date(" 2026-05-20 "), Ok("20260520".to_string()));
    assert_eq!(compact_date("20260520"), Ok("20260520".to_string()));
    assert_eq!(compact_date("2026-5-20"), Err(DateError::InvalidFormat));
    assert_eq!(compact_date("2026-05-2x"), Err(DateError::InvalidFormat));
}

#[test]
fn dashed_date_writes_dashes() {
    assert_eq!(dashed_date("20260520"), Ok("2026-05-20".to_string()));
    assert_eq!(dashed_date("bad"), Err(DateError::InvalidFormat));
}

#[test]
fn month_windows_split_a_range_by_calendar_month() {
    assert_eq!(
        month_windows("20231215", "20240305"),
        Ok(pairs(&[
            ("20231215", "20231231"),
            ("20240101", "20240131"),
            ("20240201", "20240229"),
            ("20240301", "20240305"),
        ]))
    );
}

#[test]
fn month_windows_of_one_day() {
    assert_eq!(month_windows("20260520", "20260520"), Ok(pairs(&[("20260520", "20260520")])));
}

#[test]
fn month_windows_refuse_reversed_or_invalid_ranges() {
    assert_eq!(month_windows("20260521", "20260520"), Err(DateError::StartAfterEnd));
    assert_eq!(month_windows("20260230", "20260520"), Err(DateError::InvalidDate));
    assert_eq!(
        month_windows_between(Ymd { year: 262142, month: 12, day: 1 }, Ymd { year: 262142, month: 12, day: 2 }),
        Err(DateError::NextMonthUnavailable)
    );
}

#[test]
fn month_windows_tile_the_range_consecutively() {
    let w = month_windows("20230131", "20230302").unwrap();
    assert_eq!(w, pairs(&[("20230131", "20230131"), ("20230201", "20230228"), ("20230301", "20230302")]));
}

#[test]
fn query_dates_are_checked_against_the_calendar() {
    assert_eq!(normalize_compact_date(" 2024-02-29 "), Ok("20240229".to_string()));
    assert_eq!(normalize_compact_date("20230229"), Err(DateError::InvalidDate));
    assert_eq!(normalize_compact_date("  "), Err(DateError::Empty));
}

#[test]
fn query_datetimes_are_compacted_and_checked() {
    assert_eq!(
        normalize_compact_datetime("2026-05-20 09:30:00"),
        Ok("20260520093000".to_string())
    );
    assert_eq!(normalize_compact_datetime("20260520150000"), Ok("20260520150000".to_string()));
    assert_eq!(normalize_compact_datetime("20260520250000"), Err(DateError::InvalidDate));
    assert_eq!(normalize_compact_datetime("2026-05-20"), Err(DateError::InvalidFormat));
    assert_eq!(normalize_compact_datetime(""), Err(DateError::Empty));
}

#[test]
fn request_dates_accept_dashed_then_compact() {
    assert_eq!(parse_request_date(" 2026-05-20 "), Ok(Ymd { year: 2026, month: 5, day: 20 }));
    assert_eq!(parse_request_date("20260520"), Ok(Ymd { year: 2026, month: 5, day: 20 }));
    assert_eq!(parse_request_date(""), Err(DateError::Empty));
    assert_eq!(parse_request_date("2026-13-01"), Err(DateError::InvalidDate));
}
