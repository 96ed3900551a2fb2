use rstock::dates::DateError;
use rstock::times::{format_time_ms, is_daily_period, normalize_date, parse_datetime_parts};

#[test]
fn daily_periods() {
    assert!(is_daily_period(" 1D "));
    assert!(is_daily_period("1mon"));
    assert!(!is_daily_period("1m"));
    assert!(!is_daily_period("tick"));
}

#[test]
fn bar_times_are_shown_in_china_time() {
    assert_eq!(format_time_ms("1m", 0), "1970-01-01 08:00:00");
    assert_eq!(format_time_ms("1d", 1_779_206_400_000), "2026-05-20");
    assert_eq!(format_time_ms("5m", 1_779_240_600_000), "2026-05-20 09:30:00");
}

#[test]
fn unplaceable_instants_are_shown_as_numbers() {
    assert_eq!(format_time_ms("1d", i64::MAX), i64::MAX.to_string());
}

#[test]
fn dates_are_read_from_bar_times() {
    assert_eq!(normalize_date("2026-05-20"), Ok("2026-05-20".to_string()));
    assert_eq!(normalize_date("2026-05-20 14:59:00"), Ok("2026-05-20".to_string()));
    assert_eq!(normalize_date("20260520"), Err(DateError::InvalidDate));
    assert_eq!(parse_datetime_parts("2026-05-20"), Ok((2026, 5, 20, 0, 0)));
    assert_eq!(parse_datetime_parts("2026-05-20 14:59:30"), Ok((2026, 5, 20, 14, 59)));
    assert_eq!(parse_datetime_parts("bad"), Err(DateError::InvalidDate));
}
