use rstock::quotes::{normalize_sector_name, sector_symbols, tick_subject, whole_quote_status, SNAPSHOT_WORKER_COUNT};

#[test]
fn sector_name_defaults_when_blank() {
    assert_eq!(normalize_sector_name(None), "沪深A股");
    assert_eq!(normalize_sector_name(Some("   ".into())), "沪深A股");
    assert_eq!(normalize_sector_name(Some(" 创业板 ".into())), "创业板");
}

#[test]
fn sector_symbols_are_trimmed_and_blank_ones_dropped() {
    let raw: Vec<String> = vec![" 000001.SZ ".into(), "".into(), "  ".into(), "600000.SH".into()];
    assert_eq!(sector_symbols(&raw), vec!["000001.SZ".to_string(), "600000.SH".to_string()]);
}

#[test]
fn ticks_are_published_per_code_and_market() {
    assert_eq!(
        tick_subject("000001.sz"),
        Some(("stock.tick.000001.SZ".to_string(), "000001.SZ".to_string()))
    );
    assert_eq!(
        tick_subject("SH.600000"),
        Some(("stock.tick.600000.SH".to_string(), "600000.SH".to_string()))
    );
    assert_eq!(tick_subject("600000"), None);
}

#[test]
fn status_reports_fixed_settings() {
    let s = whole_quote_status(true, false, None, 0, "nats://x".into(), true);
    assert_eq!(s.snapshot_worker_count, SNAPSHOT_WORKER_COUNT);
    assert_eq!(s.mode, "core");
    assert_eq!(s.subject_pattern, "stock.tick.{code}.{market}");
    assert!(s.enabled && !s.running && s.token_configured);
}
