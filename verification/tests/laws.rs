use rstock::config::empty_to_none;
use rstock::dates::compact_date;
use rstock::frames::latest_rows_by_symbol_time;
use rstock::quotes::normalize_sector_name;
use rstock::sync::{dedup_daily_rows, DailyBarKey};
use rstock::symbols::{normalize_base_url, normalize_symbol};
use rstock::tools::manifest_entries;

#[test]
fn normalizing_a_normalized_symbol_changes_nothing() {
    let once = normalize_symbol(" 600000.sh ").unwrap();
    assert_eq!(once, "600000.SH");
    assert_eq!(normalize_symbol(&once).unwrap(), once);
}

#[test]
fn compact_dates_read_back_as_themselves() {
    let once = compact_date(" 2024-01-02 ").unwrap();
    assert_eq!(once, "20240102");
    assert_eq!(compact_date(&once).unwrap(), once);
}

#[test]
fn normalized_base_urls_stay_as_they_are() {
    let once = normalize_base_url(" 127.0.0.1:8000 ");
    assert_eq!(once, "http://127.0.0.1:8000");
    assert_eq!(normalize_base_url(&once), once);
    assert_eq!(normalize_base_url(""), "http://");
    assert_eq!(normalize_base_url(&normalize_base_url("")), "http://");
}

#[test]
fn normalized_sector_names_stay_as_they_are() {
    let blank = normalize_sector_name(Some("  ".to_string()));
    assert_eq!(blank, "沪深A股");
    assert_eq!(normalize_sector_name(Some(blank.clone())), blank);
    let named = normalize_sector_name(Some(" 上证50 ".to_string()));
    assert_eq!(normalize_sector_name(Some(named.clone())), named);
}

#[test]
fn cleaned_settings_stay_clean() {
    let once = empty_to_none(Some("  key ".to_string()));
    assert_eq!(once.as_deref(), Some("key"));
    assert_eq!(empty_to_none(once.clone()), once);
    assert_eq!(empty_to_none(empty_to_none(Some("   ".to_string()))), None);
}

#[test]
fn an_appended_manifest_line_reads_back_with_the_earlier_ones() {
    let before = "a.zip\t1\t2\n";
    let after = format!("{before}b.zip\t3\t4\n");
    assert_eq!(manifest_entries(before), vec!["a.zip\t1\t2".to_string()]);
    assert_eq!(manifest_entries(&after), vec!["a.zip\t1\t2".to_string(), "b.zip\t3\t4".to_string()]);
    assert_eq!(manifest_entries("c.zip\t5\t6\n"), vec!["c.zip\t5\t6".to_string()]);
}

fn day_key(symbol: &str, time: &str) -> DailyBarKey {
    DailyBarKey { symbol: symbol.to_string(), exchange: "SZ".to_string(), time: time.to_string() }
}

#[test]
fn deduplicating_kept_daily_rows_keeps_them_all() {
    let keys = vec![
        day_key("000002.SZ", "2026-05-21"),
        day_key("000001.SZ", "2026-05-20"),
        day_key("000002.SZ", "2026-05-20"),
        day_key("000001.SZ", "2026-05-20"),
        day_key("000002.SZ", "2026-05-21"),
    ];
    let kept = dedup_daily_rows(&keys);
    assert_eq!(kept, vec![3, 2, 4]);
    let out: Vec<DailyBarKey> = kept.iter().map(|&i| day_key(&keys[i].symbol, &keys[i].time)).collect();
    assert_eq!(dedup_daily_rows(&out), vec![0, 1, 2]);
}

#[test]
fn deduplicating_kept_rows_by_symbol_and_time_keeps_them_all() {
    let symbols: Vec<Option<String>> =
        vec![Some("B".into()), Some("A".into()), None, Some("A".into()), Some("B".into())];
    let times: Vec<Option<String>> =
        vec![Some("t1".into()), Some("t2".into()), Some("t1".into()), Some("t2".into()), Some("t0".into())];
    let kept = latest_rows_by_symbol_time(&symbols, &times);
    assert_eq!(kept, vec![3, 4, 0]);
    let s2: Vec<Option<String>> = kept.iter().map(|&i| symbols[i].clone()).collect();
    let t2: Vec<Option<String>> = kept.iter().map(|&i| times[i].clone()).collect();
    assert_eq!(latest_rows_by_symbol_time(&s2, &t2), vec![0, 1, 2]);
}
