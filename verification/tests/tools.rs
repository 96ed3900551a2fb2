use rstock::ingest::MinuteS3Config;
use rstock::tools::daily::{daily_output_key, daily_row_key};
use rstock::tools::index_daily::{index_daily_output_key, index_row_key};
use rstock::tools::manifest_entries;
use rstock::tools::minute::minute_output_key;
use rstock::tools::minute_s3::{minute_s3_part_key, resolve_settings, Args, PartCounters, SettingsError};

fn config(part_size: usize, upload_concurrency: usize) -> MinuteS3Config {
    MinuteS3Config {
        host: "127.0.0.1:9000".to_string(),
        bucket: "stock".to_string(),
        region: "us-east-1".to_string(),
        access_key: None,
        secret_key: None,
        staging_dir: "data/staging".to_string(),
        part_size,
        upload_concurrency,
        manifest_file: "meta/ingestion/minute_zip_manifest.txt".to_string(),
    }
}

fn args(part_size: Option<usize>, upload_concurrency: Option<usize>, manifest_file: Option<&str>) -> Args {
    Args {
        config_file: "config.toml".to_string(),
        input_dir: "in".to_string(),
        part_size,
        upload_concurrency,
        manifest_file: manifest_file.map(|m| m.to_string()),
    }
}

#[test]
fn manifest_entries_trims_skips_blank_lines_and_dedups() {
    let entries = manifest_entries(" a/x.zip\t10\t5 \n\n c.zip\t1\t2 \r\nb.zip\t3\t4\n a/x.zip\t10\t5");
    assert_eq!(entries, vec!["a/x.zip\t10\t5".to_string(), "b.zip\t3\t4".to_string(), "c.zip\t1\t2".to_string()]);
}

#[test]
fn manifest_entries_of_empty_or_blank_text_is_empty() {
    assert!(manifest_entries("").is_empty());
    assert!(manifest_entries("\n  \n\t\n").is_empty());
}

#[test]
fn daily_row_key_takes_exchange_year_and_month() {
    let key = daily_row_key(" 600000.SH ", "2024-01-02 00:00:00").unwrap();
    assert_eq!(key.symbol, "600000.SH");
    assert_eq!(key.exchange, "SH");
    assert_eq!(key.time, "2024-01-02");
    assert_eq!(key.year, "2024");
    assert_eq!(key.month, "01");
}

#[test]
fn daily_row_key_keeps_an_empty_exchange_but_needs_a_dot_and_a_date() {
    let key = daily_row_key("600000.", "2024-03-05").unwrap();
    assert_eq!(key.exchange, "");
    assert_eq!(key.month, "03");
    assert!(daily_row_key("600000", "2024-03-05").is_none());
    assert!(daily_row_key("600000.SH", "2024-03-0").is_none());
}

#[test]
fn index_row_key_needs_a_named_exchange() {
    let key = index_row_key("000300.SH.X", " 2023-12-29").unwrap();
    assert_eq!(key.exchange, "SH");
    assert_eq!(key.time, "2023-12-29");
    assert_eq!(key.year, "2023");
    assert_eq!(key.month, "12");
    assert!(index_row_key("000300. ", "2023-12-29").is_none());
    assert!(index_row_key("000300", "2023-12-29").is_none());
}

#[test]
fn output_keys_follow_the_partition_layout() {
    assert_eq!(
        daily_output_key("SH", "2024", "01", "src-00000-a"),
        "curated/daily_bars/exchange=SH/year=2024/month=01/src-00000-a.parquet"
    );
    assert_eq!(
        index_daily_output_key("SZ", "2023", "12"),
        "curated/index_daily_bars/exchange=SZ/year=2023/month=12/data.parquet"
    );
    assert_eq!(
        minute_output_key("2024-01-02", "SZ", "src-00001-x", 7),
        "curated/minute_bars_1m/trade_date=2024-01-02/exchange=SZ/src-00001-x-part-007.parquet"
    );
    assert_eq!(
        minute_s3_part_key("2024-01-02", "SH", 12),
        "curated/minute_bars_1m/trade_date=2024-01-02/exchange=SH/part-000012.parquet"
    );
}

#[test]
fn resolve_settings_prefers_arguments_and_refuses_zeros() {
    let s = resolve_settings(&args(None, Some(8), Some("m.txt")), &config(200_000, 4)).unwrap();
    assert_eq!(s.part_size, 200_000);
    assert_eq!(s.upload_concurrency, 8);
    assert_eq!(s.manifest_file, "m.txt");
    let s = resolve_settings(&args(Some(10), None, None), &config(200_000, 4)).unwrap();
    assert_eq!(s.part_size, 10);
    assert_eq!(s.upload_concurrency, 4);
    assert_eq!(s.manifest_file, "meta/ingestion/minute_zip_manifest.txt");
    assert_eq!(resolve_settings(&args(Some(0), Some(0), None), &config(1, 1)).unwrap_err(), SettingsError::ZeroPartSize);
    assert_eq!(
        resolve_settings(&args(None, Some(0), None), &config(1, 4)).unwrap_err(),
        SettingsError::ZeroUploadConcurrency
    );
}

#[test]
fn part_counters_count_each_partition_separately() {
    let mut counters = PartCounters::new();
    assert_eq!(counters.take_next("2024-01-02", "SH"), 0);
    assert_eq!(counters.take_next("2024-01-02", "SH"), 1);
    assert_eq!(counters.take_next("2024-01-02", "SZ"), 0);
    assert_eq!(counters.take_next("2024-01-03", "SH"), 0);
    assert_eq!(counters.peek("2024-01-02", "SH"), 2);
    assert_eq!(counters.peek("2024-01-04", "BJ"), 0);
}
