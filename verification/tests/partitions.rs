use rstock::config::{
    default_bind, default_daily_chunk_size, default_daily_cron, default_daily_fetch_concurrency,
    default_manifest_file, default_minute_chunk_size, default_minute_cron,
    default_minute_fetch_concurrency, default_part_size, default_qmt_host, default_qmt_timeout,
    default_s3_bucket, default_s3_host, default_s3_region, default_staging_dir,
    default_upload_concurrency, empty_to_none,
};
use rstock::partitions::{
    daily_partition_fields, daily_partition_key, minute_end_time, minute_partition_key,
    minute_start_time, minute_trade_date,
};

#[test]
fn object_keys() {
    assert_eq!(
        minute_partition_key("2026-05-24", "SZ"),
        "curated/minute_bars_1m/trade_date=2026-05-24/exchange=SZ/part-000.parquet"
    );
    assert_eq!(
        daily_partition_key("SZ", "2026", "05"),
        "curated/daily_bars/exchange=SZ/year=2026/month=05/data.parquet"
    );
}

#[test]
fn minute_times() {
    assert_eq!(minute_trade_date("2026-05-24 09:31:00"), "2026-05-24");
    assert_eq!(minute_trade_date("2026"), "2026");
    assert_eq!(minute_start_time("20260524"), "20260524091500");
    assert_eq!(minute_end_time("20260524"), "20260524150000");
}

#[test]
fn daily_fields() {
    assert_eq!(daily_partition_fields("2026-05-20"), Some(("2026", "05")));
    assert_eq!(daily_partition_fields("2026-5"), None);
}

#[test]
fn configuration_defaults() {
    assert_eq!(default_bind(), "0.0.0.0:8080");
    assert_eq!(default_daily_cron(), "0 30 15 * * *");
    assert_eq!(default_minute_cron(), "0 10 15 * * *");
    assert_eq!(default_qmt_host(), "http://127.0.0.1:8000");
    assert_eq!(default_qmt_timeout(), 30);
    assert_eq!(default_s3_host(), "127.0.0.1:9000");
    assert_eq!(default_s3_bucket(), "stock");
    assert_eq!(default_s3_region(), "us-east-1");
    assert_eq!(default_staging_dir(), "data/staging");
    assert_eq!(default_daily_chunk_size(), 200);
    assert_eq!(default_daily_fetch_concurrency(), 8);
    assert_eq!(default_minute_chunk_size(), 100);
    assert_eq!(default_minute_fetch_concurrency(), 4);
    assert_eq!(default_part_size(), 200_000);
    assert_eq!(default_upload_concurrency(), 4);
    assert_eq!(default_manifest_file(), "meta/ingestion/minute_zip_manifest.txt");
}

#[test]
fn blank_settings_are_absent() {
    assert_eq!(empty_to_none(None), None);
    assert_eq!(empty_to_none(Some("  ".into())), None);
    assert_eq!(empty_to_none(Some(" key ".into())), Some("key".to_string()));
}
