use rstock::ingest::{check_part_size, minute_part_key, minute_row_key, source_key, ImportError};
use rstock::storage::{output_id, S3Settings};

fn settings(endpoint: &str, ak: Option<&str>, sk: Option<&str>) -> S3Settings {
    S3Settings {
        endpoint: endpoint.into(),
        bucket: "stock".into(),
        access_key: ak.map(String::from),
        secret_key: sk.map(String::from),
        region: "us-east-1".into(),
    }
}

#[test]
fn endpoint_gets_a_scheme() {
    assert_eq!(settings("127.0.0.1:9000", None, None).endpoint_url(), "http://127.0.0.1:9000");
    assert_eq!(settings("https://s3.local", None, None).endpoint_url(), "https://s3.local");
}

#[test]
fn credentials_need_both_keys() {
    assert_eq!(
        settings("h", Some("ak"), Some("sk")).static_credentials(),
        Some(("ak".to_string(), "sk".to_string()))
    );
    assert_eq!(settings("h", Some("ak"), None).static_credentials(), None);
}

#[test]
fn output_ids_are_padded_and_sanitised() {
    assert_eq!(output_id("2024/SZ 000001", 7), "src-00007-2024_SZ_000001");
    assert_eq!(output_id("a-b_c", 123456), "src-123456-a-b_c");
}

#[test]
fn minute_rows_are_keyed() {
    let k = minute_row_key(" 000001.SZ ", " 2026-05-24 09:31:00.000 ").unwrap();
    assert_eq!(k.symbol, "000001.SZ");
    assert_eq!(k.exchange, "SZ");
    assert_eq!(k.time, "2026-05-24 09:31:00");
    assert_eq!(k.trade_date, "2026-05-24");
    assert!(minute_row_key("000001", "2026-05-24 09:31:00").is_none());
    assert!(minute_row_key("000001. .X", "2026-05-24 09:31:00").is_none());
    assert!(minute_row_key("000001.SZ", "2026-05-24").is_none());
    assert_eq!(minute_row_key("a.SH.b", "2026-05-24 09:31:00").unwrap().exchange, "SH");
}

#[test]
fn part_keys_and_source_keys() {
    assert_eq!(
        minute_part_key("2026-05-24", "SZ", 3),
        "curated/minute_bars_1m/trade_date=2026-05-24/exchange=SZ/part-003.parquet"
    );
    assert_eq!(source_key("a/b.zip", 10, 20), "a/b.zip\t10\t20");
    assert_eq!(check_part_size(0), Err(ImportError::ZeroPartSize));
    assert_eq!(check_part_size(1), Ok(()));
}
