//! Defaults of the service configuration and the clean-up of optional text settings.
use vstd::prelude::*;
use crate::text::{chars_of, string_of, trim, trim_vec};

verus! {

/// The QMT gateway used when the configuration names none.
pub const DEFAULT_QMT_API_HOST: &'static str = "http://127.0.0.1:8000";

/// `0.0.0.0:8080`.
pub fn default_bind() -> (r: String)
    ensures
        r@ == "0.0.0.0:8080"@,
{
    String::from_str("0.0.0.0:8080")
}

/// Daily bars sync at 15:30:00 every day.
pub fn default_daily_cron() -> (r: String)
    ensures
        r@ == "0 30 15 * * *"@,
{
    String::from_str("0 30 15 * * *")
}

/// Minute bars sync at 15:10:00 every day.
pub fn default_minute_cron() -> (r: String)
    ensures
        r@ == "0 10 15 * * *"@,
{
    String::from_str("0 10 15 * * *")
}

/// The default QMT gateway address.
pub fn default_qmt_host() -> (r: String)
    ensures
        r@ == DEFAULT_QMT_API_HOST@,
{
    String::from_str(DEFAULT_QMT_API_HOST)
}

/// 30 seconds.
pub fn default_qmt_timeout() -> (r: u64)
    ensures
        r == 30,
{
    30
}

/// `127.0.0.1:9000`.
pub fn default_s3_host() -> (r: String)
    ensures
        r@ == "127.0.0.1:9000"@,
{
    String::from_str("127.0.0.1:9000")
}

/// `stock`.
pub fn default_s3_bucket() -> (r: String)
    ensures
        r@ == "stock"@,
{
    String::from_str("stock")
}

/// `us-east-1`.
pub fn default_s3_region() -> (r: String)
    ensures
        r@ == "us-east-1"@,
{
    String::from_str("us-east-1")
}

/// `data/staging`, the local directory files are staged in before upload.
pub fn default_staging_dir() -> (r: String)
    ensures
        r@ == "data/staging"@,
{
    String::from_str("data/staging")
}

/// 200 symbols per daily request.
pub fn default_daily_chunk_size() -> (r: usize)
    ensures
        r == 200,
{
    200
}

/// 8 daily requests at once.
pub fn default_daily_fetch_concurrency() -> (r: usize)
    ensures
        r == 8,
{
    8
}

/// 100 symbols per minute request.
pub fn default_minute_chunk_size() -> (r: usize)
    ensures
        r == 100,
{
    100
}

/// 4 minute requests at once.
pub fn default_minute_fetch_concurrency() -> (r: usize)
    ensures
        r == 4,
{
    4
}

/// 200000 rows per uploaded minute part.
pub fn default_part_size() -> (r: usize)
    ensures
        r == 200_000,
{
    200_000
}

/// 4 uploads at once.
pub fn default_upload_concurrency() -> (r: usize)
    ensures
        r == 4,
{
    4
}

/// `meta/ingestion/minute_zip_manifest.txt`.
pub fn default_manifest_file() -> (r: String)
    ensures
        r@ == "meta/ingestion/minute_zip_manifest.txt"@,
{
    String::from_str("meta/ingestion/minute_zip_manifest.txt")
}

/// The trimmed text, or `None` when absent or blank.
pub open spec fn non_blank(value: Option<Seq<char>>) -> Option<Seq<char>> {
    match value {
        Some(v) => if trim(v).len() == 0 {
            None
        } else {
            Some(trim(v))
        },
        None => None,
    }
}

/// Treats a blank setting as absent, and trims one that is given.
pub fn empty_to_none(value: Option<String>) -> (r: Option<String>)
    ensures
        match r {
            Some(s) => non_blank(
                match value {
                    Some(v) => Some(v@),
                    None => None,
                },
            ) == Some(s@),
            None => non_blank(
                match value {
                    Some(v) => Some(v@),
                    None => None,
                },
            ) is None,
        },
{
    match value {
        Some(v) => {
            let c = chars_of(v.as_str());
            let t = trim_vec(&c);
            if t.len() == 0 {
                None
            } else {
                Some(string_of(&t))
            }
        },
        None => None,
    }
}

/// A setting that was cleaned once is left as it is by a second cleaning.
pub proof fn law_non_blank_idempotent(value: Option<Seq<char>>)
    ensures
        non_blank(non_blank(value)) == non_blank(value),
{
    if let Some(v) = value {
        crate::text::lemma_trim_idempotent(v);
    }
}

} // verus!
