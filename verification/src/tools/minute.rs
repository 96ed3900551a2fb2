//! One-minute bars into local Parquet parts: per source archive, one set of
//! parts per trade date and exchange.
use vstd::prelude::*;
use crate::text::{padded_decimal, string_of, zero_padded};

verus! {

/// Arguments of the local minute conversion.
#[derive(Debug)]
pub struct Args {
    /// Root directory of the minute zip files.
    pub input_dir: String,
    /// Root directory of the Parquet output.
    pub output_dir: String,
    /// Most rows in one Parquet part.
    pub part_size: usize,
    /// The file that lists the archives already converted.
    pub manifest_file: String,
}

/// `curated/minute_bars_1m/trade_date=<date>/exchange=<exchange>/<file id>-part-<n, three digits>.parquet`.
pub open spec fn minute_output_spec(trade_date: Seq<char>, exchange: Seq<char>, file_id: Seq<char>, part: nat) -> Seq<char> {
    "curated/minute_bars_1m/trade_date="@ + trade_date + "/exchange="@ + exchange + "/"@ + file_id + "-part-"@
        + zero_padded(part, 3) + ".parquet"@
}

/// Where the `part`-th part of one archive's rows of a trade date and
/// exchange is written, relative to the output directory.
pub fn minute_output_key(trade_date: &str, exchange: &str, file_id: &str, part: usize) -> (r: String)
    ensures
        r@ == minute_output_spec(trade_date@, exchange@, file_id@, part as nat),
{
    let mut s = String::from_str("curated/minute_bars_1m/trade_date=");
    s.append(trade_date);
    s.append("/exchange=");
    s.append(exchange);
    s.append("/");
    s.append(file_id);
    s.append("-part-");
    let digits = string_of(&padded_decimal(part as u64, 3));
    s.append(digits.as_str());
    s.append(".parquet");
    s
}

} // verus!
