//! Daily bars of stocks: one Parquet file per source file, exchange and month.
use vstd::prelude::*;
use vstd::utf8::encode_utf8;
use crate::ingest::second_field;
use crate::text::{chars_of, string_of, trim, trim_vec};
use crate::tools::{date_field_sliceable, date_parts, second_field_of, trimmed_bytes};

verus! {

/// Arguments of the daily conversion.
#[derive(Debug)]
pub struct Args {
    /// Directory of the daily zip/csv files.
    pub input_dir: String,
    /// Root directory of the Parquet output.
    pub output_dir: String,
}

/// What a daily row is filed under: its symbol and date, and the exchange,
/// year and month of its partition.
#[derive(Debug)]
pub struct DailyRowKey {
    pub symbol: String,
    pub time: String,
    pub exchange: String,
    pub year: String,
    pub month: String,
}

/// The key of a CSV row from its symbol and time fields; `None` for a
/// symbol without a `.` or a time shorter than ten bytes. The exchange is
/// the text after the symbol's first `.`, as it stands.
pub fn daily_row_key(symbol_field: &str, time_field: &str) -> (r: Option<DailyRowKey>)
    requires
        date_field_sliceable(time_field@),
    ensures
        r is Some <==> second_field(trim(symbol_field@)) is Some && trimmed_bytes(time_field@).len() >= 10,
        r matches Some(k) ==> {
            &&& k.symbol@ == trim(symbol_field@)
            &&& k.exchange@ == second_field(trim(symbol_field@))->0
            &&& encode_utf8(k.time@) == trimmed_bytes(time_field@).subrange(0, 10)
            &&& encode_utf8(k.year@) == trimmed_bytes(time_field@).subrange(0, 4)
            &&& encode_utf8(k.month@) == trimmed_bytes(time_field@).subrange(5, 7)
        },
{
    let sv = chars_of(symbol_field);
    let symbol = trim_vec(&sv);
    let exchange = match second_field_of(&symbol) {
        Some(e) => e,
        None => return None,
    };
    let (time, year, month) = match date_parts(time_field) {
        Some(parts) => parts,
        None => return None,
    };
    Some(DailyRowKey { symbol: string_of(&symbol), time, exchange: string_of(&exchange), year, month })
}

/// `curated/daily_bars/exchange=<exchange>/year=<year>/month=<month>/<file id>.parquet`.
pub open spec fn daily_output_spec(exchange: Seq<char>, year: Seq<char>, month: Seq<char>, file_id: Seq<char>) -> Seq<char> {
    "curated/daily_bars/exchange="@ + exchange + "/year="@ + year + "/month="@ + month + "/"@ + file_id
        + ".parquet"@
}

/// Where one source file's rows of one exchange and month are written,
/// relative to the output directory.
pub fn daily_output_key(exchange: &str, year: &str, month: &str, file_id: &str) -> (r: String)
    ensures
        r@ == daily_output_spec(exchange@, year@, month@, file_id@),
{
    let mut s = String::from_str("curated/daily_bars/exchange=");
    s.append(exchange);
    s.append("/year=");
    s.append(year);
    s.append("/month=");
    s.append(month);
    s.append("/");
    s.append(file_id);
    s.append(".parquet");
    s
}

} // verus!
