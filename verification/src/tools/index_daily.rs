//! Daily bars of indexes: one Parquet file per exchange and month, each
//! symbol and date once.
use vstd::prelude::*;
use vstd::utf8::encode_utf8;
use crate::ingest::row_exchange;
use crate::text::{chars_of, string_of, trim, trim_vec};
use crate::tools::{date_field_sliceable, date_parts, second_field_of, trimmed_bytes};

verus! {

/// Arguments of the index conversion.
#[derive(Debug)]
pub struct Args {
    /// Directory of the index csv files.
    pub input_dir: String,
    /// Root directory of the Parquet output.
    pub output_dir: String,
}

/// What an index row is filed under: its symbol, exchange and date, and
/// the year and month of its partition.
#[derive(Debug)]
pub struct IndexRowKey {
    pub symbol: String,
    pub exchange: String,
    pub time: String,
    pub year: String,
    pub month: String,
}

/// The key of a CSV row from its symbol and time fields; `None` for a
/// symbol that names no exchange (nothing, or only blanks, after its first
/// `.`) or a time shorter than ten bytes.
pub fn index_row_key(symbol_field: &str, time_field: &str) -> (r: Option<IndexRowKey>)
    requires
        date_field_sliceable(time_field@),
    ensures
        r is Some <==> row_exchange(symbol_field@) is Some && trimmed_bytes(time_field@).len() >= 10,
        r matches Some(k) ==> {
            &&& k.symbol@ == trim(symbol_field@)
            &&& k.exchange@ == row_exchange(symbol_field@)->0
            &&& encode_utf8(k.time@) == trimmed_bytes(time_field@).subrange(0, 10)
            &&& encode_utf8(k.year@) == trimmed_bytes(time_field@).subrange(0, 4)
            &&& encode_utf8(k.month@) == trimmed_bytes(time_field@).subrange(5, 7)
        },
{
    let sv = chars_of(symbol_field);
    let symbol = trim_vec(&sv);
    let field = match second_field_of(&symbol) {
        Some(f) => f,
        None => return None,
    };
    let exchange = trim_vec(&field);
    if exchange.len() == 0 {
        return None;
    }
    let (time, year, month) = match date_parts(time_field) {
        Some(parts) => parts,
        None => return None,
    };
    Some(IndexRowKey { symbol: string_of(&symbol), exchange: string_of(&exchange), time, year, month })
}

/// `curated/index_daily_bars/exchange=<exchange>/year=<year>/month=<month>/data.parquet`.
pub open spec fn index_output_spec(exchange: Seq<char>, year: Seq<char>, month: Seq<char>) -> Seq<char> {
    "curated/index_daily_bars/exchange="@ + exchange + "/year="@ + year + "/month="@ + month + "/data.parquet"@
}

/// Where the rows of one exchange and month are written, relative to the
/// output directory.
pub fn index_daily_output_key(exchange: &str, year: &str, month: &str) -> (r: String)
    ensures
        r@ == index_output_spec(exchange@, year@, month@),
{
    let mut s = String::from_str("curated/index_daily_bars/exchange=");
    s.append(exchange);
    s.append("/year=");
    s.append(year);
    s.append("/month=");
    s.append(month);
    s.append("/data.parquet");
    s
}

} // verus!
