//! Object keys of the curated bar datasets and the date parts they are built from.
use vstd::prelude::*;
use vstd::string::StringSliceAdditionalSpecFns;
use vstd::utf8::{
    encode_utf8_valid_utf8, is_char_boundary, is_char_boundary_iff_not_is_continuation_byte,
    valid_utf8_split,
};

verus! {

/// `curated/minute_bars_1m/trade_date=<date>/exchange=<exchange>/part-000.parquet`.
pub open spec fn minute_key(trade_date: Seq<char>, exchange: Seq<char>) -> Seq<char> {
    "curated/minute_bars_1m/trade_date="@ + trade_date + "/exchange="@ + exchange
        + "/part-000.parquet"@
}

/// The object key of one day's minute bars of one exchange.
pub fn minute_partition_key(trade_date: &str, exchange: &str) -> (r: String)
    ensures
        r@ == minute_key(trade_date@, exchange@),
{
    let mut s = String::from_str("curated/minute_bars_1m/trade_date=");
    s.append(trade_date);
    s.append("/exchange=");
    s.append(exchange);
    s.append("/part-000.parquet");
    s
}

/// `curated/daily_bars/exchange=<exchange>/year=<year>/month=<month>/data.parquet`.
pub open spec fn daily_key(exchange: Seq<char>, year: Seq<char>, month: Seq<char>) -> Seq<char> {
    "curated/daily_bars/exchange="@ + exchange + "/year="@ + year + "/month="@ + month
        + "/data.parquet"@
}

/// The object key of one month's daily bars of one exchange.
pub fn daily_partition_key(exchange: &str, year: &str, month: &str) -> (r: String)
    ensures
        r@ == daily_key(exchange@, year@, month@),
{
    let mut s = String::from_str("curated/daily_bars/exchange=");
    s.append(exchange);
    s.append("/year=");
    s.append(year);
    s.append("/month=");
    s.append(month);
    s.append("/data.parquet");
    s
}

/// The first ten bytes of a minute timestamp when they end on a character
/// boundary (`str::get(0..10)`), else the whole text.
pub open spec fn trade_date_bytes(b: Seq<u8>) -> Seq<u8> {
    if 10 <= b.len() && is_char_boundary(b, 10) {
        b.subrange(0, 10)
    } else {
        b
    }
}

/// The trade date `YYYY-MM-DD` that starts a minute timestamp.
pub fn minute_trade_date(time: &str) -> (r: &str)
    ensures
        r.spec_bytes() == trade_date_bytes(time.spec_bytes()),
{
    let n = time.as_bytes().len();
    if n >= 10 && time.is_char_boundary(10) {
        let (head, _) = time.split_at(10);
        head
    } else {
        time
    }
}

/// The first minute request time of a compact date: `<date>091500`.
pub fn minute_start_time(compact_date: &str) -> (r: String)
    ensures
        r@ == compact_date@ + "091500"@,
{
    let mut s = String::from_str(compact_date);
    s.append("091500");
    s
}

/// The last minute request time of a compact date: `<date>150000`.
pub fn minute_end_time(compact_date: &str) -> (r: String)
    ensures
        r@ == compact_date@ + "150000"@,
{
    let mut s = String::from_str(compact_date);
    s.append("150000");
    s
}

/// Whether slicing bytes `0..4`, `5..7` of a timestamp stays on character
/// boundaries, as the daily grouping needs.
pub open spec fn month_fields_sliceable(b: Seq<u8>) -> bool {
    b.len() >= 7 ==> is_char_boundary(b, 4) && is_char_boundary(b, 5) && is_char_boundary(b, 7)
}

/// Year (bytes `0..4`) and month (bytes `5..7`) of a `YYYY-MM-...` time;
/// `None` for a time shorter than seven bytes.
pub fn daily_partition_fields(time: &str) -> (r: Option<(&str, &str)>)
    requires
        month_fields_sliceable(time.spec_bytes()),
    ensures
        time.spec_bytes().len() < 7 ==> r is None,
        time.spec_bytes().len() >= 7 ==> (r matches Some(p) && p.0.spec_bytes()
            == time.spec_bytes().subrange(0, 4) && p.1.spec_bytes() == time.spec_bytes().subrange(
            5,
            7,
        )),
{
    let n = time.as_bytes().len();
    if n < 7 {
        return None;
    }
    proof {
        encode_utf8_valid_utf8(time@);
    }
    let (head, _) = time.split_at(7);
    proof {
        let b = time.spec_bytes();
        let h = head.spec_bytes();
        valid_utf8_split(b, 7);
        assert(h =~= b.subrange(0, 7));
        is_char_boundary_iff_not_is_continuation_byte(b, 4);
        is_char_boundary_iff_not_is_continuation_byte(b, 5);
        is_char_boundary_iff_not_is_continuation_byte(h, 4);
    }
    let (year, rest) = head.split_at(4);
    proof {
        let h = head.spec_bytes();
        let t = rest.spec_bytes();
        valid_utf8_split(h, 4);
        assert(t =~= h.subrange(4, 7));
        is_char_boundary_iff_not_is_continuation_byte(t, 1);
    }
    let (_, month) = rest.split_at(1);
    Some((year, month))
}

} // verus!
