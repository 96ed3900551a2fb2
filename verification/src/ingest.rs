//! Importing one-minute bars from CSV archives: the arguments, which rows
//! are kept and under which key, how parts are named, and the manifest key
//! that marks a source file as done.
use vstd::prelude::*;
use vstd::string::StringSliceAdditionalSpecFns;
use vstd::utf8::{encode_utf8, is_char_boundary};
use crate::text::{
    chars_of, decimal, extend_chars, extend_str, find_first, first_pos, lemma_first_pos, padded_decimal, slice_of,
    string_of, trim, trim_vec, zero_padded,
};

verus! {

/// Arguments of a minute-bar import.
#[derive(Debug)]
pub struct ImportMinuteArgs {
    pub input_dir: String,
    pub part_size: usize,
    pub manifest_file: String,
    pub s3_bucket: String,
    pub s3_region: String,
    pub s3_access_key: Option<String>,
    pub s3_secret_key: Option<String>,
    pub s3_host: Option<String>,
}

/// Settings of the archive-to-object-store tool.
#[derive(Debug)]
pub struct MinuteS3Config {
    pub host: String,
    pub bucket: String,
    pub region: String,
    pub access_key: Option<String>,
    pub secret_key: Option<String>,
    pub staging_dir: String,
    pub part_size: usize,
    pub upload_concurrency: usize,
    pub manifest_file: String,
}

/// What a minute row is filed under: its symbol, the exchange named after
/// the symbol's first dot, its time (first 19 bytes) and trade date (first
/// 10 bytes).
#[derive(Debug)]
pub struct MinuteRowKey {
    pub symbol: String,
    pub exchange: String,
    pub time: String,
    pub trade_date: String,
}

/// The second `.`-separated field of a text (`split('.').nth(1)`).
pub open spec fn second_field(s: Seq<char>) -> Option<Seq<char>> {
    match first_pos(s, '.') {
        None => None,
        Some(k) => {
            let rest = s.subrange(k + 1, s.len() as int);
            match first_pos(rest, '.') {
                Some(j) => Some(rest.subrange(0, j)),
                None => Some(rest),
            }
        },
    }
}

/// The exchange a row's symbol names; `None` when it names none.
pub open spec fn row_exchange(symbol: Seq<char>) -> Option<Seq<char>> {
    match second_field(trim(symbol)) {
        Some(f) => if trim(f).len() > 0 {
            Some(trim(f))
        } else {
            None
        },
        None => None,
    }
}

/// The time field can be cut at bytes 10 and 19 when it is that long.
pub open spec fn time_field_sliceable(time: Seq<char>) -> bool {
    let b = encode_utf8(trim(time));
    b.len() >= 19 ==> is_char_boundary(b, 10) && is_char_boundary(b, 19)
}

fn exchange_of(symbol: &Vec<char>) -> (r: Option<Vec<char>>)
    ensures
        match r {
            Some(e) => second_field(symbol@) matches Some(f) && e@ == trim(f),
            None => second_field(symbol@) is None,
        },
{
    proof {
        lemma_first_pos(symbol@, '.');
    }
    let k = match find_first(symbol, '.') {
        Some(k) => k,
        None => return None,
    };
    assert(k < symbol.len());
    let rest = slice_of(symbol, k + 1, symbol.len());
    proof {
        lemma_first_pos(rest@, '.');
    }
    let field = match find_first(&rest, '.') {
        Some(j) => slice_of(&rest, 0, j),
        None => rest,
    };
    Some(trim_vec(&field))
}

/// The key of a CSV row from its symbol and time fields; `None` for a row
/// without an exchange or with a time shorter than 19 bytes.
pub fn minute_row_key(symbol_field: &str, time_field: &str) -> (r: Option<MinuteRowKey>)
    requires
        time_field_sliceable(time_field@),
    ensures
        (row_exchange(symbol_field@) is None || encode_utf8(trim(time_field@)).len() < 19) ==> r is None,
        (row_exchange(symbol_field@) is Some && encode_utf8(trim(time_field@)).len() >= 19) ==> (r matches Some(k)
            && k.symbol@ == trim(symbol_field@) && k.exchange@ == row_exchange(symbol_field@)->0 && encode_utf8(k.time@)
            == encode_utf8(trim(time_field@)).subrange(0, 19) && encode_utf8(k.trade_date@) == encode_utf8(
            trim(time_field@),
        ).subrange(0, 10)),
{
    let sv = chars_of(symbol_field);
    let symbol = trim_vec(&sv);
    let exchange = match exchange_of(&symbol) {
        Some(e) => e,
        None => return None,
    };
    assert(symbol@ == trim(symbol_field@));
    if exchange.len() == 0 {
        assert(row_exchange(symbol_field@) is None);
        return None;
    }
    let tv = chars_of(time_field);
    let time = string_of(&trim_vec(&tv));
    let t = time.as_str();
    assert(t@ == trim(time_field@));
    assert(t.spec_bytes() == encode_utf8(trim(time_field@)));
    if t.as_bytes().len() < 19 {
        return None;
    }
    let (time19, _) = t.split_at(19);
    let (date10, _) = t.split_at(10);
    Some(
        MinuteRowKey {
            symbol: string_of(&symbol),
            exchange: string_of(&exchange),
            time: String::from_str(time19),
            trade_date: String::from_str(date10),
        },
    )
}

/// `curated/minute_bars_1m/trade_date=<date>/exchange=<exchange>/part-<n, three digits>.parquet`.
pub open spec fn minute_part_key_spec(trade_date: Seq<char>, exchange: Seq<char>, part: nat) -> Seq<char> {
    "curated/minute_bars_1m/trade_date="@ + trade_date + "/exchange="@ + exchange + "/part-"@ + zero_padded(
        part,
        3,
    ) + ".parquet"@
}

/// The object key of the `part`-th part of a day's minute bars of one exchange.
pub fn minute_part_key(trade_date: &str, exchange: &str, part: usize) -> (r: String)
    ensures
        r@ == minute_part_key_spec(trade_date@, exchange@, part as nat),
{
    let mut v = chars_of("curated/minute_bars_1m/trade_date=");
    extend_str(&mut v, trade_date);
    extend_str(&mut v, "/exchange=");
    extend_str(&mut v, exchange);
    extend_str(&mut v, "/part-");
    let d = padded_decimal(part as u64, 3);
    extend_chars(&mut v, &d);
    extend_str(&mut v, ".parquet");
    string_of(&v)
}

/// Why an import was refused before it started.
#[derive(Debug, Clone, Copy, PartialEq, Eq, Structural)]
pub enum ImportError {
    /// `--part-size` is zero.
    ZeroPartSize,
}

/// Parts must hold at least one row.
pub fn check_part_size(part_size: usize) -> (r: Result<(), ImportError>)
    ensures
        r is Ok <==> part_size > 0,
        r is Err ==> r == Err::<(), ImportError>(ImportError::ZeroPartSize),
{
    if part_size == 0 {
        Err(ImportError::ZeroPartSize)
    } else {
        Ok(())
    }
}

/// `<relative path>\t<size>\t<modified, seconds>`: the manifest line that
/// marks a source file as imported.
pub fn source_key(relative: &str, size: u64, mtime_secs: u64) -> (r: String)
    ensures
        r@ == relative@ + "\t"@ + decimal(size as nat) + "\t"@ + decimal(mtime_secs as nat),
{
    let mut v = chars_of(relative);
    extend_str(&mut v, "\t");
    let s = crate::text::decimal_u64(size);
    extend_chars(&mut v, &s);
    extend_str(&mut v, "\t");
    let m = crate::text::decimal_u64(mtime_secs);
    extend_chars(&mut v, &m);
    string_of(&v)
}

} // verus!
