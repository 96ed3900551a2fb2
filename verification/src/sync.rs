//! Planning a bar synchronisation: checking its arguments, the date range it
//! covers (moved forward past a watermark in incremental mode), the dates an
//! HTTP request asks for, and which daily rows survive deduplication.
use vstd::prelude::*;
use crate::dates::{
    compact_date, compact_date_spec, compact_text, date_le, format_date, next_date, parse_date,
    parsed_date, valid_date, DateError, Ymd,
};
use crate::frames::{keyed, last_of_key, latest_rows_by_symbol_time, opt_text, row_lt, same_key};
use crate::order::{
    all_positions, lemma_distinct_below, lemma_increasing_cover_is_identity, lemma_text_lt_irreflexive,
    lemma_text_lt_transitive, picked,
};
use crate::text::{chars_of, text_lt, trim, trim_vec, string_of};

verus! {

/// Arguments of a daily-bar synchronisation.
#[derive(Debug)]
pub struct SyncDailyArgs {
    pub start_date: String,
    pub end_date: String,
    pub chunk_size: usize,
    pub fetch_concurrency: usize,
    pub incremental: bool,
    pub watermark_file: String,
    pub stock_codes_file: Option<String>,
    pub base_url: String,
    pub authorization: Option<String>,
    pub timeout: u64,
    pub s3_bucket: String,
    pub staging_dir: String,
    pub s3_region: String,
    pub s3_access_key: Option<String>,
    pub s3_secret_key: Option<String>,
    pub s3_host: Option<String>,
}

/// Arguments of a one-minute-bar synchronisation.
#[derive(Debug)]
pub struct SyncMinuteArgs {
    pub start_date: String,
    pub end_date: String,
    pub chunk_size: usize,
    pub fetch_concurrency: usize,
    pub stock_codes_file: Option<String>,
    pub base_url: String,
    pub authorization: Option<String>,
    pub timeout: u64,
    pub s3_bucket: String,
    pub staging_dir: String,
    pub s3_region: String,
    pub s3_access_key: Option<String>,
    pub s3_secret_key: Option<String>,
    pub s3_host: Option<String>,
}

/// Why a synchronisation was refused before it started.
#[derive(Debug, Clone, Copy, PartialEq, Eq, Structural)]
pub enum SyncError {
    /// `--chunk-size` is zero.
    ZeroChunkSize,
    /// `--fetch-concurrency` is zero.
    ZeroFetchConcurrency,
    /// A date (or the watermark) could not be read.
    Date(DateError),
}

/// The date `YYYYMMDD` text stands for, as chrono reads it.
pub open spec fn parse_compact(c: Seq<char>) -> Option<Ymd> {
    match parsed_date(c, "%Y%m%d"@) {
        Some(t) => Some(Ymd { year: t.0, month: t.1, day: t.2 }),
        None => None,
    }
}

fn parse_compact_date(c: &str) -> (r: Option<Ymd>)
    ensures
        r == parse_compact(c@),
        r matches Some(d) ==> valid_date(d),
{
    parse_date(c, "%Y%m%d")
}

/// The day a watermark file records: nothing for blank text, else the
/// date in `YYYYMMDD` or `YYYY-MM-DD`.
pub open spec fn watermark_spec(raw: Seq<char>) -> Result<Option<Ymd>, DateError> {
    let t = trim(raw);
    if t.len() == 0 {
        Ok(None)
    } else {
        match compact_date_spec(t) {
            None => Err(DateError::InvalidFormat),
            Some(c) => match parse_compact(c) {
                Some(d) => Ok(Some(d)),
                None => Err(DateError::InvalidDate),
            },
        }
    }
}

/// Reads the text of a watermark file.
pub fn watermark_day(raw: &str) -> (r: Result<Option<Ymd>, DateError>)
    ensures
        r == watermark_spec(raw@),
        r matches Ok(Some(d)) ==> valid_date(d),
{
    let v = chars_of(raw);
    let t = trim_vec(&v);
    if t.len() == 0 {
        return Ok(None);
    }
    let text = string_of(&t);
    let c = match compact_date(text.as_str()) {
        Ok(c) => c,
        Err(e) => return Err(e),
    };
    match parse_compact_date(c.as_str()) {
        Some(d) => Ok(Some(d)),
        None => Err(DateError::InvalidDate),
    }
}

/// Both sizes must be positive.
pub open spec fn sizes_error(chunk_size: nat, fetch_concurrency: nat) -> Option<SyncError> {
    if chunk_size == 0 {
        Some(SyncError::ZeroChunkSize)
    } else if fetch_concurrency == 0 {
        Some(SyncError::ZeroFetchConcurrency)
    } else {
        None
    }
}

/// The start after the watermark: the day after it, when that day exists
/// and lies after the requested start.
pub open spec fn start_after_watermark(start: Ymd, watermark: Option<Ymd>) -> Option<Ymd> {
    match watermark {
        Some(w) => match next_date(w) {
            Some(n) => if !date_le(n, start) {
                Some(n)
            } else {
                None
            },
            None => None,
        },
        None => None,
    }
}

/// The range a daily synchronisation covers, as `YYYYMMDD` start and end;
/// `None` when the start lies after the end and nothing is to be done.
pub open spec fn daily_range_spec(
    start_date: Seq<char>,
    end_date: Seq<char>,
    chunk_size: nat,
    fetch_concurrency: nat,
    incremental: bool,
    watermark: Option<Seq<char>>,
) -> Result<Option<(Seq<char>, Seq<char>)>, SyncError> {
    if sizes_error(chunk_size, fetch_concurrency) is Some {
        Err(sizes_error(chunk_size, fetch_concurrency)->0)
    } else if compact_date_spec(start_date) is None || compact_date_spec(end_date) is None {
        Err(SyncError::Date(DateError::InvalidFormat))
    } else {
        let sc = compact_date_spec(start_date)->0;
        let ec = compact_date_spec(end_date)->0;
        if parse_compact(sc) is None || parse_compact(ec) is None {
            Err(SyncError::Date(DateError::InvalidDate))
        } else {
            let s = parse_compact(sc)->0;
            let e = parse_compact(ec)->0;
            let w = if incremental && watermark is Some {
                watermark_spec(watermark->0)
            } else {
                Ok(None)
            };
            match w {
                Err(x) => Err(SyncError::Date(x)),
                Ok(wd) => {
                    let (s2, sc2) = match start_after_watermark(s, wd) {
                        Some(n) => (n, compact_text(n)),
                        None => (s, sc),
                    };
                    if date_le(s2, e) {
                        Ok(Some((sc2, ec)))
                    } else {
                        Ok(None)
                    }
                },
            }
        }
    }
}

fn check_sizes(chunk_size: usize, fetch_concurrency: usize) -> (r: Option<SyncError>)
    ensures
        r == sizes_error(chunk_size as nat, fetch_concurrency as nat),
{
    if chunk_size == 0 {
        Some(SyncError::ZeroChunkSize)
    } else if fetch_concurrency == 0 {
        Some(SyncError::ZeroFetchConcurrency)
    } else {
        None
    }
}

fn ymd_le(a: Ymd, b: Ymd) -> (r: bool)
    ensures
        r == date_le(a, b),
{
    a.year < b.year || (a.year == b.year && (a.month < b.month || (a.month == b.month && a.day
        <= b.day)))
}

/// Plans a daily synchronisation: checks the sizes, reads both dates and,
/// in incremental mode, moves the start past the watermark text (`None`
/// when there is no watermark file).
pub fn daily_sync_range(
    start_date: &str,
    end_date: &str,
    chunk_size: usize,
    fetch_concurrency: usize,
    incremental: bool,
    watermark: Option<&str>,
) -> (r: Result<Option<(String, String)>, SyncError>)
    ensures
        match r {
            Ok(Some((a, b))) => daily_range_spec(
                start_date@,
                end_date@,
                chunk_size as nat,
                fetch_concurrency as nat,
                incremental,
                match watermark {
                    Some(w) => Some(w@),
                    None => None,
                },
            ) == Ok::<Option<(Seq<char>, Seq<char>)>, SyncError>(Some((a@, b@))),
            Ok(None) => daily_range_spec(
                start_date@,
                end_date@,
                chunk_size as nat,
                fetch_concurrency as nat,
                incremental,
                match watermark {
                    Some(w) => Some(w@),
                    None => None,
                },
            ) == Ok::<Option<(Seq<char>, Seq<char>)>, SyncError>(None),
            Err(x) => daily_range_spec(
                start_date@,
                end_date@,
                chunk_size as nat,
                fetch_concurrency as nat,
                incremental,
                match watermark {
                    Some(w) => Some(w@),
                    None => None,
                },
            ) == Err::<Option<(Seq<char>, Seq<char>)>, SyncError>(x),
        },
{
    if let Some(e) = check_sizes(chunk_size, fetch_concurrency) {
        return Err(e);
    }
    let sc = compact_date(start_date);
    let ec = compact_date(end_date);
    let (sc, ec) = match (sc, ec) {
        (Ok(a), Ok(b)) => (a, b),
        _ => return Err(SyncError::Date(DateError::InvalidFormat)),
    };
    let s = parse_compact_date(sc.as_str());
    let e = parse_compact_date(ec.as_str());
    let (s, e) = match (s, e) {
        (Some(a), Some(b)) => (a, b),
        _ => return Err(SyncError::Date(DateError::InvalidDate)),
    };
    let w = if incremental {
        match watermark {
            Some(raw) => watermark_day(raw),
            None => Ok(None),
        }
    } else {
        Ok(None)
    };
    let wd = match w {
        Ok(wd) => wd,
        Err(x) => return Err(SyncError::Date(x)),
    };
    let mut start = s;
    let mut start_text = sc;
    if let Some(d) = wd {
        if let Some(n) = crate::dates::date_succ(d) {
            if !ymd_le(n, s) {
                start = n;
                start_text = format_date(n, "%Y%m%d");
                proof {
                    reveal_strlit("%Y%m%d");
                }
            }
        }
    }
    if ymd_le(start, e) {
        Ok(Some((start_text, ec)))
    } else {
        Ok(None)
    }
}

/// The `YYYYMMDD` range of a one-minute synchronisation.
pub open spec fn minute_range_spec(
    start_date: Seq<char>,
    end_date: Seq<char>,
    chunk_size: nat,
    fetch_concurrency: nat,
) -> Result<(Seq<char>, Seq<char>), SyncError> {
    if sizes_error(chunk_size, fetch_concurrency) is Some {
        Err(sizes_error(chunk_size, fetch_concurrency)->0)
    } else if compact_date_spec(start_date) is None || compact_date_spec(end_date) is None {
        Err(SyncError::Date(DateError::InvalidFormat))
    } else {
        Ok((compact_date_spec(start_date)->0, compact_date_spec(end_date)->0))
    }
}

/// Checks the sizes of a one-minute synchronisation and reads its dates.
pub fn minute_sync_range(
    start_date: &str,
    end_date: &str,
    chunk_size: usize,
    fetch_concurrency: usize,
) -> (r: Result<(String, String), SyncError>)
    ensures
        match r {
            Ok((a, b)) => minute_range_spec(
                start_date@,
                end_date@,
                chunk_size as nat,
                fetch_concurrency as nat,
            ) == Ok::<(Seq<char>, Seq<char>), SyncError>((a@, b@)),
            Err(x) => minute_range_spec(
                start_date@,
                end_date@,
                chunk_size as nat,
                fetch_concurrency as nat,
            ) == Err::<(Seq<char>, Seq<char>), SyncError>(x),
        },
{
    if let Some(e) = check_sizes(chunk_size, fetch_concurrency) {
        return Err(e);
    }
    match (compact_date(start_date), compact_date(end_date)) {
        (Ok(a), Ok(b)) => Ok((a, b)),
        _ => Err(SyncError::Date(DateError::InvalidFormat)),
    }
}

/// The dates a synchronisation request names; each is optional.
#[derive(Debug)]
pub struct SyncRequest {
    pub date: Option<String>,
    pub start_date: Option<String>,
    pub end_date: Option<String>,
}

/// The start and end a request asks for: the start is `start_date`, else
/// `date`, else today; the end is `end_date`, else `date`, else the start.
/// Without a request both are today.
pub fn request_dates(req: Option<SyncRequest>, today: String) -> (r: (String, String))
    ensures
        match req {
            None => r.0@ == today@ && r.1@ == today@,
            Some(q) => {
                let start = if q.start_date is Some {
                    q.start_date->0@
                } else if q.date is Some {
                    q.date->0@
                } else {
                    today@
                };
                &&& r.0@ == start
                &&& r.1@ == if q.end_date is Some {
                    q.end_date->0@
                } else if q.date is Some {
                    q.date->0@
                } else {
                    start
                }
            },
        },
{
    match req {
        None => {
            let end = today.clone();
            (today, end)
        },
        Some(q) => {
            let SyncRequest { date, start_date, end_date } = q;
            let start = match start_date {
                Some(s) => s,
                None => match &date {
                    Some(d) => d.clone(),
                    None => today,
                },
            };
            let end = match end_date {
                Some(e) => e,
                None => match date {
                    Some(d) => d,
                    None => start.clone(),
                },
            };
            (start, end)
        },
    }
}

/// What deduplication reads of a daily bar.
#[derive(Debug)]
pub struct DailyBarKey {
    pub symbol: String,
    pub exchange: String,
    pub time: String,
}

/// Two bars of one symbol on one day.
pub open spec fn same_day(a: DailyBarKey, b: DailyBarKey) -> bool {
    a.symbol@ == b.symbol@ && a.time@ == b.time@
}

/// Order by symbol, then by time.
pub open spec fn key_lt(a: DailyBarKey, b: DailyBarKey) -> bool {
    text_lt(a.symbol@, b.symbol@) || (a.symbol@ == b.symbol@ && text_lt(a.time@, b.time@))
}

/// No later bar is of the same symbol and day.
pub open spec fn latest_of_day(keys: Seq<DailyBarKey>, i: int) -> bool {
    forall|j: int| i < j < keys.len() ==> !same_day(#[trigger] keys[j], keys[i])
}

/// Positions `r` are those daily deduplication keeps: each names a row no
/// later row repeats in symbol and day, every such row is named, and they
/// come ordered by symbol, then day.
pub open spec fn daily_rows_kept(keys: Seq<DailyBarKey>, r: Seq<usize>) -> bool {
    &&& forall|k: int| 0 <= k < r.len() ==> r[k] < keys.len() && latest_of_day(keys, #[trigger] r[k] as int)
    &&& forall|i: int| 0 <= i < keys.len() && latest_of_day(keys, i) ==> r.contains(i as usize)
    &&& forall|a: int, b: int| 0 <= a < b < r.len() ==> key_lt(keys[#[trigger] r[a] as int], keys[#[trigger] r[b] as int])
}

/// Positions of the rows a daily partition keeps: for each symbol and day
/// the row listed last, ordered by symbol and then day.
pub fn dedup_daily_rows(keys: &[DailyBarKey]) -> (r: Vec<usize>)
    ensures
        daily_rows_kept(keys@, r@),
{
    let mut symbols: Vec<Option<String>> = Vec::new();
    let mut times: Vec<Option<String>> = Vec::new();
    let mut q: usize = 0;
    while q < keys.len()
        invariant
            q <= keys.len(),
            symbols.len() == q,
            times.len() == q,
            forall|k: int| 0 <= k < q ==> opt_text(#[trigger] symbols@[k]) == Some(keys@[k].symbol@),
            forall|k: int| 0 <= k < q ==> opt_text(#[trigger] times@[k]) == Some(keys@[k].time@),
        decreases keys.len() - q,
    {
        symbols.push(Some(keys[q].symbol.clone()));
        times.push(Some(keys[q].time.clone()));
        q = q + 1;
    }
    let r = latest_rows_by_symbol_time(&symbols, &times);
    proof {
        assert forall|i: int, j: int| 0 <= i < keys.len() && 0 <= j < keys.len() implies {
            &&& keyed(symbols@, times@, i)
            &&& same_key(symbols@, times@, i, j) == same_day(keys@[i], keys@[j])
            &&& row_lt(symbols@, times@, i, j) == key_lt(keys@[i], keys@[j])
        } by {
            assert(opt_text(symbols@[i]) == Some(keys@[i].symbol@));
            assert(opt_text(symbols@[j]) == Some(keys@[j].symbol@));
            assert(opt_text(times@[i]) == Some(keys@[i].time@));
            assert(opt_text(times@[j]) == Some(keys@[j].time@));
        }
        assert forall|i: int| 0 <= i < keys.len() implies last_of_key(symbols@, times@, i) == latest_of_day(keys@, i) by {
            if last_of_key(symbols@, times@, i) {
                assert forall|j: int| i < j < keys@.len() implies !same_day(#[trigger] keys@[j], keys@[i]) by {
                    assert(keyed(symbols@, times@, j));
                    assert(same_key(symbols@, times@, i, j) == same_day(keys@[i], keys@[j]));
                }
            }
            if latest_of_day(keys@, i) {
                assert forall|j: int| i < j < symbols@.len() implies !(#[trigger] keyed(symbols@, times@, j) && same_key(symbols@, times@, i, j)) by {
                    assert(!same_day(keys@[j], keys@[i]));
                    assert(same_key(symbols@, times@, i, j) == same_day(keys@[i], keys@[j]));
                }
            }
        }
    }
    r
}


proof fn lemma_key_lt_irreflexive(a: DailyBarKey)
    ensures
        !key_lt(a, a),
{
    lemma_text_lt_irreflexive(a.symbol@);
    lemma_text_lt_irreflexive(a.time@);
}

proof fn lemma_key_lt_transitive(a: DailyBarKey, b: DailyBarKey, c: DailyBarKey)
    requires
        key_lt(a, b),
        key_lt(b, c),
    ensures
        key_lt(a, c),
{
    lemma_text_lt_irreflexive(a.symbol@);
    lemma_text_lt_irreflexive(b.symbol@);
    if text_lt(a.symbol@, b.symbol@) && text_lt(b.symbol@, c.symbol@) {
        lemma_text_lt_transitive(a.symbol@, b.symbol@, c.symbol@);
    }
    if a.symbol@ == b.symbol@ && b.symbol@ == c.symbol@ {
        lemma_text_lt_transitive(a.time@, b.time@, c.time@);
    }
}

/// Deduplicating the daily rows that deduplication kept keeps every one of
/// them, in the order they come: the operation is idempotent.
pub proof fn law_dedup_daily_rows_idempotent(keys: Seq<DailyBarKey>, r: Seq<usize>, r2: Seq<usize>)
    requires
        keys.len() <= usize::MAX,
        daily_rows_kept(keys, r),
        daily_rows_kept(picked(keys, r), r2),
    ensures
        r.len() <= keys.len(),
        r2 == all_positions(r.len()),
        picked(picked(keys, r), r2) == picked(keys, r),
{
    let out = picked(keys, r);
    let n = r.len();
    assert forall|a: int, b: int| 0 <= a < b < n implies #[trigger] key_lt(out[a], out[b]) by {
        assert(key_lt(keys[r[a] as int], keys[r[b] as int]));
    }
    assert forall|i: int| 0 <= i < n implies #[trigger] latest_of_day(out, i) by {
        assert forall|j: int| i < j < out.len() implies !same_day(#[trigger] out[j], out[i]) by {
            assert(key_lt(out[i], out[j]));
            lemma_key_lt_irreflexive(out[i]);
        }
    }
    assert forall|a: int, b: int| 0 <= a < b < r2.len() implies r2[a] < r2[b] by {
        let (x, y) = (r2[a] as int, r2[b] as int);
        assert(key_lt(out[x], out[y]));
        lemma_key_lt_irreflexive(out[x]);
        if y < x {
            assert(key_lt(out[y], out[x]));
            lemma_key_lt_transitive(out[x], out[y], out[x]);
        }
    }
    assert forall|i: int| 0 <= i < n implies #[trigger] r2.contains(i as usize) by {
        assert(latest_of_day(out, i));
    }
    assert(n <= keys.len()) by {
        assert forall|a: int, b: int| 0 <= a < b < r.len() implies r[a] != r[b] by {
            assert(key_lt(keys[r[a] as int], keys[r[b] as int]));
            lemma_key_lt_irreflexive(keys[r[a] as int]);
        }
        lemma_distinct_below(r, keys.len());
    }
    lemma_increasing_cover_is_identity(r2, n);
    assert(picked(out, r2) =~= out);
}

} // verus!
