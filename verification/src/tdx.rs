//! Normalisation of K-line queries: symbol, dates and minute time bounds.
use vstd::prelude::*;
use vstd::utf8::{decode_utf8, encode_utf8, encode_utf8_decode_utf8, is_char_boundary};
use vstd::string::StringSliceAdditionalSpecFns;
use crate::text::{chars_of, text_lt, vec_lt};
use crate::symbols::{normalize_symbol, normalize_symbol_spec, SymbolError};
use crate::dates::{
    compact_date_result, compact_datetime_result, normalize_compact_date,
    normalize_compact_datetime, DateError,
};

verus! {

/// A K-line query as the HTTP API receives it.
#[derive(Debug, Clone)]
pub struct TdxKlineQuery {
    pub symbol: String,
    pub start_date: Option<String>,
    pub end_date: Option<String>,
    pub start_time: Option<String>,
    pub end_time: Option<String>,
}

/// Why a query was refused.
#[derive(Debug, Clone, Copy, PartialEq, Eq, Structural)]
pub enum QueryError {
    Symbol(SymbolError),
    Date(DateError),
    /// `start_date is required`.
    MissingStartDate,
    /// `end_date is required`.
    MissingEndDate,
    /// `start_date or start_time is required`.
    MissingStart,
    /// `end_date or end_time is required`.
    MissingEnd,
    /// The start date sorts after the end date.
    StartAfterEnd,
    /// The start time sorts after the end time.
    StartTimeAfterEndTime,
}

/// The text of a query.
pub struct QueryText {
    pub symbol: Seq<char>,
    pub start_date: Option<Seq<char>>,
    pub end_date: Option<Seq<char>>,
    pub start_time: Option<Seq<char>>,
    pub end_time: Option<Seq<char>>,
}

pub open spec fn opt_view(o: Option<String>) -> Option<Seq<char>> {
    match o {
        Some(s) => Some(s@),
        None => None,
    }
}

pub open spec fn query_text(q: TdxKlineQuery) -> QueryText {
    QueryText {
        symbol: q.symbol@,
        start_date: opt_view(q.start_date),
        end_date: opt_view(q.end_date),
        start_time: opt_view(q.start_time),
        end_time: opt_view(q.end_time),
    }
}

/// What `normalize_daily_query` returns.
pub open spec fn daily_query_result(q: QueryText) -> Result<QueryText, QueryError> {
    match normalize_symbol_spec(q.symbol) {
        Err(e) => Err(QueryError::Symbol(e)),
        Ok(symbol) => match q.start_date {
            None => Err(QueryError::MissingStartDate),
            Some(si) => match q.end_date {
                None => Err(QueryError::MissingEndDate),
                Some(ei) => match compact_date_result(si) {
                    Err(e) => Err(QueryError::Date(e)),
                    Ok(sd) => match compact_date_result(ei) {
                        Err(e) => Err(QueryError::Date(e)),
                        Ok(ed) => if text_lt(ed, sd) {
                            Err(QueryError::StartAfterEnd)
                        } else {
                            Ok(
                                QueryText {
                                    symbol,
                                    start_date: Some(sd),
                                    end_date: Some(ed),
                                    start_time: None,
                                    end_time: None,
                                },
                            )
                        },
                    },
                },
            },
        },
    }
}

/// `r` is the query or the error that `s` describes.
pub open spec fn result_is(r: Result<TdxKlineQuery, QueryError>, s: Result<QueryText, QueryError>) -> bool {
    match r {
        Ok(q) => s == Ok::<QueryText, QueryError>(query_text(q)),
        Err(e) => s == Err::<QueryText, QueryError>(e),
    }
}

/// Checks a daily K-line query: a valid symbol, both dates present and
/// valid, start not after end; the result holds compact dates and no times.
pub fn normalize_daily_query(query: TdxKlineQuery) -> (r: Result<TdxKlineQuery, QueryError>)
    ensures
        result_is(r, daily_query_result(query_text(query))),
{
    let symbol = match normalize_symbol(query.symbol.as_str()) {
        Ok(s) => s,
        Err(e) => return Err(QueryError::Symbol(e)),
    };
    let start_input = match &query.start_date {
        Some(s) => s,
        None => return Err(QueryError::MissingStartDate),
    };
    let end_input = match &query.end_date {
        Some(s) => s,
        None => return Err(QueryError::MissingEndDate),
    };
    let start_date = match normalize_compact_date(start_input.as_str()) {
        Ok(s) => s,
        Err(e) => return Err(QueryError::Date(e)),
    };
    let end_date = match normalize_compact_date(end_input.as_str()) {
        Ok(s) => s,
        Err(e) => return Err(QueryError::Date(e)),
    };
    let sv = chars_of(start_date.as_str());
    let ev = chars_of(end_date.as_str());
    if vec_lt(&ev, &sv) {
        return Err(QueryError::StartAfterEnd);
    }
    let out = TdxKlineQuery {
        symbol,
        start_date: Some(start_date),
        end_date: Some(end_date),
        start_time: None,
        end_time: None,
    };
    assert(query_text(out) == QueryText {
        symbol: out.symbol@,
        start_date: Some(out.start_date.unwrap()@),
        end_date: Some(out.end_date.unwrap()@),
        start_time: None,
        end_time: None,
    });
    Ok(out)
}

/// The first eight bytes of a compact date-time, as text.
pub open spec fn date_part(dt: Seq<char>) -> Seq<char> {
    decode_utf8(encode_utf8(dt).subrange(0, 8))
}

/// Slicing the first eight bytes of a normalised time is possible: the
/// original code slices `dt[..8]`, which panics otherwise.
pub open spec fn time_sliceable(t: Option<Seq<char>>) -> bool {
    match t {
        Some(v) => match compact_datetime_result(v) {
            Ok(dt) => encode_utf8(dt).len() >= 8 && is_char_boundary(encode_utf8(dt), 8),
            Err(_) => true,
        },
        None => true,
    }
}

/// One bound of a minute query: from the time when given, else from the
/// date with the default clock time appended.
pub open spec fn minute_bound(
    time: Option<Seq<char>>,
    date: Option<Seq<char>>,
    clock: Seq<char>,
    missing: QueryError,
) -> Result<(Seq<char>, Seq<char>), QueryError> {
    match time {
        Some(v) => match compact_datetime_result(v) {
            Err(e) => Err(QueryError::Date(e)),
            Ok(dt) => Ok((date_part(dt), dt)),
        },
        None => match date {
            None => Err(missing),
            Some(d) => match compact_date_result(d) {
                Err(e) => Err(QueryError::Date(e)),
                Ok(c) => Ok((c, c + clock)),
            },
        },
    }
}

/// What `normalize_minute_query` returns.
pub open spec fn minute_query_result(q: QueryText) -> Result<QueryText, QueryError> {
    match normalize_symbol_spec(q.symbol) {
        Err(e) => Err(QueryError::Symbol(e)),
        Ok(symbol) => match minute_bound(q.start_time, q.start_date, "093000"@, QueryError::MissingStart) {
            Err(e) => Err(e),
            Ok(start) => match minute_bound(q.end_time, q.end_date, "150000"@, QueryError::MissingEnd) {
                Err(e) => Err(e),
                Ok(end) => if text_lt(end.1, start.1) {
                    Err(QueryError::StartTimeAfterEndTime)
                } else {
                    Ok(
                        QueryText {
                            symbol,
                            start_date: Some(start.0),
                            end_date: Some(end.0),
                            start_time: Some(start.1),
                            end_time: Some(end.1),
                        },
                    )
                },
            },
        },
    }
}

fn bound(time: &Option<String>, date: &Option<String>, clock: &str, missing: QueryError) -> (r: Result<
    (String, String),
    QueryError,
>)
    requires
        time_sliceable(opt_view(*time)),
    ensures
        match r {
            Ok(p) => minute_bound(opt_view(*time), opt_view(*date), clock@, missing) == Ok::<
                (Seq<char>, Seq<char>),
                QueryError,
            >((p.0@, p.1@)),
            Err(e) => minute_bound(opt_view(*time), opt_view(*date), clock@, missing) == Err::<
                (Seq<char>, Seq<char>),
                QueryError,
            >(e),
        },
{
    match time {
        Some(v) => {
            let dt = match normalize_compact_datetime(v.as_str()) {
                Ok(d) => d,
                Err(e) => return Err(QueryError::Date(e)),
            };
            let text = dt.as_str();
            proof {
                assert(text.spec_bytes() == encode_utf8(dt@));
            }
            let (head, _) = text.split_at(8);
            let day = String::from_str(head);
            proof {
                encode_utf8_decode_utf8(head@);
                assert(head.spec_bytes() =~= encode_utf8(dt@).subrange(0, 8));
            }
            Ok((day, dt))
        },
        None => {
            let d = match date {
                Some(d) => d,
                None => return Err(missing),
            };
            let c = match normalize_compact_date(d.as_str()) {
                Ok(c) => c,
                Err(e) => return Err(QueryError::Date(e)),
            };
            let mut t = c.clone();
            t.append(clock);
            Ok((c, t))
        },
    }
}

/// Checks a minute K-line query: a valid symbol and, for each end, a
/// valid time, or else a valid date with 09:30:00 (start) or 15:00:00 (end)
/// appended; start not after end.
pub fn normalize_minute_query(query: TdxKlineQuery) -> (r: Result<TdxKlineQuery, QueryError>)
    requires
        time_sliceable(opt_view(query.start_time)),
        time_sliceable(opt_view(query.end_time)),
    ensures
        result_is(r, minute_query_result(query_text(query))),
{
    let symbol = match normalize_symbol(query.symbol.as_str()) {
        Ok(s) => s,
        Err(e) => return Err(QueryError::Symbol(e)),
    };
    let (start_date, start_time) = match bound(
        &query.start_time,
        &query.start_date,
        "093000",
        QueryError::MissingStart,
    ) {
        Ok(p) => p,
        Err(e) => return Err(e),
    };
    let (end_date, end_time) = match bound(
        &query.end_time,
        &query.end_date,
        "150000",
        QueryError::MissingEnd,
    ) {
        Ok(p) => p,
        Err(e) => return Err(e),
    };
    let sv = chars_of(start_time.as_str());
    let ev = chars_of(end_time.as_str());
    if vec_lt(&ev, &sv) {
        return Err(QueryError::StartTimeAfterEndTime);
    }
    let out = TdxKlineQuery {
        symbol,
        start_date: Some(start_date),
        end_date: Some(end_date),
        start_time: Some(start_time),
        end_time: Some(end_time),
    };
    assert(query_text(out) == QueryText {
        symbol: out.symbol@,
        start_date: Some(out.start_date.unwrap()@),
        end_date: Some(out.end_date.unwrap()@),
        start_time: Some(out.start_time.unwrap()@),
        end_time: Some(out.end_time.unwrap()@),
    });
    Ok(out)
}

fn sliceable_time(time: &Option<String>) -> (r: bool)
    ensures
        r == time_sliceable(opt_view(*time)),
{
    match time {
        Some(v) => match normalize_compact_datetime(v.as_str()) {
            Ok(dt) => {
                let text = dt.as_str();
                proof {
                    assert(text.spec_bytes() == encode_utf8(dt@));
                }
                let n = text.as_bytes().len();
                n >= 8 && text.is_char_boundary(8)
            },
            Err(_) => true,
        },
        None => true,
    }
}

/// `normalize_minute_query` on every query: `None` for a time whose first
/// eight bytes do not end on a character boundary, where slicing them
/// would panic.
pub fn normalize_minute_query_checked(query: TdxKlineQuery) -> (r: Option<
    Result<TdxKlineQuery, QueryError>,
>)
    ensures
        (time_sliceable(opt_view(query.start_time)) && time_sliceable(opt_view(query.end_time)))
            <==> r is Some,
        r matches Some(x) ==> result_is(x, minute_query_result(query_text(query))),
{
    if sliceable_time(&query.start_time) && sliceable_time(&query.end_time) {
        Some(normalize_minute_query(query))
    } else {
        None
    }
}


/// A query text with other dates in place of its own.
pub open spec fn with_dates(q: QueryText, start_date: Option<Seq<char>>, end_date: Option<Seq<char>>) -> QueryText {
    QueryText {
        symbol: q.symbol,
        start_date,
        end_date,
        start_time: q.start_time,
        end_time: q.end_time,
    }
}

/// In a minute query a given time takes precedence over a date: when a
/// start (end) time is present, the start (end) date plays no part in the
/// answer, and when the time is valid the normalised start (end) is that
/// time in compact form, with its day as the date. Only when no time is
/// given does the date count, with 09:30:00 (start) or 15:00:00 (end)
/// appended.
pub proof fn law_minute_time_over_date(q: QueryText, start_date: Option<Seq<char>>, end_date: Option<Seq<char>>)
    ensures
        q.start_time is Some ==> minute_query_result(q) == minute_query_result(
            with_dates(q, start_date, q.end_date),
        ),
        q.end_time is Some ==> minute_query_result(q) == minute_query_result(
            with_dates(q, q.start_date, end_date),
        ),
        q.start_time matches Some(v) ==> (compact_datetime_result(v) matches Ok(dt) ==> (
        minute_query_result(q) matches Ok(r) ==> r.start_time == Some(dt) && r.start_date == Some(
            date_part(dt),
        ))),
        q.end_time matches Some(v) ==> (compact_datetime_result(v) matches Ok(dt) ==> (
        minute_query_result(q) matches Ok(r) ==> r.end_time == Some(dt) && r.end_date == Some(
            date_part(dt),
        ))),
        q.start_time is None ==> (q.start_date matches Some(d) ==> (compact_date_result(d) matches Ok(
            c,
        ) ==> (minute_query_result(q) matches Ok(r) ==> r.start_time == Some(c + "093000"@)
            && r.start_date == Some(c)))),
        q.end_time is None ==> (q.end_date matches Some(d) ==> (compact_date_result(d) matches Ok(c)
            ==> (minute_query_result(q) matches Ok(r) ==> r.end_time == Some(c + "150000"@)
            && r.end_date == Some(c)))),
{
}

} // verus!
