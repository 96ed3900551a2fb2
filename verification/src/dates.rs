//! Calendar dates: compact `YYYYMMDD` text, monthly windows and the
//! chrono calls that validate and print dates.
use chrono::Datelike;
use chrono::Timelike;
use chrono::NaiveDate;
use chrono::NaiveDateTime;
use vstd::prelude::*;
use vstd::utf8::encode_utf8;
use crate::text::{
    all_digits, chars_of, digit_char, slice_of, string_of, trim, trim_vec,
    vec_all_digits,
};

verus! {

/// First year that `chrono::NaiveDate` represents.
pub const MIN_YEAR: i32 = -262143;

/// Last year that `chrono::NaiveDate` represents.
pub const MAX_YEAR: i32 = 262142;

/// A proleptic Gregorian calendar date.
#[derive(Debug, Clone, Copy, PartialEq, Eq, Structural)]
pub struct Ymd {
    pub year: i32,
    pub month: u32,
    pub day: u32,
}

pub open spec fn is_leap(y: int) -> bool {
    (y % 4 == 0 && y % 100 != 0) || y % 400 == 0
}

pub open spec fn days_in_month(y: int, m: int) -> int {
    if m == 2 {
        if is_leap(y) {
            29
        } else {
            28
        }
    } else if m == 4 || m == 6 || m == 9 || m == 11 {
        30
    } else {
        31
    }
}

/// A day that exists in the calendar and in chrono's range.
pub open spec fn valid_ymd(y: int, m: int, d: int) -> bool {
    MIN_YEAR <= y <= MAX_YEAR && 1 <= m <= 12 && 1 <= d <= days_in_month(y, m)
}

pub open spec fn valid_date(d: Ymd) -> bool {
    valid_ymd(d.year as int, d.month as int, d.day as int)
}

pub open spec fn date_le(a: Ymd, b: Ymd) -> bool {
    a.year < b.year || (a.year == b.year && (a.month < b.month || (a.month == b.month && a.day
        <= b.day)))
}

/// The calendar day before `d`; `None` before chrono's first day.
pub open spec fn prev_date(d: Ymd) -> Option<Ymd> {
    if d.day > 1 {
        Some(Ymd { year: d.year, month: d.month, day: (d.day - 1) as u32 })
    } else if d.month > 1 {
        Some(
            Ymd {
                year: d.year,
                month: (d.month - 1) as u32,
                day: days_in_month(d.year as int, d.month - 1) as u32,
            },
        )
    } else if d.year > MIN_YEAR {
        Some(Ymd { year: (d.year - 1) as i32, month: 12, day: 31 })
    } else {
        None
    }
}

/// The calendar day after `d`; `None` after chrono's last day.
pub open spec fn next_date(d: Ymd) -> Option<Ymd> {
    if (d.day as int) < days_in_month(d.year as int, d.month as int) {
        Some(Ymd { year: d.year, month: d.month, day: (d.day + 1) as u32 })
    } else if d.month < 12 {
        Some(Ymd { year: d.year, month: (d.month + 1) as u32, day: 1 })
    } else if d.year < MAX_YEAR {
        Some(Ymd { year: (d.year + 1) as i32, month: 1, day: 1 })
    } else {
        None
    }
}

/// What `NaiveDate::parse_from_str(input, format)` yields, as year, month and day.
pub uninterp spec fn parsed_date(input: Seq<char>, format: Seq<char>) -> Option<(i32, u32, u32)>;

/// What `NaiveDate::format(format)` prints for a date.
pub uninterp spec fn formatted_date(year: i32, month: u32, day: u32, format: Seq<char>) -> Seq<char>;

/// A number below 10000 written with four digits.
pub open spec fn pad4(n: int) -> Seq<char> {
    seq![
        digit_char((n / 1000) as nat),
        digit_char((n / 100) as nat),
        digit_char((n / 10) as nat),
        digit_char(n as nat),
    ]
}

/// A number below 100 written with two digits.
pub open spec fn pad2(n: int) -> Seq<char> {
    seq![digit_char((n / 10) as nat), digit_char(n as nat)]
}

/// `YYYYMMDD` for a date of the years 0 to 9999.
pub open spec fn plain_compact(d: Ymd) -> Seq<char> {
    pad4(d.year as int) + pad2(d.month as int) + pad2(d.day as int)
}

/// The text that chrono prints for `d` with `%Y%m%d`.
pub open spec fn compact_text(d: Ymd) -> Seq<char> {
    formatted_date(d.year, d.month, d.day, "%Y%m%d"@)
}

/// `NaiveDate::from_ymd_opt`: the date when it exists in the calendar and in
/// chrono's range of years, as its documentation says.
#[verifier::external_body]
pub(crate) fn date_from_ymd(year: i32, month: u32, day: u32) -> (r: Option<Ymd>)
    ensures
        r is Some <==> valid_ymd(year as int, month as int, day as int),
        r matches Some(d) ==> d == (Ymd { year, month, day }),
{
    match NaiveDate::from_ymd_opt(year, month, day) {
        Some(d) => Some(Ymd { year: d.year(), month: d.month(), day: d.day() }),
        None => None,
    }
}

/// `NaiveDate::pred_opt`: the previous calendar day, `None` on chrono's first day.
#[verifier::external_body]
pub(crate) fn date_pred(d: Ymd) -> (r: Option<Ymd>)
    requires
        valid_date(d),
    ensures
        r == prev_date(d),
{
    match NaiveDate::from_ymd_opt(d.year, d.month, d.day).unwrap().pred_opt() {
        Some(p) => Some(Ymd { year: p.year(), month: p.month(), day: p.day() }),
        None => None,
    }
}

/// `NaiveDate::succ_opt`: the next calendar day, `None` on chrono's last day.
#[verifier::external_body]
pub(crate) fn date_succ(d: Ymd) -> (r: Option<Ymd>)
    requires
        valid_date(d),
    ensures
        r == next_date(d),
{
    match NaiveDate::from_ymd_opt(d.year, d.month, d.day).unwrap().succ_opt() {
        Some(p) => Some(Ymd { year: p.year(), month: p.month(), day: p.day() }),
        None => None,
    }
}

/// `NaiveDate::parse_from_str`: the parsed date, which chrono only returns
/// for a day that exists.
#[verifier::external_body]
pub(crate) fn parse_date(input: &str, format: &str) -> (r: Option<Ymd>)
    ensures
        match r {
            Some(d) => parsed_date(input@, format@) == Some((d.year, d.month, d.day)) && valid_date(
                d,
            ),
            None => parsed_date(input@, format@) is None,
        },
{
    match NaiveDate::parse_from_str(input, format) {
        Ok(d) => Some(Ymd { year: d.year(), month: d.month(), day: d.day() }),
        Err(_) => None,
    }
}

/// The formats this library prints an instant (a date with a time of day)
/// with. chrono's `to_string` panics when a format asks for a field the
/// value lacks; a `DateTime` has every field these three name.
pub open spec fn known_format(f: Seq<char>) -> bool {
    f == "%Y%m%d"@ || f == "%Y-%m-%d"@ || f == "%Y-%m-%d %H:%M:%S"@
}

/// The formats this library prints a bare date with. They name only year,
/// month and day, which a `NaiveDate` has; an hour, minute or second field
/// would make chrono's `to_string` panic, so none is admitted.
pub open spec fn date_only_format(f: Seq<char>) -> bool {
    f == "%Y%m%d"@ || f == "%Y-%m-%d"@
}

/// `NaiveDate::format(format).to_string()`, for a format naming only the
/// date's own fields; with `%Y%m%d` and a year from 0 to 9999 chrono writes
/// four year digits and two each for month and day.
#[verifier::external_body]
pub(crate) fn format_date(d: Ymd, format: &str) -> (r: String)
    requires
        valid_date(d),
        date_only_format(format@),
    ensures
        r@ == formatted_date(d.year, d.month, d.day, format@),
        format@ == "%Y%m%d"@ && 0 <= d.year <= 9999 ==> r@ == plain_compact(d),
{
    NaiveDate::from_ymd_opt(d.year, d.month, d.day).unwrap().format(format).to_string()
}

/// Why a date was refused.
#[derive(Debug, Clone, Copy, PartialEq, Eq, Structural)]
pub enum DateError {
    /// Nothing but whitespace.
    Empty,
    /// Neither `YYYYMMDD` nor `YYYY-MM-DD`.
    InvalidFormat,
    /// Text that chrono does not read as a calendar day.
    InvalidDate,
    /// The start lies after the end.
    StartAfterEnd,
    /// The month after the last one does not exist in chrono's range.
    NextMonthUnavailable,
}

/// `YYYYMMDD` from `YYYYMMDD` or `YYYY-MM-DD`, after trimming.
pub open spec fn compact_date_spec(input: Seq<char>) -> Option<Seq<char>> {
    let s = trim(input);
    if s.len() == 8 && all_digits(s) {
        Some(s)
    } else if s.len() == 10 && s[4] == '-' && s[7] == '-' {
        let out = s.subrange(0, 4) + s.subrange(5, 7) + s.subrange(8, 10);
        if all_digits(out) {
            Some(out)
        } else {
            None
        }
    } else {
        None
    }
}

/// Reads `YYYYMMDD` or `YYYY-MM-DD` (surrounding whitespace allowed) and
/// returns `YYYYMMDD`; the calendar is not consulted.
pub fn compact_date(input: &str) -> (r: Result<String, DateError>)
    ensures
        match r {
            Ok(s) => compact_date_spec(input@) == Some(s@),
            Err(e) => compact_date_spec(input@) is None && e == DateError::InvalidFormat,
        },
{
    let v = chars_of(input);
    let s = trim_vec(&v);
    if s.len() == 8 && vec_all_digits(&s) {
        return Ok(string_of(&s));
    }
    if s.len() == 10 && s[4] == '-' && s[7] == '-' {
        let mut out = slice_of(&s, 0, 4);
        out.push(s[5]);
        out.push(s[6]);
        out.push(s[8]);
        out.push(s[9]);
        assert(out@ =~= s@.subrange(0, 4) + s@.subrange(5, 7) + s@.subrange(8, 10));
        if vec_all_digits(&out) {
            return Ok(string_of(&out));
        }
    }
    Err(DateError::InvalidFormat)
}

/// `YYYY-MM-DD` from `YYYYMMDD` digits.
pub open spec fn dashed(c: Seq<char>) -> Seq<char> {
    c.subrange(0, 4) + seq!['-'] + c.subrange(4, 6) + seq!['-'] + c.subrange(6, 8)
}

/// Reads a date as `compact_date` does and writes it as `YYYY-MM-DD`.
pub fn dashed_date(input: &str) -> (r: Result<String, DateError>)
    ensures
        match r {
            Ok(s) => compact_date_spec(input@) matches Some(c) && s@ == dashed(c),
            Err(e) => compact_date_spec(input@) is None && e == DateError::InvalidFormat,
        },
{
    let c = compact_date(input)?;
    let v = chars_of(c.as_str());
    let mut out = slice_of(&v, 0, 4);
    out.push('-');
    out.push(v[4]);
    out.push(v[5]);
    out.push('-');
    out.push(v[6]);
    out.push(v[7]);
    assert(out@ =~= dashed(v@));
    Ok(string_of(&out))
}


/// Months counted from year 0: `year * 12 + month - 1`.
pub open spec fn month_index(d: Ymd) -> int {
    d.year * 12 + d.month - 1
}

/// The first day of the month with index `mi`.
pub open spec fn first_of_month(mi: int) -> Ymd {
    Ymd { year: (mi / 12) as i32, month: (mi % 12 + 1) as u32, day: 1 }
}

/// The last day of the month with index `mi`.
pub open spec fn last_of_month(mi: int) -> Ymd {
    Ymd {
        year: (mi / 12) as i32,
        month: (mi % 12 + 1) as u32,
        day: days_in_month(mi / 12, mi % 12 + 1) as u32,
    }
}

/// The `k`-th window from `start` to `end`: the part of one calendar month
/// that lies between them.
pub open spec fn window_dates(start: Ymd, end: Ymd, k: int) -> (Ymd, Ymd) {
    let mi = month_index(start) + k;
    let first = if k == 0 {
        start
    } else {
        first_of_month(mi)
    };
    let last = if mi == month_index(end) {
        end
    } else {
        last_of_month(mi)
    };
    (first, last)
}

/// Number of calendar months that `start..=end` touches.
pub open spec fn window_count(start: Ymd, end: Ymd) -> int {
    month_index(end) - month_index(start) + 1
}

/// The windows as `(YYYYMMDD, YYYYMMDD)` text, in order.
pub open spec fn windows_text(start: Ymd, end: Ymd, n: int) -> Seq<(Seq<char>, Seq<char>)> {
    Seq::new(
        n as nat,
        |k: int| (compact_text(window_dates(start, end, k).0), compact_text(window_dates(start, end, k).1)),
    )
}

/// The windows as plain `(YYYYMMDD, YYYYMMDD)` digits, in order: what
/// chrono prints for them when every year lies in 0..=9999.
pub open spec fn plain_windows_text(start: Ymd, end: Ymd, n: int) -> Seq<(Seq<char>, Seq<char>)> {
    Seq::new(
        n as nat,
        |k: int| (plain_compact(window_dates(start, end, k).0), plain_compact(window_dates(start, end, k).1)),
    )
}

/// Both ends of the range lie in the years chrono prints with four plain digits.
pub open spec fn four_digit_years(start: Ymd, end: Ymd) -> bool {
    0 <= start.year && end.year <= 9999
}

/// What `month_windows_between` returns for two valid dates.
pub open spec fn month_windows_result(start: Ymd, end: Ymd) -> Result<
    Seq<(Seq<char>, Seq<char>)>,
    DateError,
> {
    if !date_le(start, end) {
        Err(DateError::StartAfterEnd)
    } else if end.year == MAX_YEAR && end.month == 12 {
        Err(DateError::NextMonthUnavailable)
    } else {
        Ok(windows_text(start, end, window_count(start, end)))
    }
}

pub open spec fn pair_views(v: Seq<(String, String)>) -> Seq<(Seq<char>, Seq<char>)> {
    v.map_values(|p: (String, String)| (p.0@, p.1@))
}

proof fn lemma_month_index_first(mi: int)
    requires
        MIN_YEAR * 12 <= mi <= MAX_YEAR * 12 + 11,
    ensures
        month_index(first_of_month(mi)) == mi,
        valid_date(first_of_month(mi)),
        valid_date(last_of_month(mi)),
        month_index(last_of_month(mi)) == mi,
{
}

proof fn lemma_index_of_month_start(d: Ymd)
    requires
        valid_date(d),
    ensures
        first_of_month(month_index(d)) == (Ymd { year: d.year, month: d.month, day: 1 }),
        last_of_month(month_index(d)).day as int == days_in_month(d.year as int, d.month as int),
        last_of_month(month_index(d)).year == d.year,
        last_of_month(month_index(d)).month == d.month,
{
    let mi = month_index(d);
    assert(mi / 12 == d.year) by {
        assert(mi == d.year * 12 + (d.month - 1));
    }
    assert(mi % 12 == d.month - 1) by {
        assert(mi == d.year * 12 + (d.month - 1));
    }
}

/// The calendar months that `start..=end` touches, each as the first and
/// last day of the month that lie within the range.
pub fn month_windows_between(start: Ymd, end: Ymd) -> (r: Result<Vec<(String, String)>, DateError>)
    requires
        valid_date(start),
        valid_date(end),
    ensures
        match r {
            Ok(v) => month_windows_result(start, end) == Ok::<
                Seq<(Seq<char>, Seq<char>)>,
                DateError,
            >(pair_views(v@)),
            Err(e) => month_windows_result(start, end) == Err::<
                Seq<(Seq<char>, Seq<char>)>,
                DateError,
            >(e),
        },
        four_digit_years(start, end) ==> (r matches Ok(v) ==> pair_views(v@) == plain_windows_text(
            start,
            end,
            window_count(start, end),
        )),
{
    let start_after_end = start.year > end.year || (start.year == end.year && (start.month
        > end.month || (start.month == end.month && start.day > end.day)));
    if start_after_end {
        return Err(DateError::StartAfterEnd);
    }
    let mut out: Vec<(String, String)> = Vec::new();
    let first = date_from_ymd(start.year, start.month, 1);
    proof {
        lemma_index_of_month_start(start);
        lemma_index_of_month_start(end);
    }
    let mut cursor = match first {
        Some(c) => c,
        None => return Err(DateError::InvalidDate),
    };
    let ghost smi = month_index(start);
    let ghost emi = month_index(end);
    while cursor.year < end.year || (cursor.year == end.year && (cursor.month < end.month || (
    cursor.month == end.month && cursor.day <= end.day)))
        invariant
            valid_date(start),
            valid_date(end),
            date_le(start, end),
            smi == month_index(start),
            emi == month_index(end),
            smi <= emi,
            cursor.day == 1,
            valid_date(cursor),
            month_index(cursor) == smi + out@.len(),
            month_index(cursor) <= emi + 1,
            out@.len() == 0 ==> cursor == (Ymd { year: start.year, month: start.month, day: 1 }),
            pair_views(out@) =~= windows_text(start, end, out@.len() as int),
            four_digit_years(start, end) ==> pair_views(out@) =~= plain_windows_text(
                start,
                end,
                out@.len() as int,
            ),
        decreases emi + 1 - month_index(cursor),
    {
        let ghost k = out@.len() as int;
        let ghost mi = month_index(cursor);
        proof {
            lemma_index_of_month_start(cursor);
            assert(mi <= emi);
        }
        let month_start = if out.len() == 0 {
            start
        } else {
            cursor
        };
        let next = if cursor.month == 12 {
            if cursor.year >= MAX_YEAR {
                proof {
                    assert(mi == emi);
                }
                return Err(DateError::NextMonthUnavailable);
            }
            date_from_ymd(cursor.year + 1, 1, 1)
        } else {
            date_from_ymd(cursor.year, cursor.month + 1, 1)
        };
        let next = match next {
            Some(n) => n,
            None => {
                proof {
                    assert(false);
                }
                return Err(DateError::NextMonthUnavailable);
            },
        };
        let last = match date_pred(next) {
            Some(p) => p,
            None => {
                proof {
                    assert(false);
                }
                return Err(DateError::NextMonthUnavailable);
            },
        };
        proof {
            assert(last == last_of_month(mi));
            assert(month_index(next) == mi + 1);
        }
        let month_end = if last.year < end.year || (last.year == end.year && (last.month < end.month
            || (last.month == end.month && last.day <= end.day))) {
            last
        } else {
            end
        };
        proof {
            assert(month_start == window_dates(start, end, k).0);
            assert(month_end == window_dates(start, end, k).1);
            lemma_index_of_month_start(month_start);
        }
        let a = format_date(month_start, "%Y%m%d");
        let b = format_date(month_end, "%Y%m%d");
        let ghost prev = out@;
        let ghost item = (a@, b@);
        out.push((a, b));
        proof {
            assert(pair_views(out@) =~= pair_views(prev).push(item));
            assert(windows_text(start, end, k + 1) =~= windows_text(start, end, k).push(item));
            if four_digit_years(start, end) {
                assert(start.year <= month_start.year <= end.year);
                assert(start.year <= month_end.year <= end.year);
                assert(plain_windows_text(start, end, k + 1) =~= plain_windows_text(start, end, k).push(item));
            }
        }
        cursor = next;
    }
    proof {
        assert(out@.len() == window_count(start, end));
        if end.year == MAX_YEAR && end.month == 12 {
            assert(false);
        }
    }
    Ok(out)
}

/// Splits `start..=end`, both `YYYYMMDD`, into calendar months.
pub fn month_windows(start_compact: &str, end_compact: &str) -> (r: Result<
    Vec<(String, String)>,
    DateError,
>)
    ensures
        match (parsed_date(start_compact@, "%Y%m%d"@), parsed_date(end_compact@, "%Y%m%d"@)) {
            (Some(s), Some(e)) => {
                let sd = Ymd { year: s.0, month: s.1, day: s.2 };
                let ed = Ymd { year: e.0, month: e.1, day: e.2 };
                &&& valid_date(sd)
                &&& valid_date(ed)
                &&& four_digit_years(sd, ed) ==> (r matches Ok(v) ==> pair_views(v@) == plain_windows_text(
                    sd,
                    ed,
                    window_count(sd, ed),
                ))
                &&& match r {
                    Ok(v) => month_windows_result(sd, ed) == Ok::<
                        Seq<(Seq<char>, Seq<char>)>,
                        DateError,
                    >(pair_views(v@)),
                    Err(x) => month_windows_result(sd, ed) == Err::<
                        Seq<(Seq<char>, Seq<char>)>,
                        DateError,
                    >(x),
                }
            },
            _ => r == Err::<Vec<(String, String)>, DateError>(DateError::InvalidDate),
        },
{
    let start = match parse_date(start_compact, "%Y%m%d") {
        Some(d) => d,
        None => return Err(DateError::InvalidDate),
    };
    let end = match parse_date(end_compact, "%Y%m%d") {
        Some(d) => d,
        None => return Err(DateError::InvalidDate),
    };
    month_windows_between(start, end)
}


/// What `NaiveDateTime::parse_from_str(input, format)` yields, as year,
/// month, day, hour, minute and second.
pub uninterp spec fn parsed_datetime(input: Seq<char>, format: Seq<char>) -> Option<(i32, u32, u32, u32, u32, u32)>;

/// `NaiveDateTime::parse_from_str`: the parsed date and time of day;
/// chrono only returns a day that exists.
#[verifier::external_body]
pub(crate) fn parse_datetime(input: &str, format: &str) -> (r: Option<(Ymd, u32, u32, u32)>)
    ensures
        match r {
            Some((d, h, mi, se)) => parsed_datetime(input@, format@) == Some((d.year, d.month, d.day, h, mi, se))
                && valid_date(d),
            None => parsed_datetime(input@, format@) is None,
        },
{
    match NaiveDateTime::parse_from_str(input, format) {
        Ok(t) => Some((Ymd { year: t.year(), month: t.month(), day: t.day() }, t.hour(), t.minute(), t.second())),
        Err(_) => None,
    }
}

/// The characters of `s` other than `-` (`str::replace('-', "")`).
pub open spec fn strip_dashes(s: Seq<char>) -> Seq<char>
    decreases s.len(),
{
    if s.len() == 0 {
        s
    } else if s.last() == '-' {
        strip_dashes(s.drop_last())
    } else {
        strip_dashes(s.drop_last()).push(s.last())
    }
}

/// The characters of `s` other than `-`, `:` and space.
pub open spec fn strip_datetime_marks(s: Seq<char>) -> Seq<char>
    decreases s.len(),
{
    if s.len() == 0 {
        s
    } else if s.last() == '-' || s.last() == ':' || s.last() == ' ' {
        strip_datetime_marks(s.drop_last())
    } else {
        strip_datetime_marks(s.drop_last()).push(s.last())
    }
}

fn strip_vec(v: &Vec<char>, marks: bool) -> (r: Vec<char>)
    ensures
        r@ == if marks {
            strip_datetime_marks(v@)
        } else {
            strip_dashes(v@)
        },
{
    let mut r: Vec<char> = Vec::new();
    let mut i: usize = 0;
    while i < v.len()
        invariant
            i <= v.len(),
            r@ == if marks {
                strip_datetime_marks(v@.subrange(0, i as int))
            } else {
                strip_dashes(v@.subrange(0, i as int))
            },
        decreases v.len() - i,
    {
        assert(v@.subrange(0, i + 1).drop_last() =~= v@.subrange(0, i as int));
        let c = v[i];
        let drop = if marks {
            c == '-' || c == ':' || c == ' '
        } else {
            c == '-'
        };
        if !drop {
            r.push(c);
        }
        i = i + 1;
    }
    assert(v@.subrange(0, v.len() as int) =~= v@);
    r
}

/// The text without its dashes (`str::replace('-', "")`).
pub fn without_dashes(input: &str) -> (r: String)
    ensures
        r@ == strip_dashes(input@),
{
    let v = chars_of(input);
    let s = strip_vec(&v, false);
    string_of(&s)
}

/// The UTF-8 bytes of some characters, with their count (`str::len`).
fn utf8_bytes(v: &Vec<char>) -> (r: Vec<u8>)
    ensures
        r@ == encode_utf8(v@),
{
    let s = string_of(v);
    s.as_str().as_bytes_vec()
}

/// The compact date that `normalize_compact_date` checks: dashes removed
/// from a ten-byte input.
pub open spec fn compact_candidate(t: Seq<char>) -> Seq<char> {
    if encode_utf8(t).len() == 10 {
        strip_dashes(t)
    } else {
        t
    }
}

/// What `normalize_compact_date` returns for an input.
pub open spec fn compact_date_result(input: Seq<char>) -> Result<Seq<char>, DateError> {
    let t = trim(input);
    if t.len() == 0 {
        Err(DateError::Empty)
    } else {
        let c = compact_candidate(t);
        if parsed_date(c, "%Y%m%d"@) is Some {
            Ok(c)
        } else {
            Err(DateError::InvalidDate)
        }
    }
}

/// Reads a query date, `YYYYMMDD` or `YYYY-MM-DD`, and returns `YYYYMMDD`
/// once chrono accepts it as a calendar day.
pub fn normalize_compact_date(input: &str) -> (r: Result<String, DateError>)
    ensures
        match r {
            Ok(s) => compact_date_result(input@) == Ok::<Seq<char>, DateError>(s@),
            Err(e) => compact_date_result(input@) == Err::<Seq<char>, DateError>(e),
        },
{
    let v = chars_of(input);
    let t = trim_vec(&v);
    if t.len() == 0 {
        return Err(DateError::Empty);
    }
    let bytes = utf8_bytes(&t);
    let compact = if bytes.len() == 10 {
        strip_vec(&t, false)
    } else {
        t
    };
    let text = string_of(&compact);
    match parse_date(text.as_str(), "%Y%m%d") {
        Some(_) => Ok(text),
        None => Err(DateError::InvalidDate),
    }
}

/// The compact date-time that `normalize_compact_datetime` checks, when the
/// input has one of the two accepted lengths.
pub open spec fn compact_datetime_candidate(t: Seq<char>) -> Option<Seq<char>> {
    let b = encode_utf8(t);
    if b.len() == 19 && b[4] == 45u8 {
        Some(strip_datetime_marks(t))
    } else if b.len() == 14 {
        Some(t)
    } else {
        None
    }
}

/// What `normalize_compact_datetime` returns for an input.
pub open spec fn compact_datetime_result(input: Seq<char>) -> Result<Seq<char>, DateError> {
    let t = trim(input);
    if t.len() == 0 {
        Err(DateError::Empty)
    } else {
        match compact_datetime_candidate(t) {
            None => Err(DateError::InvalidFormat),
            Some(c) => if parsed_datetime(c, "%Y%m%d%H%M%S"@) is Some {
                Ok(c)
            } else {
                Err(DateError::InvalidDate)
            },
        }
    }
}

/// Reads a query time, `YYYYMMDDHHMMSS` or `YYYY-MM-DD HH:MM:SS`, and
/// returns `YYYYMMDDHHMMSS` once chrono accepts it.
pub fn normalize_compact_datetime(input: &str) -> (r: Result<String, DateError>)
    ensures
        match r {
            Ok(s) => compact_datetime_result(input@) == Ok::<Seq<char>, DateError>(s@),
            Err(e) => compact_datetime_result(input@) == Err::<Seq<char>, DateError>(e),
        },
{
    let v = chars_of(input);
    let t = trim_vec(&v);
    if t.len() == 0 {
        return Err(DateError::Empty);
    }
    let bytes = utf8_bytes(&t);
    let compact = if bytes.len() == 19 && bytes[4] == 45u8 {
        strip_vec(&t, true)
    } else if bytes.len() == 14 {
        t
    } else {
        return Err(DateError::InvalidFormat);
    };
    let text = string_of(&compact);
    if parse_datetime(text.as_str(), "%Y%m%d%H%M%S").is_some() {
        Ok(text)
    } else {
        Err(DateError::InvalidDate)
    }
}

/// A request date: `YYYY-MM-DD`, or failing that `YYYYMMDD`.
pub fn parse_request_date(input: &str) -> (r: Result<Ymd, DateError>)
    ensures
        trim(input@).len() == 0 ==> r == Err::<Ymd, DateError>(DateError::Empty),
        trim(input@).len() > 0 ==> match r {
            Ok(d) => valid_date(d) && (parsed_date(trim(input@), "%Y-%m-%d"@) == Some(
                (d.year, d.month, d.day),
            ) || (parsed_date(trim(input@), "%Y-%m-%d"@) is None && parsed_date(
                trim(input@),
                "%Y%m%d"@,
            ) == Some((d.year, d.month, d.day)))),
            Err(e) => e == DateError::InvalidDate && parsed_date(trim(input@), "%Y-%m-%d"@) is None
                && parsed_date(trim(input@), "%Y%m%d"@) is None,
        },
{
    let v = chars_of(input);
    let t = trim_vec(&v);
    if t.len() == 0 {
        return Err(DateError::Empty);
    }
    let text = string_of(&t);
    match parse_date(text.as_str(), "%Y-%m-%d") {
        Some(d) => Ok(d),
        None => match parse_date(text.as_str(), "%Y%m%d") {
            Some(d) => Ok(d),
            None => Err(DateError::InvalidDate),
        },
    }
}

/// The months `month_windows` splits a range into tile it: the first
/// starts on the start day, the last ends on the end day, each lies within
/// one calendar month and runs forward, and each next one starts the day
/// after the previous one ends.
pub proof fn law_month_windows_tile(start: Ymd, end: Ymd)
    requires
        valid_date(start),
        valid_date(end),
        date_le(start, end),
    ensures
        window_count(start, end) >= 1,
        window_dates(start, end, 0).0 == start,
        window_dates(start, end, window_count(start, end) - 1).1 == end,
        forall|k: int|
            0 <= k < window_count(start, end) ==> {
                let w = #[trigger] window_dates(start, end, k);
                &&& valid_date(w.0)
                &&& valid_date(w.1)
                &&& date_le(w.0, w.1)
                &&& month_index(w.0) == month_index(start) + k
                &&& month_index(w.1) == month_index(start) + k
            },
        forall|k: int|
            0 <= k < window_count(start, end) - 1 ==> next_date(#[trigger] window_dates(start, end, k).1) == Some(
                window_dates(start, end, k + 1).0,
            ),
{
    let ms = month_index(start);
    let me = month_index(end);
    lemma_index_of_month_start(start);
    lemma_index_of_month_start(end);
    assert forall|k: int| 0 <= k < window_count(start, end) implies {
        let w = #[trigger] window_dates(start, end, k);
        &&& valid_date(w.0)
        &&& valid_date(w.1)
        &&& date_le(w.0, w.1)
        &&& month_index(w.0) == month_index(start) + k
        &&& month_index(w.1) == month_index(start) + k
    } by {
        let mi = ms + k;
        lemma_month_index_first(mi);
        if k == 0 {
            assert(month_index(start) == mi);
        }
    }
    assert forall|k: int| 0 <= k < window_count(start, end) - 1 implies next_date(
        #[trigger] window_dates(start, end, k).1,
    ) == Some(window_dates(start, end, k + 1).0) by {
        let mi = ms + k;
        lemma_month_index_first(mi);
        lemma_month_index_first(mi + 1);
        if mi % 12 < 11 {
            assert((mi + 1) / 12 == mi / 12);
            assert((mi + 1) % 12 == mi % 12 + 1);
        } else {
            assert((mi + 1) / 12 == mi / 12 + 1);
            assert((mi + 1) % 12 == 0);
        }
    }
}

/// A date that `compact_date` wrote reads back as itself.
pub proof fn law_compact_date_idempotent(input: Seq<char>, compact: Seq<char>)
    requires
        compact_date_spec(input) == Some(compact),
    ensures
        compact_date_spec(compact) == Some(compact),
{
    assert(compact.len() == 8 && all_digits(compact));
    assert(crate::text::is_digit(compact[0]) && crate::text::is_digit(compact[7]));
    crate::text::lemma_trim_unchanged(compact);
}

} // verus!
