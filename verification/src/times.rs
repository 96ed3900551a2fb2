//! Bar times: the text a bar's millisecond timestamp is shown as, and
//! dates read back from such texts.
use chrono::FixedOffset;
use chrono::TimeZone;
use chrono::Utc;
use vstd::prelude::*;
use crate::dates::{
    format_date, formatted_date, known_format, parse_date, parse_datetime, parsed_date,
    parsed_datetime, DateError,
};
use crate::text::{chars_of, decimal_i64, decimal_int, eq_str, lower_seq, lower_vec, string_of, trim, trim_vec};

verus! {

/// Seconds east of UTC of China Standard Time, in which bar times are shown.
pub const CHINA_OFFSET_SECS: i32 = 28800;

/// What chrono prints for the instant `time_ms` milliseconds after the
/// epoch, at `offset_secs` east of UTC, with `format`; `None` when
/// `Utc.timestamp_millis_opt` has no single answer.
pub uninterp spec fn offset_time_text(time_ms: i64, offset_secs: i32, format: Seq<char>) -> Option<Seq<char>>;

/// `Utc.timestamp_millis_opt(time_ms).single()`, moved to the fixed offset
/// `FixedOffset::east_opt(offset_secs)` and printed with `format`.
#[verifier::external_body]
pub(crate) fn format_millis_at_offset(time_ms: i64, offset_secs: i32, format: &str) -> (r: Option<String>)
    requires
        -86400 < offset_secs < 86400,
        known_format(format@),
    ensures
        match r {
            Some(t) => offset_time_text(time_ms, offset_secs, format@) == Some(t@),
            None => offset_time_text(time_ms, offset_secs, format@) is None,
        },
{
    match Utc.timestamp_millis_opt(time_ms).single() {
        Some(dt) => Some(dt.with_timezone(&FixedOffset::east_opt(offset_secs).unwrap()).format(format).to_string()),
        None => None,
    }
}

/// Periods of a day or longer, whose bars carry a date only.
pub open spec fn daily_period(period: Seq<char>) -> bool {
    let p = lower_seq(trim(period));
    ||| p == "1d"@
    ||| p == "1w"@
    ||| p == "1mon"@
    ||| p == "1mo"@
    ||| p == "1q"@
    ||| p == "1hy"@
    ||| p == "1y"@
}

/// Whether bars of `period` carry a date only.
pub fn is_daily_period(period: &str) -> (r: bool)
    ensures
        r == daily_period(period@),
{
    let v = chars_of(period);
    let t = trim_vec(&v);
    let p = lower_vec(&t);
    eq_str(&p, "1d") || eq_str(&p, "1w") || eq_str(&p, "1mon") || eq_str(&p, "1mo") || eq_str(&p, "1q")
        || eq_str(&p, "1hy") || eq_str(&p, "1y")
}

/// The text of a bar time: China time as `YYYY-MM-DD` for daily and
/// longer periods, `YYYY-MM-DD HH:MM:SS` otherwise; the bare number of
/// milliseconds when chrono cannot place the instant.
pub open spec fn bar_time_text(period: Seq<char>, time_ms: i64) -> Seq<char> {
    let f = if daily_period(period) {
        "%Y-%m-%d"@
    } else {
        "%Y-%m-%d %H:%M:%S"@
    };
    match offset_time_text(time_ms, CHINA_OFFSET_SECS, f) {
        Some(t) => t,
        None => decimal_int(time_ms as int),
    }
}

/// The text a bar of `period` at `time_ms` is stored with.
pub fn format_time_ms(period: &str, time_ms: i64) -> (r: String)
    ensures
        r@ == bar_time_text(period@, time_ms),
{
    let daily = is_daily_period(period);
    let f = if daily {
        "%Y-%m-%d"
    } else {
        "%Y-%m-%d %H:%M:%S"
    };
    match format_millis_at_offset(time_ms, CHINA_OFFSET_SECS, f) {
        Some(t) => t,
        None => {
            let d = decimal_i64(time_ms);
            string_of(&d)
        },
    }
}

/// The `YYYY-MM-DD` date of a `YYYY-MM-DD` or `YYYY-MM-DD HH:MM:SS` text.
pub open spec fn normalized_date_spec(input: Seq<char>) -> Result<Seq<char>, DateError> {
    match parsed_date(input, "%Y-%m-%d"@) {
        Some(t) => Ok(formatted_date(t.0, t.1, t.2, "%Y-%m-%d"@)),
        None => match parsed_datetime(input, "%Y-%m-%d %H:%M:%S"@) {
            Some(t) => Ok(formatted_date(t.0, t.1, t.2, "%Y-%m-%d"@)),
            None => Err(DateError::InvalidDate),
        },
    }
}

/// The date of a bar time, as `YYYY-MM-DD`.
pub fn normalize_date(input: &str) -> (r: Result<String, DateError>)
    ensures
        match r {
            Ok(s) => normalized_date_spec(input@) == Ok::<Seq<char>, DateError>(s@),
            Err(e) => normalized_date_spec(input@) == Err::<Seq<char>, DateError>(e),
        },
{
    match parse_date(input, "%Y-%m-%d") {
        Some(d) => Ok(format_date(d, "%Y-%m-%d")),
        None => match parse_datetime(input, "%Y-%m-%d %H:%M:%S") {
            Some((d, _, _, _)) => Ok(format_date(d, "%Y-%m-%d")),
            None => Err(DateError::InvalidDate),
        },
    }
}

/// Year, month, day, hour and minute of a bar time; the hour and minute
/// of a date alone are zero.
pub open spec fn datetime_parts_spec(input: Seq<char>) -> Result<(u32, u32, u32, u32, u32), DateError> {
    match parsed_date(input, "%Y-%m-%d"@) {
        Some(t) => Ok((t.0 as u32, t.1, t.2, 0u32, 0u32)),
        None => match parsed_datetime(input, "%Y-%m-%d %H:%M:%S"@) {
            Some(t) => Ok((t.0 as u32, t.1, t.2, t.3, t.4)),
            None => Err(DateError::InvalidDate),
        },
    }
}

/// The parts of a bar time.
pub fn parse_datetime_parts(input: &str) -> (r: Result<(u32, u32, u32, u32, u32), DateError>)
    ensures
        r == datetime_parts_spec(input@),
{
    match parse_date(input, "%Y-%m-%d") {
        Some(d) => Ok((d.year as u32, d.month, d.day, 0, 0)),
        None => match parse_datetime(input, "%Y-%m-%d %H:%M:%S") {
            Some((d, h, mi, _)) => Ok((d.year as u32, d.month, d.day, h, mi)),
            None => Err(DateError::InvalidDate),
        },
    }
}


/// Bars of a day or longer (`1d`, `1w`, `1mon`, `1mo`, `1q`, `1hy`, `1y`,
/// in any case and with surrounding blanks) carry China time as a date
/// only, `%Y-%m-%d`; bars of every other period carry date and time,
/// `%Y-%m-%d %H:%M:%S`.
pub proof fn law_bar_time_format(period: Seq<char>, time_ms: i64)
    ensures
        bar_time_text(period, time_ms) == ({
            let p = lower_seq(trim(period));
            let date_only = p == "1d"@ || p == "1w"@ || p == "1mon"@ || p == "1mo"@ || p == "1q"@
                || p == "1hy"@ || p == "1y"@;
            let f = if date_only {
                "%Y-%m-%d"@
            } else {
                "%Y-%m-%d %H:%M:%S"@
            };
            match offset_time_text(time_ms, CHINA_OFFSET_SECS, f) {
                Some(t) => t,
                None => decimal_int(time_ms as int),
            }
        }),
{
}

} // verus!
