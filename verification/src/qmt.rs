//! Request parameters of the QMT market-data gateway and its status replies.
use vstd::prelude::*;
use crate::text::{
    chars_of, decimal_int, decimal_i64, eq_str, extend_chars, extend_str, lower_seq, lower_vec,
    string_of, trim, trim_vec,
};

verus! {

/// Bar periods the gateway serves.
#[derive(Debug, Clone, Copy, PartialEq, Eq, Structural)]
pub enum QuotePeriod {
    Tick,
    QuotePeriod1m,
    QuotePeriod5m,
    QuotePeriod15m,
    QuotePeriod30m,
    QuotePeriod1h,
    QuotePeriod1d,
    QuotePeriod1w,
    QuotePeriod1mon,
    QuotePeriod1q,
    QuotePeriod1hy,
    QuotePeriod1y,
}

/// Price adjustments the gateway applies.
#[derive(Debug, Clone, Copy, PartialEq, Eq, Structural)]
pub enum AdjustType {
    /// Raw prices (the gateway's `None`).
    Unadjusted,
    Front,
    Back,
    FrontRatio,
    BackRatio,
}

/// The period a request names, read case-insensitively after trimming.
pub open spec fn quote_period_of(p: Seq<char>) -> Option<QuotePeriod> {
    if p == "tick"@ {
        Some(QuotePeriod::Tick)
    } else if p == "1m"@ {
        Some(QuotePeriod::QuotePeriod1m)
    } else if p == "5m"@ {
        Some(QuotePeriod::QuotePeriod5m)
    } else if p == "15m"@ {
        Some(QuotePeriod::QuotePeriod15m)
    } else if p == "30m"@ {
        Some(QuotePeriod::QuotePeriod30m)
    } else if p == "1h"@ {
        Some(QuotePeriod::QuotePeriod1h)
    } else if p == "1d"@ {
        Some(QuotePeriod::QuotePeriod1d)
    } else if p == "1w"@ {
        Some(QuotePeriod::QuotePeriod1w)
    } else if p == "1mon"@ || p == "1mo"@ {
        Some(QuotePeriod::QuotePeriod1mon)
    } else if p == "1q"@ {
        Some(QuotePeriod::QuotePeriod1q)
    } else if p == "1hy"@ {
        Some(QuotePeriod::QuotePeriod1hy)
    } else if p == "1y"@ {
        Some(QuotePeriod::QuotePeriod1y)
    } else {
        None
    }
}

/// The adjustment a request names, read case-insensitively after trimming.
pub open spec fn adjust_type_of(a: Seq<char>) -> Option<AdjustType> {
    if a.len() == 0 || a == "none"@ {
        Some(AdjustType::Unadjusted)
    } else if a == "front"@ || a == "qfq"@ {
        Some(AdjustType::Front)
    } else if a == "back"@ || a == "hfq"@ {
        Some(AdjustType::Back)
    } else if a == "front_ratio"@ {
        Some(AdjustType::FrontRatio)
    } else if a == "back_ratio"@ {
        Some(AdjustType::BackRatio)
    } else {
        None
    }
}

/// Maps a period name to the gateway's period; the error holds the
/// unsupported name as read.
pub fn map_quote_period(period: &str) -> (r: Result<QuotePeriod, String>)
    ensures
        match r {
            Ok(p) => quote_period_of(lower_seq(trim(period@))) == Some(p),
            Err(other) => quote_period_of(lower_seq(trim(period@))) is None && other@ == lower_seq(
                trim(period@),
            ),
        },
{
    let v = chars_of(period);
    let t = trim_vec(&v);
    let p = lower_vec(&t);
    if eq_str(&p, "tick") {
        Ok(QuotePeriod::Tick)
    } else if eq_str(&p, "1m") {
        Ok(QuotePeriod::QuotePeriod1m)
    } else if eq_str(&p, "5m") {
        Ok(QuotePeriod::QuotePeriod5m)
    } else if eq_str(&p, "15m") {
        Ok(QuotePeriod::QuotePeriod15m)
    } else if eq_str(&p, "30m") {
        Ok(QuotePeriod::QuotePeriod30m)
    } else if eq_str(&p, "1h") {
        Ok(QuotePeriod::QuotePeriod1h)
    } else if eq_str(&p, "1d") {
        Ok(QuotePeriod::QuotePeriod1d)
    } else if eq_str(&p, "1w") {
        Ok(QuotePeriod::QuotePeriod1w)
    } else if eq_str(&p, "1mon") || eq_str(&p, "1mo") {
        Ok(QuotePeriod::QuotePeriod1mon)
    } else if eq_str(&p, "1q") {
        Ok(QuotePeriod::QuotePeriod1q)
    } else if eq_str(&p, "1hy") {
        Ok(QuotePeriod::QuotePeriod1hy)
    } else if eq_str(&p, "1y") {
        Ok(QuotePeriod::QuotePeriod1y)
    } else {
        Err(string_of(&p))
    }
}

/// Maps an adjustment name to the gateway's adjustment; the error holds the
/// unsupported name as read.
pub fn map_adjust_type(adjust_type: &str) -> (r: Result<AdjustType, String>)
    ensures
        match r {
            Ok(a) => adjust_type_of(lower_seq(trim(adjust_type@))) == Some(a),
            Err(other) => adjust_type_of(lower_seq(trim(adjust_type@))) is None && other@
                == lower_seq(trim(adjust_type@)),
        },
{
    let v = chars_of(adjust_type);
    let t = trim_vec(&v);
    let a = lower_vec(&t);
    if a.len() == 0 || eq_str(&a, "none") {
        Ok(AdjustType::Unadjusted)
    } else if eq_str(&a, "front") || eq_str(&a, "qfq") {
        Ok(AdjustType::Front)
    } else if eq_str(&a, "back") || eq_str(&a, "hfq") {
        Ok(AdjustType::Back)
    } else if eq_str(&a, "front_ratio") {
        Ok(AdjustType::FrontRatio)
    } else if eq_str(&a, "back_ratio") {
        Ok(AdjustType::BackRatio)
    } else {
        Err(string_of(&a))
    }
}

/// The status part of a gateway reply.
#[derive(Debug, Clone)]
pub struct QmtStatus {
    pub code: i32,
    pub message: String,
}

/// `<action> failed: code=<code>, message=<message>`.
pub open spec fn status_error(action: Seq<char>, code: i32, message: Seq<char>) -> Seq<char> {
    action + " failed: code="@ + decimal_int(code as int) + ", message="@ + message
}

/// Accepts a reply without status or with code 0; otherwise the error text
/// names the action, the code and the message.
pub fn ensure_status_ok(status: Option<&QmtStatus>, action: &str) -> (r: Result<(), String>)
    ensures
        match status {
            None => r is Ok,
            Some(s) => if s.code == 0 {
                r is Ok
            } else {
                r matches Err(e) && e@ == status_error(action@, s.code, s.message@)
            },
        },
{
    match status {
        None => Ok(()),
        Some(s) => {
            if s.code == 0 {
                Ok(())
            } else {
                let mut v = chars_of(action);
                extend_str(&mut v, " failed: code=");
                let d = decimal_i64(s.code as i64);
                extend_chars(&mut v, &d);
                extend_str(&mut v, ", message=");
                let m = chars_of(s.message.as_str());
                extend_chars(&mut v, &m);
                Err(string_of(&v))
            }
        },
    }
}


/// Each period name the gateway knows maps to the period of that name;
/// only `1mon` and `1mo` share one, and no other text names a period.
pub proof fn law_quote_period_names(a: Seq<char>, b: Seq<char>)
    ensures
        quote_period_of("tick"@) == Some(QuotePeriod::Tick),
        quote_period_of("1m"@) == Some(QuotePeriod::QuotePeriod1m),
        quote_period_of("5m"@) == Some(QuotePeriod::QuotePeriod5m),
        quote_period_of("15m"@) == Some(QuotePeriod::QuotePeriod15m),
        quote_period_of("30m"@) == Some(QuotePeriod::QuotePeriod30m),
        quote_period_of("1h"@) == Some(QuotePeriod::QuotePeriod1h),
        quote_period_of("1d"@) == Some(QuotePeriod::QuotePeriod1d),
        quote_period_of("1w"@) == Some(QuotePeriod::QuotePeriod1w),
        quote_period_of("1mon"@) == Some(QuotePeriod::QuotePeriod1mon),
        quote_period_of("1mo"@) == Some(QuotePeriod::QuotePeriod1mon),
        quote_period_of("1q"@) == Some(QuotePeriod::QuotePeriod1q),
        quote_period_of("1hy"@) == Some(QuotePeriod::QuotePeriod1hy),
        quote_period_of("1y"@) == Some(QuotePeriod::QuotePeriod1y),
        quote_period_of(a) is Some ==> (a == "tick"@ || a == "1m"@ || a == "5m"@ || a == "15m"@ || a == "30m"@ || a == "1h"@ || a == "1d"@ || a == "1w"@ || a == "1mon"@ || a == "1mo"@ || a == "1q"@ || a == "1hy"@ || a == "1y"@),
        quote_period_of(a) is Some && quote_period_of(a) == quote_period_of(b) ==> a == b || ((a
            == "1mon"@ || a == "1mo"@) && (b == "1mon"@ || b == "1mo"@)),
{
    reveal_strlit("tick");
    assert("tick"@ =~= seq!['t', 'i', 'c', 'k']);
    reveal_strlit("1m");
    assert("1m"@ =~= seq!['1', 'm']);
    reveal_strlit("5m");
    assert("5m"@ =~= seq!['5', 'm']);
    reveal_strlit("15m");
    assert("15m"@ =~= seq!['1', '5', 'm']);
    reveal_strlit("30m");
    assert("30m"@ =~= seq!['3', '0', 'm']);
    reveal_strlit("1h");
    assert("1h"@ =~= seq!['1', 'h']);
    reveal_strlit("1d");
    assert("1d"@ =~= seq!['1', 'd']);
    reveal_strlit("1w");
    assert("1w"@ =~= seq!['1', 'w']);
    reveal_strlit("1mon");
    assert("1mon"@ =~= seq!['1', 'm', 'o', 'n']);
    reveal_strlit("1mo");
    assert("1mo"@ =~= seq!['1', 'm', 'o']);
    reveal_strlit("1q");
    assert("1q"@ =~= seq!['1', 'q']);
    reveal_strlit("1hy");
    assert("1hy"@ =~= seq!['1', 'h', 'y']);
    reveal_strlit("1y");
    assert("1y"@ =~= seq!['1', 'y']);
}

/// Each adjustment name maps to the adjustment of that name (`qfq` and
/// `hfq` being the Chinese abbreviations of front and back, and the empty
/// text meaning none); nothing else names an adjustment.
pub proof fn law_adjust_type_names(a: Seq<char>, b: Seq<char>)
    ensures
        adjust_type_of(""@) == Some(AdjustType::Unadjusted),
        adjust_type_of("none"@) == Some(AdjustType::Unadjusted),
        adjust_type_of("front"@) == Some(AdjustType::Front),
        adjust_type_of("qfq"@) == Some(AdjustType::Front),
        adjust_type_of("back"@) == Some(AdjustType::Back),
        adjust_type_of("hfq"@) == Some(AdjustType::Back),
        adjust_type_of("front_ratio"@) == Some(AdjustType::FrontRatio),
        adjust_type_of("back_ratio"@) == Some(AdjustType::BackRatio),
        adjust_type_of(a) is Some ==> (a.len() == 0 || a == "none"@ || a == "front"@ || a == "qfq"@ || a == "back"@ || a == "hfq"@ || a == "front_ratio"@ || a == "back_ratio"@),
        adjust_type_of(a) is Some && adjust_type_of(a) == adjust_type_of(b) && adjust_type_of(a) != Some(
            AdjustType::Unadjusted,
        ) && adjust_type_of(a) != Some(AdjustType::Front) && adjust_type_of(a) != Some(AdjustType::Back)
            ==> a == b,
{
    reveal_strlit("");
    assert(""@ =~= Seq::<char>::empty());
    reveal_strlit("none");
    assert("none"@ =~= seq!['n', 'o', 'n', 'e']);
    reveal_strlit("front");
    assert("front"@ =~= seq!['f', 'r', 'o', 'n', 't']);
    reveal_strlit("qfq");
    assert("qfq"@ =~= seq!['q', 'f', 'q']);
    reveal_strlit("back");
    assert("back"@ =~= seq!['b', 'a', 'c', 'k']);
    reveal_strlit("hfq");
    assert("hfq"@ =~= seq!['h', 'f', 'q']);
    reveal_strlit("front_ratio");
    assert("front_ratio"@ =~= seq!['f', 'r', 'o', 'n', 't', '_', 'r', 'a', 't', 'i', 'o']);
    reveal_strlit("back_ratio");
    assert("back_ratio"@ =~= seq!['b', 'a', 'c', 'k', '_', 'r', 'a', 't', 'i', 'o']);
}

} // verus!
