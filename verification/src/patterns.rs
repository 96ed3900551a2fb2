//! The pattern detectors the service offers, by identifier.
use vstd::prelude::*;
use crate::dates::{parse_request_date, parsed_date, valid_date, DateError, Ymd};
use crate::order::{sort_strings, sorted_texts, texts};
use crate::scan::effective_history_days;
use crate::text::{chars_of, eq_str, extend_chars, extend_str, string_of, trim, trim_vec};

verus! {

/// The pattern detectors.
#[derive(Debug, Clone, Copy, PartialEq, Eq, Structural)]
pub enum PatternKind {
    BottomTrendInflection,
    ImmortalGuidance,
    LimitUpPullback,
    LimitUpSideways,
    MorningStar,
    MultiGoldenCross,
    MultiPartyCannon,
    ResistanceBreakout,
    Strategy2560Selection,
    StrongWashWeakToStrong,
    TrendAccelerationInflection,
    TrendResonanceReversal,
    TrendStart,
    WBottom,
}

/// The identifier each detector reports.
pub open spec fn id_of(k: PatternKind) -> Seq<char> {
    match k {
        PatternKind::BottomTrendInflection => "bottom_trend_inflection"@,
        PatternKind::ImmortalGuidance => "immortal_guidance"@,
        PatternKind::LimitUpPullback => "limit_up_pullback"@,
        PatternKind::LimitUpSideways => "limit_up_sideways"@,
        PatternKind::MorningStar => "morning_star"@,
        PatternKind::MultiGoldenCross => "multi_golden_cross"@,
        PatternKind::MultiPartyCannon => "multi_party_cannon"@,
        PatternKind::ResistanceBreakout => "resistance_breakout"@,
        PatternKind::Strategy2560Selection => "strategy_2560_selection"@,
        PatternKind::StrongWashWeakToStrong => "strong_wash_weak_to_strong"@,
        PatternKind::TrendAccelerationInflection => "trend_acceleration_inflection"@,
        PatternKind::TrendResonanceReversal => "trend_resonance_reversal"@,
        PatternKind::TrendStart => "trend_start"@,
        PatternKind::WBottom => "w_bottom"@,
    }
}

/// The identifier of a detector.
pub fn pattern_id(k: PatternKind) -> (r: &'static str)
    ensures
        r@ == id_of(k),
{
    match k {
        PatternKind::BottomTrendInflection => "bottom_trend_inflection",
        PatternKind::ImmortalGuidance => "immortal_guidance",
        PatternKind::LimitUpPullback => "limit_up_pullback",
        PatternKind::LimitUpSideways => "limit_up_sideways",
        PatternKind::MorningStar => "morning_star",
        PatternKind::MultiGoldenCross => "multi_golden_cross",
        PatternKind::MultiPartyCannon => "multi_party_cannon",
        PatternKind::ResistanceBreakout => "resistance_breakout",
        PatternKind::Strategy2560Selection => "strategy_2560_selection",
        PatternKind::StrongWashWeakToStrong => "strong_wash_weak_to_strong",
        PatternKind::TrendAccelerationInflection => "trend_acceleration_inflection",
        PatternKind::TrendResonanceReversal => "trend_resonance_reversal",
        PatternKind::TrendStart => "trend_start",
        PatternKind::WBottom => "w_bottom",
    }
}

/// The detectors a full scan runs, in the order they run.
pub open spec fn default_kinds() -> Seq<PatternKind> {
    seq![
        PatternKind::BottomTrendInflection,
        PatternKind::LimitUpPullback,
        PatternKind::LimitUpSideways,
        PatternKind::MorningStar,
        PatternKind::MultiGoldenCross,
        PatternKind::MultiPartyCannon,
        PatternKind::ResistanceBreakout,
        PatternKind::StrongWashWeakToStrong,
        PatternKind::TrendAccelerationInflection,
        PatternKind::TrendResonanceReversal,
        PatternKind::ImmortalGuidance,
        PatternKind::WBottom,
        PatternKind::TrendStart,
        PatternKind::Strategy2560Selection,
    ]
}

/// The detectors a full scan runs, in the order they run.
pub fn default_detector_kinds() -> (r: Vec<PatternKind>)
    ensures
        r@ == default_kinds(),
{
    let r = vec![
        PatternKind::BottomTrendInflection,
        PatternKind::LimitUpPullback,
        PatternKind::LimitUpSideways,
        PatternKind::MorningStar,
        PatternKind::MultiGoldenCross,
        PatternKind::MultiPartyCannon,
        PatternKind::ResistanceBreakout,
        PatternKind::StrongWashWeakToStrong,
        PatternKind::TrendAccelerationInflection,
        PatternKind::TrendResonanceReversal,
        PatternKind::ImmortalGuidance,
        PatternKind::WBottom,
        PatternKind::TrendStart,
        PatternKind::Strategy2560Selection,
    ];
    assert(r@ =~= default_kinds());
    r
}

/// The identifiers of all detectors, sorted.
pub fn available_pattern_ids() -> (r: Vec<String>)
    ensures
        sorted_texts(texts(r@)),
        texts(r@).to_multiset() == default_kinds().map_values(|k: PatternKind| id_of(k)).to_multiset(),
{
    let kinds = default_detector_kinds();
    let mut ids: Vec<String> = Vec::new();
    let mut i: usize = 0;
    while i < kinds.len()
        invariant
            kinds@ == default_kinds(),
            i <= kinds.len(),
            texts(ids@) =~= kinds@.subrange(0, i as int).map_values(|k: PatternKind| id_of(k)),
        decreases kinds.len() - i,
    {
        let ghost prev = ids@;
        let id = String::from_str(pattern_id(kinds[i]));
        ids.push(id);
        proof {
            assert(texts(ids@) =~= texts(prev).push(id_of(kinds@[i as int])));
            assert(kinds@.subrange(0, i + 1).map_values(|k: PatternKind| id_of(k)) =~= kinds@.subrange(
                0,
                i as int,
            ).map_values(|k: PatternKind| id_of(k)).push(id_of(kinds@[i as int])));
        }
        i = i + 1;
    }
    assert(kinds@.subrange(0, kinds.len() as int) =~= kinds@);
    sort_strings(&mut ids);
    ids
}

/// The detector an identifier names, after trimming.
pub open spec fn kind_named(id: Seq<char>) -> Option<PatternKind> {
    let t = trim(id);
    if t == "bottom_trend_inflection"@ {
        Some(PatternKind::BottomTrendInflection)
    } else if t == "immortal_guidance"@ {
        Some(PatternKind::ImmortalGuidance)
    } else if t == "limit_up_pullback"@ {
        Some(PatternKind::LimitUpPullback)
    } else if t == "limit_up_sideways"@ {
        Some(PatternKind::LimitUpSideways)
    } else if t == "morning_star"@ {
        Some(PatternKind::MorningStar)
    } else if t == "multi_golden_cross"@ {
        Some(PatternKind::MultiGoldenCross)
    } else if t == "multi_party_cannon"@ {
        Some(PatternKind::MultiPartyCannon)
    } else if t == "resistance_breakout"@ {
        Some(PatternKind::ResistanceBreakout)
    } else if t == "strategy_2560_selection"@ {
        Some(PatternKind::Strategy2560Selection)
    } else if t == "strong_wash_weak_to_strong"@ {
        Some(PatternKind::StrongWashWeakToStrong)
    } else if t == "trend_acceleration_inflection"@ {
        Some(PatternKind::TrendAccelerationInflection)
    } else if t == "trend_resonance_reversal"@ {
        Some(PatternKind::TrendResonanceReversal)
    } else if t == "trend_start"@ {
        Some(PatternKind::TrendStart)
    } else if t == "w_bottom"@ {
        Some(PatternKind::WBottom)
    } else {
        None
    }
}

/// The detector a request names; `None` for an unknown identifier.
pub fn parse_pattern_id(pattern_id: &str) -> (r: Option<PatternKind>)
    ensures
        r == kind_named(pattern_id@),
{
    let v = chars_of(pattern_id);
    let t = trim_vec(&v);
    if eq_str(&t, "bottom_trend_inflection") {
        Some(PatternKind::BottomTrendInflection)
    } else if eq_str(&t, "immortal_guidance") {
        Some(PatternKind::ImmortalGuidance)
    } else if eq_str(&t, "limit_up_pullback") {
        Some(PatternKind::LimitUpPullback)
    } else if eq_str(&t, "limit_up_sideways") {
        Some(PatternKind::LimitUpSideways)
    } else if eq_str(&t, "morning_star") {
        Some(PatternKind::MorningStar)
    } else if eq_str(&t, "multi_golden_cross") {
        Some(PatternKind::MultiGoldenCross)
    } else if eq_str(&t, "multi_party_cannon") {
        Some(PatternKind::MultiPartyCannon)
    } else if eq_str(&t, "resistance_breakout") {
        Some(PatternKind::ResistanceBreakout)
    } else if eq_str(&t, "strategy_2560_selection") {
        Some(PatternKind::Strategy2560Selection)
    } else if eq_str(&t, "strong_wash_weak_to_strong") {
        Some(PatternKind::StrongWashWeakToStrong)
    } else if eq_str(&t, "trend_acceleration_inflection") {
        Some(PatternKind::TrendAccelerationInflection)
    } else if eq_str(&t, "trend_resonance_reversal") {
        Some(PatternKind::TrendResonanceReversal)
    } else if eq_str(&t, "trend_start") {
        Some(PatternKind::TrendStart)
    } else if eq_str(&t, "w_bottom") {
        Some(PatternKind::WBottom)
    } else {
        None
    }
}

/// A request to check one symbol against one detector.
#[derive(Debug)]
pub struct PatternSingleRequest {
    pub symbol: String,
    pub trade_date: String,
    pub pattern_id: String,
    pub history_days: Option<i64>,
    pub refresh_remote: Option<bool>,
}

/// A request to check one symbol against every detector.
#[derive(Debug)]
pub struct PatternAllRequest {
    pub symbol: String,
    pub trade_date: String,
    pub history_days: Option<i64>,
    pub refresh_remote: Option<bool>,
}

/// A request to scan the market (or the listed symbols) with one detector.
#[derive(Debug)]
pub struct PatternMarketRequest {
    pub pattern_id: String,
    pub trade_date: String,
    pub history_days: Option<i64>,
    pub refresh_remote: Option<bool>,
    pub symbols: Option<Vec<String>>,
}

/// A request to scan the market (or the listed symbols) with every detector.
#[derive(Debug)]
pub struct PatternMarketAllRequest {
    pub trade_date: String,
    pub history_days: Option<i64>,
    pub refresh_remote: Option<bool>,
    pub symbols: Option<Vec<String>>,
}

/// The answer to an accepted market scan.
#[derive(Debug)]
pub struct PatternMarketJobAcceptedResponse {
    pub job_id: String,
    pub status: String,
}

/// The identifiers of all detectors.
#[derive(Debug)]
pub struct PatternListResponse {
    pub pattern_ids: Vec<String>,
}

/// The detector list the API reports.
pub fn list_patterns() -> (r: PatternListResponse)
    ensures
        sorted_texts(texts(r.pattern_ids@)),
        texts(r.pattern_ids@).to_multiset() == default_kinds().map_values(|k: PatternKind| id_of(k)).to_multiset(),
{
    PatternListResponse { pattern_ids: available_pattern_ids() }
}

/// Answer to a market scan that was queued as job `job_id`.
pub fn accepted_response(job_id: String) -> (r: PatternMarketJobAcceptedResponse)
    ensures
        r.job_id == job_id,
        r.status@ == "queued"@,
{
    let status = crate::jobs::market_scan_job_status_label(crate::jobs::MarketScanJobStatus::Queued);
    PatternMarketJobAcceptedResponse { job_id, status: String::from_str(status) }
}

/// Why a pattern request was refused.
#[derive(Debug, Clone, Copy, PartialEq, Eq, Structural)]
pub enum PatternRequestError {
    /// The trade date is blank or not a date.
    TradeDate(DateError),
    /// No detector has the requested identifier.
    UnknownPattern,
}

/// What a synchronous check scans.
#[derive(Debug)]
pub struct ScanPlan {
    pub symbols: Vec<String>,
    pub kinds: Vec<PatternKind>,
    pub trade_date: Ymd,
    pub history_days: i64,
    pub refresh_remote: bool,
}

/// The trade date a request gives, as `parse_request_date` reads it.
pub open spec fn request_date_ok(input: Seq<char>, d: Ymd) -> bool {
    &&& trim(input).len() > 0
    &&& valid_date(d)
    &&& (parsed_date(trim(input), "%Y-%m-%d"@) == Some((d.year, d.month, d.day)) || (parsed_date(
        trim(input),
        "%Y-%m-%d"@,
    ) is None && parsed_date(trim(input), "%Y%m%d"@) == Some((d.year, d.month, d.day))))
}

/// Why `parse_request_date` refuses a trade date.
pub open spec fn request_date_error(input: Seq<char>) -> DateError {
    if trim(input).len() == 0 {
        DateError::Empty
    } else {
        DateError::InvalidDate
    }
}

/// Whether `parse_request_date` accepts the text.
pub open spec fn request_date_accepted(input: Seq<char>) -> bool {
    trim(input).len() > 0 && (parsed_date(trim(input), "%Y-%m-%d"@) is Some || parsed_date(
        trim(input),
        "%Y%m%d"@,
    ) is Some)
}

pub open spec fn history_of(history_days: Option<i64>) -> i64 {
    match history_days {
        Some(d) => if d < 30 {
            30
        } else {
            d
        },
        None => 365,
    }
}

pub open spec fn refresh_of(refresh_remote: Option<bool>) -> bool {
    match refresh_remote {
        Some(b) => b,
        None => false,
    }
}

/// Reads a single-pattern check: the trade date first, then the detector.
pub fn plan_single_pattern(req: &PatternSingleRequest) -> (r: Result<ScanPlan, PatternRequestError>)
    ensures
        !request_date_accepted(req.trade_date@) ==> r == Err::<ScanPlan, PatternRequestError>(
            PatternRequestError::TradeDate(request_date_error(req.trade_date@)),
        ),
        request_date_accepted(req.trade_date@) && kind_named(req.pattern_id@) is None ==> r == Err::<
            ScanPlan,
            PatternRequestError,
        >(PatternRequestError::UnknownPattern),
        r matches Ok(p) ==> {
            &&& request_date_accepted(req.trade_date@)
            &&& request_date_ok(req.trade_date@, p.trade_date)
            &&& kind_named(req.pattern_id@) == Some(p.kinds@[0]) && p.kinds@.len() == 1
            &&& p.symbols@ == seq![req.symbol]
            &&& p.history_days == history_of(req.history_days)
            &&& p.refresh_remote == refresh_of(req.refresh_remote)
        },
        request_date_accepted(req.trade_date@) && kind_named(req.pattern_id@) is Some ==> r is Ok,
{
    let trade_date = match parse_request_date(req.trade_date.as_str()) {
        Ok(d) => d,
        Err(e) => return Err(PatternRequestError::TradeDate(e)),
    };
    let kind = match parse_pattern_id(req.pattern_id.as_str()) {
        Some(k) => k,
        None => return Err(PatternRequestError::UnknownPattern),
    };
    let mut symbols: Vec<String> = Vec::new();
    symbols.push(req.symbol.clone());
    let mut kinds: Vec<PatternKind> = Vec::new();
    kinds.push(kind);
    assert(symbols@ =~= seq![req.symbol]);
    Ok(ScanPlan {
        symbols,
        kinds,
        trade_date,
        history_days: effective_history_days(req.history_days),
        refresh_remote: match req.refresh_remote {
            Some(b) => b,
            None => false,
        },
    })
}

/// Reads an all-pattern check of one symbol.
pub fn plan_all_patterns(req: &PatternAllRequest) -> (r: Result<ScanPlan, PatternRequestError>)
    ensures
        !request_date_accepted(req.trade_date@) ==> r == Err::<ScanPlan, PatternRequestError>(
            PatternRequestError::TradeDate(request_date_error(req.trade_date@)),
        ),
        request_date_accepted(req.trade_date@) ==> r is Ok,
        r matches Ok(p) ==> {
            &&& request_date_ok(req.trade_date@, p.trade_date)
            &&& p.kinds@ == default_kinds()
            &&& p.symbols@ == seq![req.symbol]
            &&& p.history_days == history_of(req.history_days)
            &&& p.refresh_remote == refresh_of(req.refresh_remote)
        },
{
    let trade_date = match parse_request_date(req.trade_date.as_str()) {
        Ok(d) => d,
        Err(e) => return Err(PatternRequestError::TradeDate(e)),
    };
    let mut symbols: Vec<String> = Vec::new();
    symbols.push(req.symbol.clone());
    assert(symbols@ =~= seq![req.symbol]);
    Ok(ScanPlan {
        symbols,
        kinds: default_detector_kinds(),
        trade_date,
        history_days: effective_history_days(req.history_days),
        refresh_remote: match req.refresh_remote {
            Some(b) => b,
            None => false,
        },
    })
}

/// What a market-scan job is queued with.
#[derive(Debug, Clone, Copy, PartialEq, Eq, Structural)]
pub struct MarketJobPlan {
    pub trade_date: Ymd,
    pub history_days: i64,
    pub refresh_remote: bool,
    pub requested_symbols: usize,
}

fn market_job_plan(
    trade_date: &str,
    history_days: Option<i64>,
    refresh_remote: Option<bool>,
    symbols: &Option<Vec<String>>,
) -> (r: Result<MarketJobPlan, DateError>)
    ensures
        !request_date_accepted(trade_date@) ==> r == Err::<MarketJobPlan, DateError>(request_date_error(trade_date@)),
        request_date_accepted(trade_date@) ==> r is Ok,
        r matches Ok(p) ==> {
            &&& request_date_ok(trade_date@, p.trade_date)
            &&& p.history_days == history_of(history_days)
            &&& p.refresh_remote == refresh_of(refresh_remote)
            &&& p.requested_symbols == match symbols {
                Some(v) => v@.len(),
                None => 0,
            }
        },
{
    let d = parse_request_date(trade_date)?;
    Ok(MarketJobPlan {
        trade_date: d,
        history_days: effective_history_days(history_days),
        refresh_remote: match refresh_remote {
            Some(b) => b,
            None => false,
        },
        requested_symbols: match symbols {
            Some(v) => v.len(),
            None => 0,
        },
    })
}

/// Reads a one-detector market scan; the detector is resolved when the job runs.
pub fn plan_market_scan(req: &PatternMarketRequest) -> (r: Result<MarketJobPlan, DateError>)
    ensures
        !request_date_accepted(req.trade_date@) ==> r == Err::<MarketJobPlan, DateError>(request_date_error(req.trade_date@)),
        request_date_accepted(req.trade_date@) ==> r is Ok,
        r matches Ok(p) ==> {
            &&& request_date_ok(req.trade_date@, p.trade_date)
            &&& p.history_days == history_of(req.history_days)
            &&& p.refresh_remote == refresh_of(req.refresh_remote)
            &&& p.requested_symbols == match req.symbols {
                Some(v) => v@.len(),
                None => 0,
            }
        },
{
    market_job_plan(req.trade_date.as_str(), req.history_days, req.refresh_remote, &req.symbols)
}

/// Reads an all-detector market scan.
pub fn plan_market_scan_all(req: &PatternMarketAllRequest) -> (r: Result<MarketJobPlan, DateError>)
    ensures
        !request_date_accepted(req.trade_date@) ==> r == Err::<MarketJobPlan, DateError>(request_date_error(req.trade_date@)),
        request_date_accepted(req.trade_date@) ==> r is Ok,
        r matches Ok(p) ==> {
            &&& request_date_ok(req.trade_date@, p.trade_date)
            &&& p.history_days == history_of(req.history_days)
            &&& p.refresh_remote == refresh_of(req.refresh_remote)
            &&& p.requested_symbols == match req.symbols {
                Some(v) => v@.len(),
                None => 0,
            }
        },
{
    market_job_plan(req.trade_date.as_str(), req.history_days, req.refresh_remote, &req.symbols)
}

/// The symbols a job scans: those listed, unless none are; `None` means
/// the whole market is to be discovered.
pub fn job_symbols(requested: Option<Vec<String>>) -> (r: Option<Vec<String>>)
    ensures
        match requested {
            Some(v) => if v@.len() > 0 {
                r == Some(v)
            } else {
                r is None
            },
            None => r is None,
        },
{
    match requested {
        Some(v) => if v.len() > 0 {
            Some(v)
        } else {
            None
        },
        None => None,
    }
}

/// Texts joined with `, `.
pub open spec fn comma_joined(items: Seq<Seq<char>>) -> Seq<char>
    decreases items.len(),
{
    if items.len() == 0 {
        Seq::empty()
    } else if items.len() == 1 {
        items[0]
    } else {
        comma_joined(items.drop_last()) + ", "@ + items.last()
    }
}

/// `unknown pattern_id <id>, available pattern ids: <sorted ids, comma separated>`,
/// for the trimmed identifier.
pub fn unknown_pattern_message(pattern_id: &str) -> (r: String)
    ensures
        exists|ids: Seq<Seq<char>>| {
            &&& sorted_texts(ids)
            &&& ids.to_multiset() == default_kinds().map_values(|k: PatternKind| id_of(k)).to_multiset()
            &&& r@ == "unknown pattern_id "@ + trim(pattern_id@) + ", available pattern ids: "@ + comma_joined(ids)
        },
{
    let ids = available_pattern_ids();
    let v = chars_of(pattern_id);
    let t = trim_vec(&v);
    let mut out = chars_of("unknown pattern_id ");
    extend_chars(&mut out, &t);
    extend_str(&mut out, ", available pattern ids: ");
    let ghost head = out@;
    let mut i: usize = 0;
    while i < ids.len()
        invariant
            i <= ids.len(),
            out@ == head + comma_joined(texts(ids@).subrange(0, i as int)),
        decreases ids.len() - i,
    {
        proof {
            let s = texts(ids@).subrange(0, i + 1);
            assert(s.drop_last() =~= texts(ids@).subrange(0, i as int));
        }
        if i > 0 {
            extend_str(&mut out, ", ");
        }
        let w = chars_of(ids[i].as_str());
        extend_chars(&mut out, &w);
        proof {
            let s = texts(ids@).subrange(0, i + 1);
            if i == 0 {
                assert(out@ =~= head + comma_joined(s));
            } else {
                assert(out@ =~= head + comma_joined(s));
            }
        }
        i = i + 1;
    }
    assert(texts(ids@).subrange(0, ids.len() as int) =~= texts(ids@));
    string_of(&out)
}


/// Each detector has its own fixed identifier, the one it reports and the
/// one a request names it by: reading a detector's identifier (with any
/// surrounding blanks) gives that detector back, and an identifier names a
/// detector only when, trimmed, it is that detector's identifier.
pub proof fn law_pattern_ids(k: PatternKind, id: Seq<char>)
    ensures
        id_of(PatternKind::BottomTrendInflection) == "bottom_trend_inflection"@,
        id_of(PatternKind::ImmortalGuidance) == "immortal_guidance"@,
        id_of(PatternKind::LimitUpPullback) == "limit_up_pullback"@,
        id_of(PatternKind::LimitUpSideways) == "limit_up_sideways"@,
        id_of(PatternKind::MorningStar) == "morning_star"@,
        id_of(PatternKind::MultiGoldenCross) == "multi_golden_cross"@,
        id_of(PatternKind::MultiPartyCannon) == "multi_party_cannon"@,
        id_of(PatternKind::ResistanceBreakout) == "resistance_breakout"@,
        id_of(PatternKind::Strategy2560Selection) == "strategy_2560_selection"@,
        id_of(PatternKind::StrongWashWeakToStrong) == "strong_wash_weak_to_strong"@,
        id_of(PatternKind::TrendAccelerationInflection) == "trend_acceleration_inflection"@,
        id_of(PatternKind::TrendResonanceReversal) == "trend_resonance_reversal"@,
        id_of(PatternKind::TrendStart) == "trend_start"@,
        id_of(PatternKind::WBottom) == "w_bottom"@,
        kind_named(id_of(k)) == Some(k),
        kind_named(id) matches Some(j) ==> trim(id) == id_of(j),
{
    reveal_strlit("bottom_trend_inflection");
    assert("bottom_trend_inflection"@ =~= seq!['b', 'o', 't', 't', 'o', 'm', '_', 't', 'r', 'e', 'n', 'd', '_', 'i', 'n', 'f', 'l', 'e', 'c', 't', 'i', 'o', 'n']);
    crate::text::lemma_trim_unchanged("bottom_trend_inflection"@);
    reveal_strlit("immortal_guidance");
    assert("immortal_guidance"@ =~= seq!['i', 'm', 'm', 'o', 'r', 't', 'a', 'l', '_', 'g', 'u', 'i', 'd', 'a', 'n', 'c', 'e']);
    crate::text::lemma_trim_unchanged("immortal_guidance"@);
    reveal_strlit("limit_up_pullback");
    assert("limit_up_pullback"@ =~= seq!['l', 'i', 'm', 'i', 't', '_', 'u', 'p', '_', 'p', 'u', 'l', 'l', 'b', 'a', 'c', 'k']);
    crate::text::lemma_trim_unchanged("limit_up_pullback"@);
    reveal_strlit("limit_up_sideways");
    assert("limit_up_sideways"@ =~= seq!['l', 'i', 'm', 'i', 't', '_', 'u', 'p', '_', 's', 'i', 'd', 'e', 'w', 'a', 'y', 's']);
    crate::text::lemma_trim_unchanged("limit_up_sideways"@);
    reveal_strlit("morning_star");
    assert("morning_star"@ =~= seq!['m', 'o', 'r', 'n', 'i', 'n', 'g', '_', 's', 't', 'a', 'r']);
    crate::text::lemma_trim_unchanged("morning_star"@);
    reveal_strlit("multi_golden_cross");
    assert("multi_golden_cross"@ =~= seq!['m', 'u', 'l', 't', 'i', '_', 'g', 'o', 'l', 'd', 'e', 'n', '_', 'c', 'r', 'o', 's', 's']);
    crate::text::lemma_trim_unchanged("multi_golden_cross"@);
    reveal_strlit("multi_party_cannon");
    assert("multi_party_cannon"@ =~= seq!['m', 'u', 'l', 't', 'i', '_', 'p', 'a', 'r', 't', 'y', '_', 'c', 'a', 'n', 'n', 'o', 'n']);
    crate::text::lemma_trim_unchanged("multi_party_cannon"@);
    reveal_strlit("resistance_breakout");
    assert("resistance_breakout"@ =~= seq!['r', 'e', 's', 'i', 's', 't', 'a', 'n', 'c', 'e', '_', 'b', 'r', 'e', 'a', 'k', 'o', 'u', 't']);
    crate::text::lemma_trim_unchanged("resistance_breakout"@);
    reveal_strlit("strategy_2560_selection");
    assert("strategy_2560_selection"@ =~= seq!['s', 't', 'r', 'a', 't', 'e', 'g', 'y', '_', '2', '5', '6', '0', '_', 's', 'e', 'l', 'e', 'c', 't', 'i', 'o', 'n']);
    crate::text::lemma_trim_unchanged("strategy_2560_selection"@);
    reveal_strlit("strong_wash_weak_to_strong");
    assert("strong_wash_weak_to_strong"@ =~= seq!['s', 't', 'r', 'o', 'n', 'g', '_', 'w', 'a', 's', 'h', '_', 'w', 'e', 'a', 'k', '_', 't', 'o', '_', 's', 't', 'r', 'o', 'n', 'g']);
    crate::text::lemma_trim_unchanged("strong_wash_weak_to_strong"@);
    reveal_strlit("trend_acceleration_inflection");
    assert("trend_acceleration_inflection"@ =~= seq!['t', 'r', 'e', 'n', 'd', '_', 'a', 'c', 'c', 'e', 'l', 'e', 'r', 'a', 't', 'i', 'o', 'n', '_', 'i', 'n', 'f', 'l', 'e', 'c', 't', 'i', 'o', 'n']);
    crate::text::lemma_trim_unchanged("trend_acceleration_inflection"@);
    reveal_strlit("trend_resonance_reversal");
    assert("trend_resonance_reversal"@ =~= seq!['t', 'r', 'e', 'n', 'd', '_', 'r', 'e', 's', 'o', 'n', 'a', 'n', 'c', 'e', '_', 'r', 'e', 'v', 'e', 'r', 's', 'a', 'l']);
    crate::text::lemma_trim_unchanged("trend_resonance_reversal"@);
    reveal_strlit("trend_start");
    assert("trend_start"@ =~= seq!['t', 'r', 'e', 'n', 'd', '_', 's', 't', 'a', 'r', 't']);
    crate::text::lemma_trim_unchanged("trend_start"@);
    reveal_strlit("w_bottom");
    assert("w_bottom"@ =~= seq!['w', '_', 'b', 'o', 't', 't', 'o', 'm']);
    crate::text::lemma_trim_unchanged("w_bottom"@);
}

} // verus!
