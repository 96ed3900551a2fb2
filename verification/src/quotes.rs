//! The whole-market quote forwarder: which sector it follows, the symbols
//! it polls, the subject each tick is published under and the status it
//! reports.
use vstd::prelude::*;
use crate::report::line_views;
use crate::symbols::split_symbol_spec;
use crate::text::{chars_of, extend_chars, extend_str, string_of, trim, trim_vec};

verus! {

/// Seconds between two snapshots of the market.
pub const SNAPSHOT_INTERVAL_SECS: u64 = 10;

/// Snapshot requests sent at once.
pub const SNAPSHOT_WORKER_COUNT: usize = 10;

/// A request to start forwarding; the sector is optional.
#[derive(Debug)]
pub struct WholeQuoteStartRequest {
    pub sector_name: Option<String>,
}

/// What the forwarder reports about itself.
#[derive(Debug)]
pub struct WholeQuoteStatusResponse {
    pub enabled: bool,
    pub running: bool,
    pub sector_name: Option<String>,
    pub symbol_count: usize,
    pub snapshot_worker_count: usize,
    pub nats_url: String,
    pub token_configured: bool,
    pub mode: &'static str,
    pub subject_pattern: &'static str,
}

/// The sector followed when none (or a blank one) is named.
pub fn default_sector_name() -> (r: &'static str)
    ensures
        r@ == "沪深A股"@,
{
    "沪深A股"
}

/// The sector a start request names, trimmed; the default otherwise.
pub open spec fn sector_name_spec(sector_name: Option<Seq<char>>) -> Seq<char> {
    match sector_name {
        Some(s) => if trim(s).len() > 0 {
            trim(s)
        } else {
            "沪深A股"@
        },
        None => "沪深A股"@,
    }
}

/// The sector a start request asks for.
pub fn normalize_sector_name(sector_name: Option<String>) -> (r: String)
    ensures
        r@ == sector_name_spec(match sector_name {
            Some(s) => Some(s@),
            None => None,
        }),
{
    match sector_name {
        Some(s) => {
            let v = chars_of(s.as_str());
            let t = trim_vec(&v);
            if t.len() > 0 {
                string_of(&t)
            } else {
                String::from_str(default_sector_name())
            }
        },
        None => String::from_str(default_sector_name()),
    }
}

/// The symbols of a sector, trimmed, blank ones left out, in order.
pub open spec fn sector_symbols_spec(raw: Seq<Seq<char>>) -> Seq<Seq<char>>
    decreases raw.len(),
{
    if raw.len() == 0 {
        Seq::empty()
    } else {
        let rest = sector_symbols_spec(raw.drop_last());
        let t = trim(raw.last());
        if t.len() > 0 {
            rest.push(t)
        } else {
            rest
        }
    }
}

/// The symbols a sector lists, as the forwarder polls them.
pub fn sector_symbols(raw: &[String]) -> (r: Vec<String>)
    ensures
        line_views(r@) == sector_symbols_spec(line_views(raw@)),
{
    let mut out: Vec<String> = Vec::new();
    let mut i: usize = 0;
    while i < raw.len()
        invariant
            i <= raw.len(),
            line_views(out@) == sector_symbols_spec(line_views(raw@.subrange(0, i as int))),
        decreases raw.len() - i,
    {
        let ghost before = out@;
        let v = chars_of(raw[i].as_str());
        let t = trim_vec(&v);
        if t.len() > 0 {
            out.push(string_of(&t));
        }
        proof {
            let s = line_views(raw@.subrange(0, i + 1));
            assert(s.drop_last() =~= line_views(raw@.subrange(0, i as int)));
            assert(s.last() == raw@[i as int]@);
            if t.len() > 0 {
                assert(line_views(out@) =~= line_views(before).push(t@));
            } else {
                assert(line_views(out@) =~= line_views(before));
            }
        }
        i = i + 1;
    }
    assert(raw@.subrange(0, raw.len() as int) =~= raw@);
    out
}

/// For `000001.SZ` (or `SZ.000001`): the subject `stock.tick.000001.SZ` a
/// tick is published under and the code `000001.SZ` its payload carries;
/// `None` for a symbol of another form.
pub fn tick_subject(symbol: &str) -> (r: Option<(String, String)>)
    ensures
        match split_symbol_spec(symbol@) {
            Some(p) => (r matches Some((subject, full)) && subject@ == "stock.tick."@ + p.0 + "."@ + p.1
                && full@ == p.0 + "."@ + p.1),
            None => r is None,
        },
{
    match crate::symbols::split_symbol(symbol) {
        Some((code, market)) => {
            let c = chars_of(code.as_str());
            let m = chars_of(market.as_str());
            let mut full = c.clone();
            extend_str(&mut full, ".");
            extend_chars(&mut full, &m);
            let mut subject = chars_of("stock.tick.");
            extend_chars(&mut subject, &full);
            assert(subject@ =~= "stock.tick."@ + code@ + "."@ + market@);
            Some((string_of(&subject), string_of(&full)))
        },
        None => None,
    }
}

/// The forwarder's status: the settings it runs with and what it follows.
pub fn whole_quote_status(
    enabled: bool,
    running: bool,
    sector_name: Option<String>,
    symbol_count: usize,
    nats_url: String,
    token_configured: bool,
) -> (r: WholeQuoteStatusResponse)
    ensures
        r.enabled == enabled,
        r.running == running,
        r.sector_name == sector_name,
        r.symbol_count == symbol_count,
        r.snapshot_worker_count == SNAPSHOT_WORKER_COUNT,
        r.nats_url == nats_url,
        r.token_configured == token_configured,
        r.mode@ == "core"@,
        r.subject_pattern@ == "stock.tick.{code}.{market}"@,
{
    WholeQuoteStatusResponse {
        enabled,
        running,
        sector_name,
        symbol_count,
        snapshot_worker_count: SNAPSHOT_WORKER_COUNT,
        nats_url,
        token_configured,
        mode: "core",
        subject_pattern: "stock.tick.{code}.{market}",
    }
}

/// A sector name that was normalized normalizes to itself.
pub proof fn law_sector_name_idempotent(sector_name: Option<Seq<char>>)
    ensures
        sector_name_spec(Some(sector_name_spec(sector_name))) == sector_name_spec(sector_name),
{
    reveal_strlit("沪深A股");
    let d = "沪深A股"@;
    crate::text::lemma_trim_unchanged(d);
    if let Some(s) = sector_name {
        crate::text::lemma_trim_idempotent(s);
    }
}

} // verus!
