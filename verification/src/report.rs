//! Plain-text scan reports sent to the chat bot.
use vstd::prelude::*;
use crate::text::{chars_of, char_is_ws, decimal, decimal_u64, extend_chars, is_ws, string_of};
use crate::frames::opt_text;
use crate::jobs::MarketScanJob;
use crate::scan::PatternScanFailure;
use crate::dates::{Ymd, valid_date, formatted_date, format_date};

verus! {

/// The words of `s` so far and whether a space is owed before the next one.
pub open spec fn flat_state(s: Seq<char>) -> (Seq<char>, bool)
    decreases s.len(),
{
    if s.len() == 0 {
        (Seq::empty(), false)
    } else {
        let prev = flat_state(s.drop_last());
        let c = s.last();
        if is_ws(c) {
            (prev.0, prev.0.len() > 0)
        } else if prev.1 {
            (prev.0.push(' ').push(c), false)
        } else {
            (prev.0.push(c), false)
        }
    }
}

/// The whitespace-separated words of `s` joined by single spaces
/// (`split_whitespace` then `join(" ")`).
pub open spec fn flattened(s: Seq<char>) -> Seq<char> {
    flat_state(s).0
}

fn flatten_vec(v: &Vec<char>) -> (r: Vec<char>)
    ensures
        r@ == flattened(v@),
{
    let mut out: Vec<char> = Vec::new();
    let mut pending = false;
    let mut i: usize = 0;
    while i < v.len()
        invariant
            i <= v.len(),
            (out@, pending) == flat_state(v@.subrange(0, i as int)),
        decreases v.len() - i,
    {
        assert(v@.subrange(0, i + 1).drop_last() =~= v@.subrange(0, i as int));
        let c = v[i];
        if char_is_ws(c) {
            pending = out.len() > 0;
        } else {
            if pending {
                out.push(' ');
            }
            out.push(c);
            pending = false;
        }
        i = i + 1;
    }
    assert(v@.subrange(0, v.len() as int) =~= v@);
    out
}

/// Collapses every run of whitespace to one space and drops it at both ends.
pub fn flatten_text(input: &str) -> (r: String)
    ensures
        r@ == flattened(input@),
{
    let v = chars_of(input);
    let f = flatten_vec(&v);
    string_of(&f)
}

pub open spec fn line_views(v: Seq<String>) -> Seq<Seq<char>> {
    v.map_values(|s: String| s@)
}

/// `- ... and <n> more` when `actual` exceeds `limit`.
pub open spec fn omitted_lines(actual: nat, limit: nat) -> Seq<Seq<char>> {
    if actual > limit {
        seq!["- ... and "@ + decimal((actual - limit) as nat) + " more"@]
    } else {
        Seq::empty()
    }
}

fn push_line(lines: &mut Vec<String>, v: &Vec<char>)
    ensures
        line_views(final(lines)@) == line_views(old(lines)@).push(v@),
{
    let ghost before = lines@;
    lines.push(string_of(v));
    assert(line_views(lines@) =~= line_views(before).push(v@));
}

/// Notes how many entries a list left out.
pub fn append_omitted_count(lines: &mut Vec<String>, actual: usize, limit: usize)
    ensures
        line_views(final(lines)@) == line_views(old(lines)@) + omitted_lines(
            actual as nat,
            limit as nat,
        ),
{
    if actual > limit {
        let mut v = chars_of("- ... and ");
        let d = decimal_u64((actual - limit) as u64);
        extend_chars(&mut v, &d);
        let tail = chars_of(" more");
        extend_chars(&mut v, &tail);
        push_line(lines, &v);
        assert(line_views(lines@) =~= line_views(old(lines)@) + omitted_lines(
            actual as nat,
            limit as nat,
        ));
    } else {
        assert(line_views(lines@) =~= line_views(old(lines)@) + omitted_lines(
            actual as nat,
            limit as nat,
        ));
    }
}

/// `- <symbol> | <error on one line>`.
pub open spec fn failure_line(f: PatternScanFailure) -> Seq<char> {
    "- "@ + f.symbol@ + " | "@ + flattened(f.error@)
}

/// The failure list of a report.
pub open spec fn failure_section(failures: Seq<PatternScanFailure>, limit: nat) -> Seq<Seq<char>> {
    if failures.len() == 0 {
        seq!["Failed Symbols:"@, "- None"@]
    } else {
        let shown = if failures.len() < limit {
            failures.len()
        } else {
            limit
        };
        seq!["Failed Symbols:"@] + Seq::new(shown, |k: int| failure_line(failures[k]))
            + omitted_lines(failures.len(), limit)
    }
}

/// Lists at most `limit` failed symbols, then how many were left out.
pub fn append_failure_section(lines: &mut Vec<String>, failures: &[PatternScanFailure], limit: usize)
    ensures
        line_views(final(lines)@) == line_views(old(lines)@) + failure_section(
            failures@,
            limit as nat,
        ),
{
    let title = chars_of("Failed Symbols:");
    push_line(lines, &title);
    if failures.len() == 0 {
        let none = chars_of("- None");
        push_line(lines, &none);
        assert(line_views(lines@) =~= line_views(old(lines)@) + failure_section(
            failures@,
            limit as nat,
        ));
        return;
    }
    let shown = if failures.len() < limit {
        failures.len()
    } else {
        limit
    };
    let ghost base = line_views(old(lines)@).push("Failed Symbols:"@);
    let mut i: usize = 0;
    while i < shown
        invariant
            shown <= failures.len(),
            i <= shown,
            line_views(lines@) == base + Seq::new(i as nat, |k: int| failure_line(failures@[k])),
        decreases shown - i,
    {
        let f = &failures[i];
        let mut v = chars_of("- ");
        let sym = chars_of(f.symbol.as_str());
        extend_chars(&mut v, &sym);
        let sep = chars_of(" | ");
        extend_chars(&mut v, &sep);
        let err = chars_of(f.error.as_str());
        let flat = flatten_vec(&err);
        extend_chars(&mut v, &flat);
        let ghost prev = line_views(lines@);
        push_line(lines, &v);
        assert(Seq::new((i + 1) as nat, |k: int| failure_line(failures@[k])) =~= Seq::new(
            i as nat,
            |k: int| failure_line(failures@[k]),
        ).push(failure_line(failures@[i as int])));
        i = i + 1;
    }
    append_omitted_count(lines, failures.len(), limit);
    assert(line_views(lines@) =~= line_views(old(lines)@) + failure_section(failures@, limit as nat));
}

/// Lines joined with `\n` (`[String]::join("\n")`).
pub open spec fn joined_lines(lines: Seq<Seq<char>>) -> Seq<char>
    decreases lines.len(),
{
    if lines.len() == 0 {
        Seq::empty()
    } else if lines.len() == 1 {
        lines[0]
    } else {
        joined_lines(lines.drop_last()) + seq!['\n'] + lines.last()
    }
}

/// The lines of a report as one text.
pub fn join_lines(lines: &Vec<String>) -> (r: String)
    ensures
        r@ == joined_lines(line_views(lines@)),
{
    let mut out: Vec<char> = Vec::new();
    let mut i: usize = 0;
    while i < lines.len()
        invariant
            i <= lines.len(),
            out@ == joined_lines(line_views(lines@.subrange(0, i as int))),
        decreases lines.len() - i,
    {
        proof {
            let s = line_views(lines@.subrange(0, i + 1));
            assert(s.drop_last() =~= line_views(lines@.subrange(0, i as int)));
            assert(s.last() == lines@[i as int]@);
        }
        if i > 0 {
            out.push('\n');
        }
        let v = chars_of(lines[i].as_str());
        extend_chars(&mut out, &v);
        i = i + 1;
    }
    assert(lines@.subrange(0, lines.len() as int) =~= lines@);
    string_of(&out)
}


/// The lines of the message about a market scan that failed.
pub open spec fn failed_scan_lines(
    job_id: Seq<char>,
    trade_date: Ymd,
    pattern_id: Seq<char>,
    requested: nat,
    completed: nat,
    error: Option<Seq<char>>,
    failures: Seq<PatternScanFailure>,
    limit: nat,
) -> Seq<Seq<char>> {
    let head = seq![
        "Pattern Market Scan Failed"@,
        "Job ID: "@ + job_id,
        "Trade Date: "@ + formatted_date(trade_date.year, trade_date.month, trade_date.day, "%Y-%m-%d"@),
        "Pattern: "@ + pattern_id,
        "Requested Symbols: "@ + decimal(requested),
        "Completed Symbols: "@ + decimal(completed),
    ];
    let with_error = match error {
        Some(e) => head.push("Error: "@ + flattened(e)),
        None => head,
    };
    if failures.len() == 0 {
        with_error
    } else {
        with_error.push(Seq::empty()) + failure_section(failures, limit)
    }
}

/// Failed symbols a chat report lists at most.
pub const FEISHU_FAILURE_LIMIT: usize = 20;

fn labelled(label: &str, value: &Vec<char>) -> (r: Vec<char>)
    ensures
        r@ == label@ + value@,
{
    let mut v = chars_of(label);
    extend_chars(&mut v, value);
    v
}

/// The chat message about a market scan that failed: job, date, pattern,
/// counts, the error on one line and the failed symbols.
pub fn render_market_scan_failed_feishu_message(job: &MarketScanJob) -> (r: String)
    requires
        valid_date(job.trade_date),
    ensures
        r@ == joined_lines(
            failed_scan_lines(
                job.job_id@,
                job.trade_date,
                job.pattern_id@,
                job.requested_symbols as nat,
                job.completed_symbols as nat,
                opt_text(job.error),
                job.failed_symbols@,
                FEISHU_FAILURE_LIMIT as nat,
            ),
        ),
{
    let mut lines: Vec<String> = Vec::new();
    let t = chars_of("Pattern Market Scan Failed");
    push_line(&mut lines, &t);
    let id = chars_of(job.job_id.as_str());
    push_line(&mut lines, &labelled("Job ID: ", &id));
    let date = format_date(job.trade_date, "%Y-%m-%d");
    let dv = chars_of(date.as_str());
    push_line(&mut lines, &labelled("Trade Date: ", &dv));
    let pv = chars_of(job.pattern_id.as_str());
    push_line(&mut lines, &labelled("Pattern: ", &pv));
    let rq = decimal_u64(job.requested_symbols as u64);
    push_line(&mut lines, &labelled("Requested Symbols: ", &rq));
    let cp = decimal_u64(job.completed_symbols as u64);
    push_line(&mut lines, &labelled("Completed Symbols: ", &cp));
    match &job.error {
        Some(e) => {
            let ev = chars_of(e.as_str());
            let fv = flatten_vec(&ev);
            push_line(&mut lines, &labelled("Error: ", &fv));
        },
        None => {},
    }
    let ghost before_failures = line_views(lines@);
    if job.failed_symbols.len() > 0 {
        let empty: Vec<char> = Vec::new();
        push_line(&mut lines, &empty);
        append_failure_section(&mut lines, job.failed_symbols.as_slice(), FEISHU_FAILURE_LIMIT);
    }
    proof {
        let expected = failed_scan_lines(
            job.job_id@,
            job.trade_date,
            job.pattern_id@,
            job.requested_symbols as nat,
            job.completed_symbols as nat,
            opt_text(job.error),
            job.failed_symbols@,
            FEISHU_FAILURE_LIMIT as nat,
        );
        assert(line_views(lines@) =~= expected);
    }
    join_lines(&lines)
}

/// Matched signals a chat report lists at most.
pub const FEISHU_SIGNAL_LIMIT: usize = 30;

/// The signal list of a report: its title, at most `limit` signal lines
/// (or `- None`), how many were left out, and a blank line.
pub open spec fn signal_section(title: Seq<char>, signal_lines: Seq<Seq<char>>, limit: nat) -> Seq<Seq<char>> {
    if signal_lines.len() == 0 {
        seq![title + ":"@, "- None"@, Seq::empty()]
    } else {
        seq![title + ":"@] + signal_lines.take(if signal_lines.len() < limit {
            signal_lines.len() as int
        } else {
            limit as int
        }) + omitted_lines(signal_lines.len(), limit) + seq![Seq::empty()]
    }
}

/// Lists at most `limit` already formatted signal lines under `title`.
pub fn append_signal_section(lines: &mut Vec<String>, title: &str, signal_lines: &[String], limit: usize)
    ensures
        line_views(final(lines)@) == line_views(old(lines)@) + signal_section(
            title@,
            line_views(signal_lines@),
            limit as nat,
        ),
{
    let mut t = chars_of(title);
    t.push(':');
    proof {
        reveal_strlit(":");
        assert(t@ =~= title@ + ":"@);
    }
    push_line(lines, &t);
    let empty: Vec<char> = Vec::new();
    if signal_lines.len() == 0 {
        let none = chars_of("- None");
        push_line(lines, &none);
        push_line(lines, &empty);
        assert(line_views(lines@) =~= line_views(old(lines)@) + signal_section(
            title@,
            line_views(signal_lines@),
            limit as nat,
        ));
        return;
    }
    let shown = if signal_lines.len() < limit {
        signal_lines.len()
    } else {
        limit
    };
    let ghost base = line_views(old(lines)@).push(title@ + ":"@);
    let mut i: usize = 0;
    while i < shown
        invariant
            shown <= signal_lines.len(),
            i <= shown,
            line_views(lines@) == base + line_views(signal_lines@).take(i as int),
        decreases shown - i,
    {
        let v = chars_of(signal_lines[i].as_str());
        push_line(lines, &v);
        assert(line_views(signal_lines@).take(i + 1) =~= line_views(signal_lines@).take(i as int).push(
            signal_lines@[i as int]@,
        ));
        i = i + 1;
    }
    append_omitted_count(lines, signal_lines.len(), limit);
    push_line(lines, &empty);
    assert(line_views(lines@) =~= line_views(old(lines)@) + signal_section(
        title@,
        line_views(signal_lines@),
        limit as nat,
    ));
}

/// `Trade Date: <YYYY-MM-DD>`.
pub open spec fn trade_date_line(d: Ymd) -> Seq<char> {
    "Trade Date: "@ + formatted_date(d.year, d.month, d.day, "%Y-%m-%d"@)
}

/// The lines of the message about an all-pattern check of one symbol.
pub open spec fn check_all_lines(
    symbol: Seq<char>,
    trade_date: Ymd,
    signal_count: nat,
    skipped_short_series: nat,
    failures: Seq<PatternScanFailure>,
    signal_lines: Seq<Seq<char>>,
) -> Seq<Seq<char>> {
    seq![
        "Pattern Check-All Finished"@,
        trade_date_line(trade_date),
        "Symbol: "@ + symbol,
        "Summary: matched "@ + decimal(signal_count) + " patterns, skipped "@ + decimal(skipped_short_series)
            + " short series, failed "@ + decimal(failures.len()) + " symbols"@,
        Seq::empty(),
    ] + signal_section("Matched Patterns"@, signal_lines, FEISHU_SIGNAL_LIMIT as nat) + failure_section(
        failures,
        FEISHU_FAILURE_LIMIT as nat,
    )
}

fn append_number(v: &mut Vec<char>, n: usize, tail: &str)
    ensures
        final(v)@ == old(v)@ + decimal(n as nat) + tail@,
{
    let d = decimal_u64(n as u64);
    extend_chars(v, &d);
    let t = chars_of(tail);
    extend_chars(v, &t);
}

/// The chat message about an all-pattern check of one symbol; the signal
/// lines come formatted.
pub fn render_check_all_feishu_message(
    symbol: &str,
    trade_date: Ymd,
    signal_count: usize,
    skipped_short_series: usize,
    failures: &[PatternScanFailure],
    signal_lines: &[String],
) -> (r: String)
    requires
        valid_date(trade_date),
    ensures
        r@ == joined_lines(
            check_all_lines(
                symbol@,
                trade_date,
                signal_count as nat,
                skipped_short_series as nat,
                failures@,
                line_views(signal_lines@),
            ),
        ),
{
    let mut lines: Vec<String> = Vec::new();
    let t = chars_of("Pattern Check-All Finished");
    push_line(&mut lines, &t);
    let date = format_date(trade_date, "%Y-%m-%d");
    let dv = chars_of(date.as_str());
    push_line(&mut lines, &labelled("Trade Date: ", &dv));
    let sv = chars_of(symbol);
    push_line(&mut lines, &labelled("Symbol: ", &sv));
    let mut summary = chars_of("Summary: matched ");
    append_number(&mut summary, signal_count, " patterns, skipped ");
    append_number(&mut summary, skipped_short_series, " short series, failed ");
    append_number(&mut summary, failures.len(), " symbols");
    push_line(&mut lines, &summary);
    let empty: Vec<char> = Vec::new();
    push_line(&mut lines, &empty);
    append_signal_section(&mut lines, "Matched Patterns", signal_lines, FEISHU_SIGNAL_LIMIT);
    append_failure_section(&mut lines, failures, FEISHU_FAILURE_LIMIT);
    assert(line_views(lines@) =~= check_all_lines(
        symbol@,
        trade_date,
        signal_count as nat,
        skipped_short_series as nat,
        failures@,
        line_views(signal_lines@),
    ));
    join_lines(&lines)
}

/// What a finished market scan reports.
#[derive(Debug)]
pub struct ScanSummary {
    pub requested_symbols: usize,
    pub signal_count: usize,
    pub fetched_symbols: usize,
    pub skipped_short_series: usize,
}

/// The lines of the message about a finished market scan.
pub open spec fn market_scan_lines(
    job_id: Seq<char>,
    pattern_id: Seq<char>,
    trade_date: Ymd,
    summary: ScanSummary,
    failures: Seq<PatternScanFailure>,
    signal_lines: Seq<Seq<char>>,
) -> Seq<Seq<char>> {
    seq![
        "Pattern Market Scan Finished"@,
        "Job ID: "@ + job_id,
        trade_date_line(trade_date),
        "Pattern: "@ + pattern_id,
        "Summary: requested "@ + decimal(summary.requested_symbols as nat) + ", completed "@ + decimal(
            summary.requested_symbols as nat,
        ) + ", matched "@ + decimal(summary.signal_count as nat) + ", fetched "@ + decimal(
            summary.fetched_symbols as nat,
        ) + ", failed "@ + decimal(failures.len()),
        "Skipped Short Series: "@ + decimal(summary.skipped_short_series as nat),
        Seq::empty(),
    ] + signal_section("Matched Signals"@, signal_lines, FEISHU_SIGNAL_LIMIT as nat) + failure_section(
        failures,
        FEISHU_FAILURE_LIMIT as nat,
    )
}

/// The chat message about a finished market scan; the signal lines come
/// formatted.
pub fn render_market_scan_feishu_message(
    job_id: &str,
    pattern_id: &str,
    trade_date: Ymd,
    summary: &ScanSummary,
    failures: &[PatternScanFailure],
    signal_lines: &[String],
) -> (r: String)
    requires
        valid_date(trade_date),
    ensures
        r@ == joined_lines(
            market_scan_lines(job_id@, pattern_id@, trade_date, *summary, failures@, line_views(signal_lines@)),
        ),
{
    let mut lines: Vec<String> = Vec::new();
    let t = chars_of("Pattern Market Scan Finished");
    push_line(&mut lines, &t);
    let id = chars_of(job_id);
    push_line(&mut lines, &labelled("Job ID: ", &id));
    let date = format_date(trade_date, "%Y-%m-%d");
    let dv = chars_of(date.as_str());
    push_line(&mut lines, &labelled("Trade Date: ", &dv));
    let pv = chars_of(pattern_id);
    push_line(&mut lines, &labelled("Pattern: ", &pv));
    let mut s = chars_of("Summary: requested ");
    append_number(&mut s, summary.requested_symbols, ", completed ");
    append_number(&mut s, summary.requested_symbols, ", matched ");
    append_number(&mut s, summary.signal_count, ", fetched ");
    append_number(&mut s, summary.fetched_symbols, ", failed ");
    let d = decimal_u64(failures.len() as u64);
    extend_chars(&mut s, &d);
    push_line(&mut lines, &s);
    let sk = decimal_u64(summary.skipped_short_series as u64);
    push_line(&mut lines, &labelled("Skipped Short Series: ", &sk));
    let empty: Vec<char> = Vec::new();
    push_line(&mut lines, &empty);
    append_signal_section(&mut lines, "Matched Signals", signal_lines, FEISHU_SIGNAL_LIMIT);
    append_failure_section(&mut lines, failures, FEISHU_FAILURE_LIMIT);
    assert(line_views(lines@) =~= market_scan_lines(
        job_id@,
        pattern_id@,
        trade_date,
        *summary,
        failures@,
        line_views(signal_lines@),
    ));
    join_lines(&lines)
}

} // verus!
