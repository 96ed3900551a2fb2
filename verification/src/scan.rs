//! Bookkeeping of a pattern scan over many symbols: its data-source
//! settings, how many symbols run at once, how each finished symbol is
//! counted and the progress reported after it.
use vstd::prelude::*;

verus! {

/// Where a scan reads daily bars from.
#[derive(Debug, Clone)]
pub struct PatternDataSourceConfig {
    pub base_url: String,
    pub authorization: Option<String>,
    pub timeout_secs: u64,
    pub adjust_type: String,
    pub tdx_fallback: bool,
    pub batch_size: usize,
    pub fetch_concurrency: usize,
}

impl PatternDataSourceConfig {
    /// Settings for `base_url`: no authorization, 30 s timeout, forward
    /// adjusted (`qfq`) prices, TDX fallback on, batches of 200 symbols and
    /// four fetches at once.
    pub fn new(base_url: String) -> (r: Self)
        ensures
            r.base_url@ == base_url@,
            r.authorization is None,
            r.timeout_secs == 30,
            r.adjust_type@ == "qfq"@,
            r.tdx_fallback,
            r.batch_size == 200,
            r.fetch_concurrency == 4,
    {
        PatternDataSourceConfig {
            base_url,
            authorization: None,
            timeout_secs: 30,
            adjust_type: String::from_str("qfq"),
            tdx_fallback: true,
            batch_size: 200,
            fetch_concurrency: 4,
        }
    }
}

/// A symbol whose scan failed, with the error text.
#[derive(Debug)]
pub struct PatternScanFailure {
    pub symbol: String,
    pub error: String,
}

impl Clone for PatternScanFailure {
    fn clone(&self) -> (r: Self)
        ensures
            r == *self,
    {
        PatternScanFailure { symbol: self.symbol.clone(), error: self.error.clone() }
    }
}

/// Counts reported after each symbol finishes.
#[derive(Debug, Clone)]
pub struct PatternScanProgress {
    pub requested_symbols: usize,
    pub completed_symbols: usize,
    pub series_count: usize,
    pub skipped_short_series: usize,
    pub signal_count: usize,
    pub failed_symbols: usize,
    pub latest_failure: Option<PatternScanFailure>,
}

/// Fewest daily bars a series needs before detectors run on it.
pub const MIN_SERIES_LEN: usize = 20;

/// What becomes of one symbol's bars.
#[derive(Debug, Clone, Copy, PartialEq, Eq, Structural)]
pub enum SeriesOutcome {
    /// No bars: the symbol is not counted as a series.
    NoSeries,
    /// Fewer than `MIN_SERIES_LEN` bars: counted, but skipped.
    TooShort,
    /// Enough bars for the detectors.
    Scan,
}

pub open spec fn series_outcome(len: nat) -> SeriesOutcome {
    if len == 0 {
        SeriesOutcome::NoSeries
    } else if len < MIN_SERIES_LEN {
        SeriesOutcome::TooShort
    } else {
        SeriesOutcome::Scan
    }
}

/// How a series of `len` bars is treated.
pub fn classify_series(len: usize) -> (r: SeriesOutcome)
    ensures
        r == series_outcome(len as nat),
{
    if len == 0 {
        SeriesOutcome::NoSeries
    } else if len < MIN_SERIES_LEN {
        SeriesOutcome::TooShort
    } else {
        SeriesOutcome::Scan
    }
}

/// What a finished symbol task reports.
#[derive(Debug, Clone)]
pub struct SymbolScanResult {
    pub symbol: String,
    pub had_series: bool,
    pub skipped_short: bool,
    pub failure: Option<PatternScanFailure>,
    pub signal_count: usize,
}

/// The result of a symbol whose bars led to `outcome`, with the signals
/// that its detectors reported.
pub fn symbol_scan_result(symbol: String, outcome: SeriesOutcome, signal_count: usize) -> (r:
    SymbolScanResult)
    ensures
        r.symbol@ == symbol@,
        r.had_series == (outcome != SeriesOutcome::NoSeries),
        r.skipped_short == (outcome == SeriesOutcome::TooShort),
        r.failure is None,
        r.signal_count == if outcome == SeriesOutcome::Scan {
            signal_count
        } else {
            0
        },
{
    match outcome {
        SeriesOutcome::NoSeries => SymbolScanResult {
            symbol,
            had_series: false,
            skipped_short: false,
            failure: None,
            signal_count: 0,
        },
        SeriesOutcome::TooShort => SymbolScanResult {
            symbol,
            had_series: true,
            skipped_short: true,
            failure: None,
            signal_count: 0,
        },
        SeriesOutcome::Scan => SymbolScanResult {
            symbol,
            had_series: true,
            skipped_short: false,
            failure: None,
            signal_count,
        },
    }
}

/// The result of a symbol whose fetch or scan failed.
pub fn symbol_scan_failure(symbol: String, error: String) -> (r: SymbolScanResult)
    ensures
        r.symbol@ == symbol@,
        !r.had_series,
        !r.skipped_short,
        r.failure matches Some(f) && f.symbol@ == symbol@ && f.error@ == error@,
        r.signal_count == 0,
{
    let failure = PatternScanFailure { symbol: symbol.clone(), error };
    SymbolScanResult {
        symbol,
        had_series: false,
        skipped_short: false,
        failure: Some(failure),
        signal_count: 0,
    }
}

/// Running totals of a scan.
#[derive(Debug, Clone)]
pub struct ScanTally {
    pub requested_symbols: usize,
    pub completed_symbols: usize,
    pub series_count: usize,
    pub skipped_short_series: usize,
    pub signal_count: usize,
    pub fetched_symbols: Vec<String>,
    pub failed_symbols: Vec<PatternScanFailure>,
}

impl ScanTally {
    /// Totals always agree: each series was fetched once, and no more
    /// symbols completed than were requested.
    pub open spec fn wf(&self) -> bool {
        &&& self.completed_symbols <= self.requested_symbols
        &&& self.series_count == self.fetched_symbols@.len()
        &&& self.skipped_short_series <= self.series_count
        &&& self.series_count + self.failed_symbols@.len() <= self.completed_symbols
    }

    /// Nothing done yet for `requested` symbols.
    pub fn new(requested: usize) -> (r: Self)
        ensures
            r.wf(),
            r.requested_symbols == requested,
            r.completed_symbols == 0,
            r.series_count == 0,
            r.skipped_short_series == 0,
            r.signal_count == 0,
            r.fetched_symbols@.len() == 0,
            r.failed_symbols@.len() == 0,
    {
        ScanTally {
            requested_symbols: requested,
            completed_symbols: 0,
            series_count: 0,
            skipped_short_series: 0,
            signal_count: 0,
            fetched_symbols: Vec::new(),
            failed_symbols: Vec::new(),
        }
    }

    pub open spec fn progress_of(
        &self,
        latest_failure: Option<PatternScanFailure>,
        p: PatternScanProgress,
    ) -> bool {
        &&& p.requested_symbols == self.requested_symbols
        &&& p.completed_symbols == self.completed_symbols
        &&& p.series_count == self.series_count
        &&& p.skipped_short_series == self.skipped_short_series
        &&& p.signal_count == self.signal_count
        &&& p.failed_symbols == self.failed_symbols@.len()
        &&& p.latest_failure == latest_failure
    }

    fn progress(&self, latest_failure: Option<PatternScanFailure>) -> (p: PatternScanProgress)
        ensures
            self.progress_of(latest_failure, p),
    {
        PatternScanProgress {
            requested_symbols: self.requested_symbols,
            completed_symbols: self.completed_symbols,
            series_count: self.series_count,
            skipped_short_series: self.skipped_short_series,
            signal_count: self.signal_count,
            failed_symbols: self.failed_symbols.len(),
            latest_failure,
        }
    }

    /// Counts a finished symbol and returns the progress to report.
    pub fn record_result(&mut self, result: SymbolScanResult) -> (p: PatternScanProgress)
        requires
            old(self).wf(),
            old(self).completed_symbols < old(self).requested_symbols,
            old(self).signal_count + result.signal_count <= usize::MAX,
            !(result.had_series && result.failure is Some),
            result.skipped_short ==> result.had_series,
        ensures
            final(self).wf(),
            final(self).requested_symbols == old(self).requested_symbols,
            final(self).completed_symbols == old(self).completed_symbols + 1,
            final(self).series_count == old(self).series_count + if result.had_series {
                1int
            } else {
                0int
            },
            final(self).fetched_symbols@ == if result.had_series {
                old(self).fetched_symbols@.push(result.symbol)
            } else {
                old(self).fetched_symbols@
            },
            final(self).skipped_short_series == old(self).skipped_short_series + if result.skipped_short {
                1int
            } else {
                0int
            },
            final(self).signal_count == old(self).signal_count + result.signal_count,
            final(self).failed_symbols@ == match result.failure {
                Some(f) => old(self).failed_symbols@.push(f),
                None => old(self).failed_symbols@,
            },
            final(self).progress_of(result.failure, p),
    {
        self.completed_symbols = self.completed_symbols + 1;
        if result.had_series {
            self.series_count = self.series_count + 1;
            self.fetched_symbols.push(result.symbol);
        }
        if result.skipped_short {
            self.skipped_short_series = self.skipped_short_series + 1;
        }
        match &result.failure {
            Some(f) => self.failed_symbols.push(f.clone()),
            None => {},
        }
        self.signal_count = self.signal_count + result.signal_count;
        self.progress(result.failure)
    }

    /// Counts a symbol task that could not be joined as a failure of an
    /// unknown symbol, and returns the progress to report.
    pub fn record_join_failure(&mut self, error: String) -> (p: PatternScanProgress)
        requires
            old(self).wf(),
            old(self).completed_symbols < old(self).requested_symbols,
        ensures
            final(self).wf(),
            final(self).requested_symbols == old(self).requested_symbols,
            final(self).completed_symbols == old(self).completed_symbols + 1,
            final(self).series_count == old(self).series_count,
            final(self).fetched_symbols@ == old(self).fetched_symbols@,
            final(self).skipped_short_series == old(self).skipped_short_series,
            final(self).signal_count == old(self).signal_count,
            final(self).failed_symbols@.len() == old(self).failed_symbols@.len() + 1,
            final(self).failed_symbols@.last().symbol@ == "<unknown>"@,
            final(self).failed_symbols@.last().error@ == error@,
            final(self).failed_symbols@.drop_last() == old(self).failed_symbols@,
            p.latest_failure matches Some(f) && f.symbol@ == "<unknown>"@ && f.error@ == error@,
            final(self).progress_of(p.latest_failure, p),
    {
        let failure = PatternScanFailure { symbol: String::from_str("<unknown>"), error };
        self.completed_symbols = self.completed_symbols + 1;
        self.failed_symbols.push(failure.clone());
        proof {
            assert(self.failed_symbols@.drop_last() =~= old(self).failed_symbols@);
        }
        self.progress(Some(failure))
    }
}

/// Whether another symbol (or batch) task may start: some are left and
/// fewer than the allowed number (at least one) are running.
pub fn may_spawn(next_idx: usize, total: usize, running: usize, concurrency: usize) -> (r: bool)
    ensures
        r == (next_idx < total && running < if concurrency < 1 {
            1
        } else {
            concurrency
        }),
{
    let limit = if concurrency < 1 {
        1
    } else {
        concurrency
    };
    next_idx < total && running < limit
}

/// Why a scan request was refused.
#[derive(Debug, Clone, Copy, PartialEq, Eq, Structural)]
pub enum ScanRequestError {
    /// No symbols were given.
    NoSymbols,
    /// The start date lies after the end date.
    StartAfterEnd,
}

/// Checks a scan request: at least one symbol, start not after end.
pub fn check_scan_request(symbol_count: usize, start: crate::dates::Ymd, end: crate::dates::Ymd) -> (r:
    Result<(), ScanRequestError>)
    ensures
        symbol_count == 0 ==> r == Err::<(), ScanRequestError>(ScanRequestError::NoSymbols),
        symbol_count > 0 ==> (r is Ok <==> crate::dates::date_le(start, end)),
        symbol_count > 0 && !crate::dates::date_le(start, end) ==> r == Err::<(), ScanRequestError>(
            ScanRequestError::StartAfterEnd,
        ),
{
    if symbol_count == 0 {
        return Err(ScanRequestError::NoSymbols);
    }
    if start.year > end.year || (start.year == end.year && (start.month > end.month || (start.month
        == end.month && start.day > end.day))) {
        return Err(ScanRequestError::StartAfterEnd);
    }
    Ok(())
}

/// Where a failed batch of `len` symbols is split before retrying each half.
pub fn split_point(len: usize) -> (r: Option<usize>)
    ensures
        len > 1 ==> r == Some(len / 2),
        len <= 1 ==> r is None,
        r matches Some(m) ==> 0 < m < len,
{
    if len > 1 {
        Some(len / 2)
    } else {
        None
    }
}

/// Days of history a scan reads: as asked, 365 by default, at least 30.
pub fn effective_history_days(history_days: Option<i64>) -> (r: i64)
    ensures
        r == match history_days {
            Some(d) => if d < 30 {
                30
            } else {
                d
            },
            None => 365,
        },
{
    let d = match history_days {
        Some(d) => d,
        None => 365,
    };
    if d < 30 {
        30
    } else {
        d
    }
}

} // verus!
