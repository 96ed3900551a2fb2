//! The registry policy for background market-scan jobs: their states,
//! labels, identifiers and which finished jobs are dropped.
use vstd::prelude::*;
use crate::dates::Ymd;
use crate::scan::{PatternScanFailure, PatternScanProgress, ScanTally};
use crate::text::{str_with_number, string_of};

verus! {

/// Hours a finished job stays listed.
pub const MARKET_SCAN_JOB_TTL_HOURS: i64 = 24;

/// Most jobs the registry keeps once finished ones can be dropped.
pub const MARKET_SCAN_JOB_MAX_COUNT: usize = 200;

/// Where a market-scan job stands.
#[derive(Debug, Clone, Copy, PartialEq, Eq, Structural)]
pub enum MarketScanJobStatus {
    Queued,
    Running,
    Succeeded,
    Failed,
}

/// The status as the HTTP API reports it.
pub open spec fn status_label(status: MarketScanJobStatus) -> Seq<char> {
    match status {
        MarketScanJobStatus::Queued => "queued"@,
        MarketScanJobStatus::Running => "running"@,
        MarketScanJobStatus::Succeeded => "succeeded"@,
        MarketScanJobStatus::Failed => "failed"@,
    }
}

/// `queued`, `running`, `succeeded` or `failed`.
pub fn market_scan_job_status_label(status: MarketScanJobStatus) -> (r: &'static str)
    ensures
        r@ == status_label(status),
{
    match status {
        MarketScanJobStatus::Queued => "queued",
        MarketScanJobStatus::Running => "running",
        MarketScanJobStatus::Succeeded => "succeeded",
        MarketScanJobStatus::Failed => "failed",
    }
}

/// `market-scan-<n>`, the identifier of the `n`-th job.
pub fn market_scan_job_id(n: u64) -> (r: String)
    ensures
        r@ == "market-scan-"@ + crate::text::decimal(n as nat),
{
    let v = str_with_number("market-scan-", n);
    string_of(&v)
}

/// A UTC instant: whole seconds since the epoch and the nanoseconds past them.
#[derive(Debug, Clone, Copy, PartialEq, Eq, Structural)]
pub struct Stamp {
    pub secs: i64,
    pub nanos: u32,
}

pub open spec fn stamp_lt(a: Stamp, b: Stamp) -> bool {
    a.secs < b.secs || (a.secs == b.secs && a.nanos < b.nanos)
}

pub open spec fn stamp_le(a: Stamp, b: Stamp) -> bool {
    !stamp_lt(b, a)
}

fn lt(a: Stamp, b: Stamp) -> (r: bool)
    ensures
        r == stamp_lt(a, b),
{
    a.secs < b.secs || (a.secs == b.secs && a.nanos < b.nanos)
}

/// What the cleanup policy reads of a job.
#[derive(Debug, Clone, Copy, PartialEq, Eq, Structural)]
pub struct JobEntry {
    pub status: MarketScanJobStatus,
    pub created_at: Stamp,
    pub finished_at: Option<Stamp>,
}

pub open spec fn is_finished(s: MarketScanJobStatus) -> bool {
    s == MarketScanJobStatus::Succeeded || s == MarketScanJobStatus::Failed
}

/// When the job finished, or when it was created if no finish was recorded.
pub open spec fn finish_or_created(e: JobEntry) -> Stamp {
    match e.finished_at {
        Some(f) => f,
        None => e.created_at,
    }
}

/// `now` less the time to live.
pub open spec fn expire_before(now: Stamp) -> Stamp {
    Stamp { secs: (now.secs - MARKET_SCAN_JOB_TTL_HOURS * 3600) as i64, nanos: now.nanos }
}

/// A job the first step keeps: unfinished, or finished within the time to live.
pub open spec fn survives_ttl(e: JobEntry, now: Stamp) -> bool {
    !is_finished(e.status) || stamp_le(expire_before(now), finish_or_created(e))
}

/// A finished job that the time-to-live step kept.
pub open spec fn removable(jobs: Seq<JobEntry>, now: Stamp, i: int) -> bool {
    survives_ttl(jobs[i], now) && is_finished(jobs[i].status)
}

/// `i` sorts before `j` among removable jobs: by finish (or creation) time,
/// then creation time, then the order the jobs were listed in.
pub open spec fn sorts_before(jobs: Seq<JobEntry>, i: int, j: int) -> bool {
    let a = finish_or_created(jobs[i]);
    let b = finish_or_created(jobs[j]);
    ||| stamp_lt(a, b)
    ||| (a == b && stamp_lt(jobs[i].created_at, jobs[j].created_at))
    ||| (a == b && jobs[i].created_at == jobs[j].created_at && i < j)
}

/// Jobs among the first `n` listed that survive the time-to-live step.
pub open spec fn survivors_in(jobs: Seq<JobEntry>, now: Stamp, n: int) -> int
    decreases n,
{
    if n <= 0 {
        0
    } else {
        survivors_in(jobs, now, n - 1) + if survives_ttl(jobs[n - 1], now) {
            1int
        } else {
            0int
        }
    }
}

/// Removable jobs among the first `n` that sort before job `i`.
pub open spec fn rank_in(jobs: Seq<JobEntry>, now: Stamp, i: int, n: int) -> int
    decreases n,
{
    if n <= 0 {
        0
    } else {
        rank_in(jobs, now, i, n - 1) + if removable(jobs, now, n - 1) && sorts_before(
            jobs,
            n - 1,
            i,
        ) {
            1int
        } else {
            0int
        }
    }
}

/// How many jobs the second step drops.
pub open spec fn overflow(jobs: Seq<JobEntry>, now: Stamp) -> int {
    let n = survivors_in(jobs, now, jobs.len() as int);
    if n > MARKET_SCAN_JOB_MAX_COUNT {
        n - MARKET_SCAN_JOB_MAX_COUNT
    } else {
        0
    }
}

/// Whether the cleanup keeps job `i`: it survives the time to live, and it
/// is not among the oldest finished jobs that would leave more than the
/// maximum listed.
pub open spec fn keeps(jobs: Seq<JobEntry>, now: Stamp, i: int) -> bool {
    &&& survives_ttl(jobs[i], now)
    &&& !(removable(jobs, now, i) && rank_in(jobs, now, i, jobs.len() as int) < overflow(jobs, now))
}

fn is_finished_status(s: MarketScanJobStatus) -> (r: bool)
    ensures
        r == is_finished(s),
{
    match s {
        MarketScanJobStatus::Succeeded | MarketScanJobStatus::Failed => true,
        _ => false,
    }
}

fn finish_time(e: &JobEntry) -> (r: Stamp)
    ensures
        r == finish_or_created(*e),
{
    match e.finished_at {
        Some(f) => f,
        None => e.created_at,
    }
}

fn survives(e: &JobEntry, limit: Stamp) -> (r: bool)
    ensures
        r == (!is_finished(e.status) || stamp_le(limit, finish_or_created(*e))),
{
    !is_finished_status(e.status) || !lt(finish_time(e), limit)
}

fn before(jobs: &[JobEntry], i: usize, j: usize) -> (r: bool)
    requires
        i < jobs.len(),
        j < jobs.len(),
    ensures
        r == sorts_before(jobs@, i as int, j as int),
{
    let a = finish_time(&jobs[i]);
    let b = finish_time(&jobs[j]);
    let ca = jobs[i].created_at;
    let cb = jobs[j].created_at;
    let same = a.secs == b.secs && a.nanos == b.nanos;
    let same_created = ca.secs == cb.secs && ca.nanos == cb.nanos;
    lt(a, b) || (same && lt(ca, cb)) || (same && same_created && i < j)
}

/// For each listed job, whether the registry keeps it: finished jobs older
/// than the time to live go, and when more than the maximum remain, the
/// oldest finished ones go until the maximum is reached or none is left.
/// Unfinished jobs always stay.
pub fn cleanup_market_scan_jobs(jobs: &[JobEntry], now: Stamp) -> (r: Vec<bool>)
    requires
        now.secs >= i64::MIN + MARKET_SCAN_JOB_TTL_HOURS * 3600,
    ensures
        r@.len() == jobs@.len(),
        forall|i: int| 0 <= i < jobs@.len() ==> r@[i] == keeps(jobs@, now, i),
{
    let limit = Stamp { secs: now.secs - MARKET_SCAN_JOB_TTL_HOURS * 3600, nanos: now.nanos };
    let n = jobs.len();
    let mut surv: Vec<bool> = Vec::new();
    let mut count: usize = 0;
    let mut i: usize = 0;
    while i < n
        invariant
            n == jobs@.len(),
            limit == expire_before(now),
            i <= n,
            count <= i,
            surv@.len() == i,
            count == survivors_in(jobs@, now, i as int),
            forall|k: int| 0 <= k < i ==> surv@[k] == survives_ttl(jobs@[k], now),
        decreases n - i,
    {
        let keep = survives(&jobs[i], limit);
        surv.push(keep);
        if keep {
            count = count + 1;
        }
        i = i + 1;
    }
    if count <= MARKET_SCAN_JOB_MAX_COUNT {
        assert forall|k: int| 0 <= k < jobs@.len() implies surv@[k] == keeps(jobs@, now, k) by {
            assert(overflow(jobs@, now) == 0);
            assert(rank_in(jobs@, now, k, jobs@.len() as int) >= 0) by {
                lemma_rank_nonneg(jobs@, now, k, jobs@.len() as int);
            }
        }
        return surv;
    }
    let extra = count - MARKET_SCAN_JOB_MAX_COUNT;
    let mut out: Vec<bool> = Vec::new();
    let mut i: usize = 0;
    while i < n
        invariant
            n == jobs@.len(),
            i <= n,
            surv@.len() == n,
            extra == overflow(jobs@, now),
            forall|k: int| 0 <= k < n ==> surv@[k] == survives_ttl(jobs@[k], now),
            out@.len() == i,
            forall|k: int| 0 <= k < i ==> out@[k] == keeps(jobs@, now, k),
        decreases n - i,
    {
        let mut keep = surv[i];
        if keep && is_finished_status(jobs[i].status) {
            let mut rank: usize = 0;
            let mut j: usize = 0;
            while j < n
                invariant
                    n == jobs@.len(),
                    i < n,
                    j <= n,
                    surv@.len() == n,
                    forall|k: int| 0 <= k < n ==> surv@[k] == survives_ttl(jobs@[k], now),
                    rank <= j,
                    rank == rank_in(jobs@, now, i as int, j as int),
                decreases n - j,
            {
                if surv[j] && is_finished_status(jobs[j].status) && before(jobs, j, i) {
                    rank = rank + 1;
                }
                j = j + 1;
            }
            if rank < extra {
                keep = false;
            }
        }
        out.push(keep);
        i = i + 1;
    }
    out
}

proof fn lemma_rank_nonneg(jobs: Seq<JobEntry>, now: Stamp, i: int, n: int)
    ensures
        rank_in(jobs, now, i, n) >= 0,
    decreases n,
{
    if n > 0 {
        lemma_rank_nonneg(jobs, now, i, n - 1);
    }
}


proof fn lemma_sorts_before_trans(jobs: Seq<JobEntry>, a: int, b: int, c: int)
    requires
        sorts_before(jobs, a, b),
        sorts_before(jobs, b, c),
    ensures
        sorts_before(jobs, a, c),
{
}

proof fn lemma_rank_monotone(jobs: Seq<JobEntry>, now: Stamp, j: int, i: int, n: int)
    requires
        0 <= j < jobs.len(),
        0 <= i < jobs.len(),
        sorts_before(jobs, j, i),
        removable(jobs, now, j),
        n <= jobs.len(),
    ensures
        rank_in(jobs, now, i, n) >= rank_in(jobs, now, j, n) + if j < n {
            1int
        } else {
            0int
        },
    decreases n,
{
    if n > 0 {
        lemma_rank_monotone(jobs, now, j, i, n - 1);
        let k = n - 1;
        if removable(jobs, now, k) && sorts_before(jobs, k, j) {
            lemma_sorts_before_trans(jobs, k, j, i);
        }
    }
}

/// Unfinished jobs are never dropped.
pub proof fn law_cleanup_keeps_unfinished(jobs: Seq<JobEntry>, now: Stamp, i: int)
    requires
        0 <= i < jobs.len(),
        !is_finished(jobs[i].status),
    ensures
        keeps(jobs, now, i),
{
}

/// A finished job that stays finished within the time to live.
pub proof fn law_cleanup_kept_finished_are_fresh(jobs: Seq<JobEntry>, now: Stamp, i: int)
    requires
        0 <= i < jobs.len(),
        is_finished(jobs[i].status),
        keeps(jobs, now, i),
    ensures
        stamp_le(expire_before(now), finish_or_created(jobs[i])),
{
}

/// When finished jobs are dropped to make room, the ones dropped sort before
/// (finished earlier than) every finished job that stays.
pub proof fn law_cleanup_drops_oldest_first(jobs: Seq<JobEntry>, now: Stamp, i: int, j: int)
    requires
        0 <= i < jobs.len(),
        0 <= j < jobs.len(),
        removable(jobs, now, i),
        !keeps(jobs, now, i),
        removable(jobs, now, j),
        keeps(jobs, now, j),
    ensures
        sorts_before(jobs, i, j),
{
    if !sorts_before(jobs, i, j) {
        assert(i != j);
        assert(sorts_before(jobs, j, i));
        lemma_rank_monotone(jobs, now, j, i, jobs.len() as int);
    }
}

/// A market-scan job as the registry records it; the finished report is
/// kept beside it.
#[derive(Debug)]
pub struct MarketScanJob {
    pub job_id: String,
    pub pattern_id: String,
    pub trade_date: Ymd,
    pub history_days: i64,
    pub refresh_remote: bool,
    pub status: MarketScanJobStatus,
    pub requested_symbols: usize,
    pub resolved_symbols: usize,
    pub completed_symbols: usize,
    pub series_count: usize,
    pub skipped_short_series: usize,
    pub signal_count: usize,
    pub failed_symbols: Vec<PatternScanFailure>,
    pub error: Option<String>,
    pub created_at: Stamp,
    pub started_at: Option<Stamp>,
    pub finished_at: Option<Stamp>,
}

/// The fields a job keeps from its creation on.
pub open spec fn same_request(a: MarketScanJob, b: MarketScanJob) -> bool {
    &&& a.job_id == b.job_id
    &&& a.pattern_id == b.pattern_id
    &&& a.trade_date == b.trade_date
    &&& a.history_days == b.history_days
    &&& a.refresh_remote == b.refresh_remote
    &&& a.created_at == b.created_at
}

/// The counters a job reports.
pub open spec fn same_counts(a: MarketScanJob, b: MarketScanJob) -> bool {
    &&& a.requested_symbols == b.requested_symbols
    &&& a.resolved_symbols == b.resolved_symbols
    &&& a.completed_symbols == b.completed_symbols
    &&& a.series_count == b.series_count
    &&& a.skipped_short_series == b.skipped_short_series
    &&& a.signal_count == b.signal_count
}

impl MarketScanJob {
    /// A job just accepted: queued, nothing counted but the symbols asked
    /// for, created at `now`.
    pub fn queued(
        job_id: String,
        pattern_id: String,
        trade_date: Ymd,
        history_days: i64,
        refresh_remote: bool,
        requested_symbols: usize,
        now: Stamp,
    ) -> (r: Self)
        ensures
            r.job_id == job_id,
            r.pattern_id == pattern_id,
            r.trade_date == trade_date,
            r.history_days == history_days,
            r.refresh_remote == refresh_remote,
            r.status == MarketScanJobStatus::Queued,
            r.requested_symbols == requested_symbols,
            r.resolved_symbols == 0,
            r.completed_symbols == 0,
            r.series_count == 0,
            r.skipped_short_series == 0,
            r.signal_count == 0,
            r.failed_symbols@.len() == 0,
            r.error is None,
            r.created_at == now,
            r.started_at is None,
            r.finished_at is None,
    {
        MarketScanJob {
            job_id,
            pattern_id,
            trade_date,
            history_days,
            refresh_remote,
            status: MarketScanJobStatus::Queued,
            requested_symbols,
            resolved_symbols: 0,
            completed_symbols: 0,
            series_count: 0,
            skipped_short_series: 0,
            signal_count: 0,
            failed_symbols: Vec::new(),
            error: None,
            created_at: now,
            started_at: None,
            finished_at: None,
        }
    }

    /// The job starts on `resolved_symbols` symbols at `now`; earlier
    /// failures and errors are cleared.
    pub fn mark_running(&mut self, resolved_symbols: usize, now: Stamp)
        ensures
            same_request(*final(self), *old(self)),
            final(self).status == MarketScanJobStatus::Running,
            final(self).resolved_symbols == resolved_symbols,
            final(self).started_at == Some(now),
            final(self).failed_symbols@.len() == 0,
            final(self).error is None,
            final(self).requested_symbols == old(self).requested_symbols,
            final(self).completed_symbols == old(self).completed_symbols,
            final(self).series_count == old(self).series_count,
            final(self).skipped_short_series == old(self).skipped_short_series,
            final(self).signal_count == old(self).signal_count,
            final(self).finished_at == old(self).finished_at,
    {
        self.status = MarketScanJobStatus::Running;
        self.resolved_symbols = resolved_symbols;
        self.started_at = Some(now);
        self.failed_symbols = Vec::new();
        self.error = None;
    }

    /// Takes over the counts of a progress report and records its failure.
    pub fn apply_progress(&mut self, progress: PatternScanProgress)
        ensures
            same_request(*final(self), *old(self)),
            final(self).status == old(self).status,
            final(self).requested_symbols == progress.requested_symbols,
            final(self).resolved_symbols == progress.requested_symbols,
            final(self).completed_symbols == progress.completed_symbols,
            final(self).series_count == progress.series_count,
            final(self).skipped_short_series == progress.skipped_short_series,
            final(self).signal_count == progress.signal_count,
            final(self).failed_symbols@ == match progress.latest_failure {
                Some(f) => old(self).failed_symbols@.push(f),
                None => old(self).failed_symbols@,
            },
            final(self).error == old(self).error,
            final(self).started_at == old(self).started_at,
            final(self).finished_at == old(self).finished_at,
    {
        self.requested_symbols = progress.requested_symbols;
        self.resolved_symbols = progress.requested_symbols;
        self.completed_symbols = progress.completed_symbols;
        self.series_count = progress.series_count;
        self.skipped_short_series = progress.skipped_short_series;
        self.signal_count = progress.signal_count;
        if let Some(failure) = progress.latest_failure {
            self.failed_symbols.push(failure);
        }
    }

    /// The scan finished with these totals at `now`: every requested symbol
    /// counts as resolved and completed.
    pub fn complete(&mut self, totals: &ScanTally, now: Stamp)
        ensures
            same_request(*final(self), *old(self)),
            final(self).status == MarketScanJobStatus::Succeeded,
            final(self).requested_symbols == totals.requested_symbols,
            final(self).resolved_symbols == totals.requested_symbols,
            final(self).completed_symbols == totals.requested_symbols,
            final(self).series_count == totals.series_count,
            final(self).skipped_short_series == totals.skipped_short_series,
            final(self).signal_count == totals.signal_count,
            final(self).failed_symbols@ == totals.failed_symbols@,
            final(self).error is None,
            final(self).started_at == old(self).started_at,
            final(self).finished_at == Some(now),
    {
        self.status = MarketScanJobStatus::Succeeded;
        self.requested_symbols = totals.requested_symbols;
        self.resolved_symbols = totals.requested_symbols;
        self.completed_symbols = totals.requested_symbols;
        self.series_count = totals.series_count;
        self.skipped_short_series = totals.skipped_short_series;
        self.signal_count = totals.signal_count;
        self.failed_symbols = clone_failures(&totals.failed_symbols);
        self.error = None;
        self.finished_at = Some(now);
    }

    /// The job failed with `error` at `now`; its counts stay as they were.
    pub fn fail(&mut self, error: String, now: Stamp)
        ensures
            same_request(*final(self), *old(self)),
            same_counts(*final(self), *old(self)),
            final(self).status == MarketScanJobStatus::Failed,
            final(self).failed_symbols@ == old(self).failed_symbols@,
            final(self).error == Some(error),
            final(self).started_at == old(self).started_at,
            final(self).finished_at == Some(now),
    {
        self.status = MarketScanJobStatus::Failed;
        self.error = Some(error);
        self.finished_at = Some(now);
    }

    /// What the cleanup policy reads of the job.
    pub fn entry(&self) -> (r: JobEntry)
        ensures
            r.status == self.status,
            r.created_at == self.created_at,
            r.finished_at == self.finished_at,
    {
        JobEntry { status: self.status, created_at: self.created_at, finished_at: self.finished_at }
    }
}

fn clone_failures(v: &Vec<PatternScanFailure>) -> (r: Vec<PatternScanFailure>)
    ensures
        r@ == v@,
{
    let mut r: Vec<PatternScanFailure> = Vec::new();
    let mut i: usize = 0;
    while i < v.len()
        invariant
            i <= v.len(),
            r@ == v@.subrange(0, i as int),
        decreases v.len() - i,
    {
        r.push(v[i].clone());
        assert(r@ =~= v@.subrange(0, i + 1));
        i = i + 1;
    }
    assert(v@.subrange(0, v.len() as int) =~= v@);
    r
}


/// How many of the first `n` jobs the cleanup keeps.
pub open spec fn kept_count(jobs: Seq<JobEntry>, now: Stamp, n: int) -> int
    decreases n,
{
    if n <= 0 {
        0
    } else {
        kept_count(jobs, now, n - 1) + if keeps(jobs, now, n - 1) {
            1int
        } else {
            0int
        }
    }
}

/// How many of the first `n` jobs are removable.
pub open spec fn removable_count(jobs: Seq<JobEntry>, now: Stamp, n: int) -> int
    decreases n,
{
    if n <= 0 {
        0
    } else {
        removable_count(jobs, now, n - 1) + if removable(jobs, now, n - 1) {
            1int
        } else {
            0int
        }
    }
}

/// How many of the first `n` jobs are removable with a rank below `t`.
pub open spec fn ranked_below(jobs: Seq<JobEntry>, now: Stamp, t: int, n: int) -> int
    decreases n,
{
    if n <= 0 {
        0
    } else {
        ranked_below(jobs, now, t, n - 1) + if removable(jobs, now, n - 1) && rank_in(
            jobs,
            now,
            n - 1,
            jobs.len() as int,
        ) < t {
            1int
        } else {
            0int
        }
    }
}

/// How many of the first `n` jobs are removable with rank exactly `t`.
pub open spec fn ranked_at(jobs: Seq<JobEntry>, now: Stamp, t: int, n: int) -> int
    decreases n,
{
    if n <= 0 {
        0
    } else {
        ranked_at(jobs, now, t, n - 1) + if removable(jobs, now, n - 1) && rank_in(
            jobs,
            now,
            n - 1,
            jobs.len() as int,
        ) == t {
            1int
        } else {
            0int
        }
    }
}

proof fn lemma_rank_below_count(jobs: Seq<JobEntry>, now: Stamp, i: int, n: int)
    requires
        0 <= i < jobs.len(),
        0 <= n <= jobs.len(),
    ensures
        rank_in(jobs, now, i, n) <= removable_count(jobs, now, n) - if i < n && removable(jobs, now, i) {
            1int
        } else {
            0int
        },
    decreases n,
{
    if n > 0 {
        lemma_rank_below_count(jobs, now, i, n - 1);
    }
}

proof fn lemma_ranks_distinct(jobs: Seq<JobEntry>, now: Stamp, a: int, b: int)
    requires
        0 <= a < jobs.len(),
        0 <= b < jobs.len(),
        a != b,
        removable(jobs, now, a),
        removable(jobs, now, b),
    ensures
        rank_in(jobs, now, a, jobs.len() as int) != rank_in(jobs, now, b, jobs.len() as int),
{
    if sorts_before(jobs, a, b) {
        lemma_rank_monotone(jobs, now, a, b, jobs.len() as int);
    } else {
        assert(sorts_before(jobs, b, a));
        lemma_rank_monotone(jobs, now, b, a, jobs.len() as int);
    }
}

proof fn lemma_ranked_at_witness(jobs: Seq<JobEntry>, now: Stamp, t: int, n: int) -> (k: int)
    requires
        0 <= n <= jobs.len(),
        ranked_at(jobs, now, t, n) >= 1,
    ensures
        0 <= k < n,
        removable(jobs, now, k),
        rank_in(jobs, now, k, jobs.len() as int) == t,
    decreases n,
{
    if removable(jobs, now, n - 1) && rank_in(jobs, now, n - 1, jobs.len() as int) == t {
        n - 1
    } else {
        lemma_ranked_at_witness(jobs, now, t, n - 1)
    }
}

proof fn lemma_ranked_at_le_one(jobs: Seq<JobEntry>, now: Stamp, t: int, n: int)
    requires
        0 <= n <= jobs.len(),
    ensures
        0 <= ranked_at(jobs, now, t, n) <= 1,
    decreases n,
{
    if n > 0 {
        lemma_ranked_at_le_one(jobs, now, t, n - 1);
        if ranked_at(jobs, now, t, n - 1) == 1 && removable(jobs, now, n - 1) && rank_in(
            jobs,
            now,
            n - 1,
            jobs.len() as int,
        ) == t {
            let k = lemma_ranked_at_witness(jobs, now, t, n - 1);
            lemma_ranks_distinct(jobs, now, k, n - 1);
        }
    }
}

proof fn lemma_ranked_below_step(jobs: Seq<JobEntry>, now: Stamp, t: int, n: int)
    requires
        0 <= n <= jobs.len(),
    ensures
        ranked_below(jobs, now, t + 1, n) == ranked_below(jobs, now, t, n) + ranked_at(jobs, now, t, n),
    decreases n,
{
    if n > 0 {
        lemma_ranked_below_step(jobs, now, t, n - 1);
    }
}

proof fn lemma_ranked_below_zero(jobs: Seq<JobEntry>, now: Stamp, n: int)
    requires
        0 <= n <= jobs.len(),
    ensures
        ranked_below(jobs, now, 0, n) == 0,
    decreases n,
{
    if n > 0 {
        lemma_ranked_below_zero(jobs, now, n - 1);
        if removable(jobs, now, n - 1) {
            lemma_rank_nonneg(jobs, now, n - 1, jobs.len() as int);
        }
    }
}

proof fn lemma_ranked_below_all(jobs: Seq<JobEntry>, now: Stamp, t: int, n: int)
    requires
        0 <= n <= jobs.len(),
        t >= removable_count(jobs, now, jobs.len() as int),
    ensures
        ranked_below(jobs, now, t, n) == removable_count(jobs, now, n),
    decreases n,
{
    if n > 0 {
        lemma_ranked_below_all(jobs, now, t, n - 1);
        lemma_rank_below_count(jobs, now, n - 1, jobs.len() as int);
    }
}

proof fn lemma_ranked_below_grows_slowly(jobs: Seq<JobEntry>, now: Stamp, t: int, u: int)
    requires
        0 <= t <= u,
    ensures
        ranked_below(jobs, now, u, jobs.len() as int) <= ranked_below(jobs, now, t, jobs.len() as int) + (u - t),
    decreases u - t,
{
    if t < u {
        lemma_ranked_below_grows_slowly(jobs, now, t, u - 1);
        lemma_ranked_below_step(jobs, now, u - 1, jobs.len() as int);
        lemma_ranked_at_le_one(jobs, now, u - 1, jobs.len() as int);
    }
}

proof fn lemma_ranked_below_exact(jobs: Seq<JobEntry>, now: Stamp, t: int)
    requires
        0 <= t <= removable_count(jobs, now, jobs.len() as int),
    ensures
        ranked_below(jobs, now, t, jobs.len() as int) == t,
    decreases t,
{
    let r = removable_count(jobs, now, jobs.len() as int);
    lemma_ranked_below_all(jobs, now, r, jobs.len() as int);
    lemma_ranked_below_grows_slowly(jobs, now, t, r);
    if t == 0 {
        lemma_ranked_below_zero(jobs, now, jobs.len() as int);
    } else {
        lemma_ranked_below_exact(jobs, now, t - 1);
        lemma_ranked_below_step(jobs, now, t - 1, jobs.len() as int);
        lemma_ranked_at_le_one(jobs, now, t - 1, jobs.len() as int);
    }
}

proof fn lemma_kept_count(jobs: Seq<JobEntry>, now: Stamp, n: int)
    requires
        0 <= n <= jobs.len(),
    ensures
        kept_count(jobs, now, n) == survivors_in(jobs, now, n) - ranked_below(jobs, now, overflow(jobs, now), n),
    decreases n,
{
    if n > 0 {
        lemma_kept_count(jobs, now, n - 1);
    }
}

/// After the cleanup at most the maximum number of jobs stays listed,
/// unless every job that stays is unfinished (and so could not be dropped).
pub proof fn law_cleanup_bounds_registry(jobs: Seq<JobEntry>, now: Stamp)
    ensures
        kept_count(jobs, now, jobs.len() as int) <= MARKET_SCAN_JOB_MAX_COUNT || forall|i: int|
            0 <= i < jobs.len() && #[trigger] keeps(jobs, now, i) ==> !is_finished(jobs[i].status),
{
    let n = jobs.len() as int;
    let r = removable_count(jobs, now, n);
    let o = overflow(jobs, now);
    lemma_kept_count(jobs, now, n);
    if exists|i: int| 0 <= i < jobs.len() && #[trigger] keeps(jobs, now, i) && is_finished(jobs[i].status) {
        let i = choose|i: int| 0 <= i < jobs.len() && #[trigger] keeps(jobs, now, i) && is_finished(jobs[i].status);
        lemma_rank_below_count(jobs, now, i, n);
        assert(o <= r);
        lemma_ranked_below_exact(jobs, now, o);
        if o == 0 {
            assert(survivors_in(jobs, now, n) <= MARKET_SCAN_JOB_MAX_COUNT);
        }
    }
}


/// Each status is reported under its own name, and no two statuses share one.
pub proof fn law_status_labels(a: MarketScanJobStatus, b: MarketScanJobStatus)
    ensures
        status_label(MarketScanJobStatus::Queued) == "queued"@,
        status_label(MarketScanJobStatus::Running) == "running"@,
        status_label(MarketScanJobStatus::Succeeded) == "succeeded"@,
        status_label(MarketScanJobStatus::Failed) == "failed"@,
        status_label(a) == status_label(b) ==> a == b,
{
    reveal_strlit("queued");
    reveal_strlit("running");
    reveal_strlit("succeeded");
    reveal_strlit("failed");
    assert("queued"@ =~= seq!['q', 'u', 'e', 'u', 'e', 'd']);
    assert("running"@ =~= seq!['r', 'u', 'n', 'n', 'i', 'n', 'g']);
    assert("succeeded"@ =~= seq!['s', 'u', 'c', 'c', 'e', 'e', 'd', 'e', 'd']);
    assert("failed"@ =~= seq!['f', 'a', 'i', 'l', 'e', 'd']);
    if status_label(a) == status_label(b) {
        assert(status_label(a)[0] == status_label(b)[0]);
        assert(status_label(a).len() == status_label(b).len());
    }
}

} // verus!
