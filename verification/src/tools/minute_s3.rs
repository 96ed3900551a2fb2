//! One-minute bars into Parquet parts in an object store: the settings a
//! run resolves, the part keys, and the part numbers each partition has
//! handed out.
use vstd::prelude::*;
use crate::ingest::MinuteS3Config;
use crate::text::{chars_of, padded_decimal, string_of, vec_eq, zero_padded};

verus! {

/// Arguments of the object-store minute import.
#[derive(Debug)]
pub struct Args {
    /// The TOML settings file.
    pub config_file: String,
    /// Root directory of the minute zip/csv files.
    pub input_dir: String,
    /// Most rows in one part; the settings file's value when absent.
    pub part_size: Option<usize>,
    /// Parts uploaded at once; the settings file's value when absent.
    pub upload_concurrency: Option<usize>,
    /// The file that lists the sources already imported; the settings
    /// file's value when absent.
    pub manifest_file: Option<String>,
}

/// What a run goes by once the arguments and the settings file are merged.
#[derive(Debug)]
pub struct RunSettings {
    pub part_size: usize,
    pub upload_concurrency: usize,
    pub manifest_file: String,
}

/// Why a run was refused before it started.
#[derive(Debug, Clone, Copy, PartialEq, Eq, Structural)]
pub enum SettingsError {
    /// The part size came out zero.
    ZeroPartSize,
    /// The upload concurrency came out zero.
    ZeroUploadConcurrency,
}

/// The value given on the command line, else the settings file's.
pub open spec fn given_or<T>(given: Option<T>, fallback: T) -> T {
    match given {
        Some(v) => v,
        None => fallback,
    }
}

/// Merges the arguments into the settings file's values; a zero part size
/// is refused first, then a zero upload concurrency.
pub fn resolve_settings(args: &Args, config: &MinuteS3Config) -> (r: Result<RunSettings, SettingsError>)
    ensures
        given_or(args.part_size, config.part_size) == 0 ==> r == Err::<RunSettings, SettingsError>(
            SettingsError::ZeroPartSize,
        ),
        given_or(args.part_size, config.part_size) > 0 && given_or(args.upload_concurrency, config.upload_concurrency)
            == 0 ==> r == Err::<RunSettings, SettingsError>(SettingsError::ZeroUploadConcurrency),
        r is Ok <==> given_or(args.part_size, config.part_size) > 0 && given_or(
            args.upload_concurrency,
            config.upload_concurrency,
        ) > 0,
        r matches Ok(s) ==> s.part_size == given_or(args.part_size, config.part_size) && s.upload_concurrency
            == given_or(args.upload_concurrency, config.upload_concurrency) && s.manifest_file@ == given_or(
            args.manifest_file,
            config.manifest_file,
        )@,
{
    let part_size = match args.part_size {
        Some(v) => v,
        None => config.part_size,
    };
    let upload_concurrency = match args.upload_concurrency {
        Some(v) => v,
        None => config.upload_concurrency,
    };
    let manifest_file = match &args.manifest_file {
        Some(f) => string_of(&chars_of(f.as_str())),
        None => string_of(&chars_of(config.manifest_file.as_str())),
    };
    if part_size == 0 {
        return Err(SettingsError::ZeroPartSize);
    }
    if upload_concurrency == 0 {
        return Err(SettingsError::ZeroUploadConcurrency);
    }
    Ok(RunSettings { part_size, upload_concurrency, manifest_file })
}

/// `curated/minute_bars_1m/trade_date=<date>/exchange=<exchange>/part-<n, six digits>.parquet`.
pub open spec fn part_key_spec(trade_date: Seq<char>, exchange: Seq<char>, part: nat) -> Seq<char> {
    "curated/minute_bars_1m/trade_date="@ + trade_date + "/exchange="@ + exchange + "/part-"@ + zero_padded(part, 6)
        + ".parquet"@
}

/// The object key of the `part`-th part of a trade date's bars of one exchange.
pub fn minute_s3_part_key(trade_date: &str, exchange: &str, part: usize) -> (r: String)
    ensures
        r@ == part_key_spec(trade_date@, exchange@, part as nat),
{
    let mut s = String::from_str("curated/minute_bars_1m/trade_date=");
    s.append(trade_date);
    s.append("/exchange=");
    s.append(exchange);
    s.append("/part-");
    let digits = string_of(&padded_decimal(part as u64, 6));
    s.append(digits.as_str());
    s.append(".parquet");
    s
}

/// How many parts each (trade date, exchange) partition has handed out,
/// across all source files of a run.
pub struct PartCounters {
    dates: Vec<Vec<char>>,
    exchanges: Vec<Vec<char>>,
    next: Vec<usize>,
}

impl PartCounters {
    /// Each partition is counted in one place.
    pub closed spec fn wf(&self) -> bool {
        &&& self.dates.len() == self.exchanges.len() == self.next.len()
        &&& forall|i: int, j: int|
            0 <= i < j < self.dates.len() ==> !(#[trigger] self.dates@[i]@ == #[trigger] self.dates@[j]@
                && self.exchanges@[i]@ == self.exchanges@[j]@)
    }

    spec fn slot(&self, d: Seq<char>, e: Seq<char>, i: int) -> bool {
        0 <= i < self.dates.len() && self.dates@[i]@ == d && self.exchanges@[i]@ == e
    }

    /// The number the partition's next part gets: how many it has had.
    pub closed spec fn next_part(&self, d: Seq<char>, e: Seq<char>) -> nat {
        if exists|i: int| #[trigger] self.slot(d, e, i) {
            self.next@[choose|i: int| #[trigger] self.slot(d, e, i)] as nat
        } else {
            0
        }
    }

    /// No partition has had a part yet.
    pub fn new() -> (r: PartCounters)
        ensures
            r.wf(),
            forall|d: Seq<char>, e: Seq<char>| #[trigger] r.next_part(d, e) == 0,
    {
        PartCounters { dates: Vec::new(), exchanges: Vec::new(), next: Vec::new() }
    }

    fn find(&self, d: &Vec<char>, e: &Vec<char>) -> (r: Option<usize>)
        requires
            self.wf(),
        ensures
            match r {
                Some(i) => self.slot(d@, e@, i as int),
                None => !exists|i: int| #[trigger] self.slot(d@, e@, i),
            },
    {
        let mut i: usize = 0;
        while i < self.dates.len()
            invariant
                self.wf(),
                i <= self.dates.len(),
                forall|k: int| 0 <= k < i ==> !#[trigger] self.slot(d@, e@, k),
            decreases self.dates.len() - i,
        {
            if vec_eq(&self.dates[i], d) && vec_eq(&self.exchanges[i], e) {
                return Some(i);
            }
            i = i + 1;
        }
        None
    }

    proof fn lemma_slot_unique(&self, d: Seq<char>, e: Seq<char>, i: int)
        requires
            self.wf(),
            self.slot(d, e, i),
        ensures
            self.next_part(d, e) == self.next@[i],
    {
        let j = choose|j: int| #[trigger] self.slot(d, e, j);
        if j < i {
            assert(self.dates@[j]@ == self.dates@[i]@);
        } else if i < j {
            assert(self.dates@[i]@ == self.dates@[j]@);
        }
    }

    /// The number the partition's next part gets, without handing it out.
    pub fn peek(&self, trade_date: &str, exchange: &str) -> (r: usize)
        requires
            self.wf(),
        ensures
            r == self.next_part(trade_date@, exchange@),
    {
        let d = chars_of(trade_date);
        let e = chars_of(exchange);
        match self.find(&d, &e) {
            Some(i) => {
                proof {
                    self.lemma_slot_unique(d@, e@, i as int);
                }
                self.next[i]
            },
            None => 0,
        }
    }

    /// Hands out the partition's next part number; the partition's count
    /// goes up by one and no other partition's changes.
    pub fn take_next(&mut self, trade_date: &str, exchange: &str) -> (r: usize)
        requires
            old(self).wf(),
            old(self).next_part(trade_date@, exchange@) < usize::MAX,
        ensures
            final(self).wf(),
            r == old(self).next_part(trade_date@, exchange@),
            final(self).next_part(trade_date@, exchange@) == r + 1,
            forall|d: Seq<char>, e: Seq<char>|
                !(d == trade_date@ && e == exchange@) ==> #[trigger] final(self).next_part(d, e) == old(
                    self,
                ).next_part(d, e),
    {
        let d = chars_of(trade_date);
        let e = chars_of(exchange);
        let ghost prev = *self;
        match self.find(&d, &e) {
            Some(i) => {
                proof {
                    prev.lemma_slot_unique(d@, e@, i as int);
                }
                let n = self.next[i];
                self.next.set(i, n + 1);
                proof {
                    assert(self.slot(d@, e@, i as int));
                    self.lemma_slot_unique(d@, e@, i as int);
                    assert forall|d2: Seq<char>, e2: Seq<char>| !(d2 == trade_date@ && e2 == exchange@) implies
                        #[trigger] self.next_part(d2, e2) == prev.next_part(d2, e2) by {
                        if exists|k: int| #[trigger] prev.slot(d2, e2, k) {
                            let k = choose|k: int| #[trigger] prev.slot(d2, e2, k);
                            assert(self.slot(d2, e2, k));
                            prev.lemma_slot_unique(d2, e2, k);
                            self.lemma_slot_unique(d2, e2, k);
                        } else {
                            assert forall|k: int| !#[trigger] self.slot(d2, e2, k) by {
                                if self.slot(d2, e2, k) {
                                    assert(prev.slot(d2, e2, k));
                                }
                            }
                        }
                    }
                }
                n
            },
            None => {
                self.dates.push(d);
                self.exchanges.push(e);
                self.next.push(1);
                proof {
                    let last = prev.dates.len() as int;
                    assert(self.slot(trade_date@, exchange@, last));
                    assert forall|i: int, j: int| 0 <= i < j < self.dates.len() implies !(
                    #[trigger] self.dates@[i]@ == #[trigger] self.dates@[j]@ && self.exchanges@[i]@
                        == self.exchanges@[j]@) by {
                        if j == last {
                            assert(!prev.slot(trade_date@, exchange@, i));
                        } else {
                            assert(prev.dates@[i] == self.dates@[i] && prev.dates@[j] == self.dates@[j]);
                        }
                    }
                    self.lemma_slot_unique(trade_date@, exchange@, last);
                    assert forall|d2: Seq<char>, e2: Seq<char>| !(d2 == trade_date@ && e2 == exchange@) implies
                        #[trigger] self.next_part(d2, e2) == prev.next_part(d2, e2) by {
                        if exists|k: int| #[trigger] prev.slot(d2, e2, k) {
                            let k = choose|k: int| #[trigger] prev.slot(d2, e2, k);
                            assert(self.slot(d2, e2, k));
                            prev.lemma_slot_unique(d2, e2, k);
                            self.lemma_slot_unique(d2, e2, k);
                        } else {
                            assert forall|k: int| !#[trigger] self.slot(d2, e2, k) by {
                                if self.slot(d2, e2, k) && k < last {
                                    assert(prev.slot(d2, e2, k));
                                }
                            }
                        }
                    }
                }
                0
            },
        }
    }
}

} // verus!
