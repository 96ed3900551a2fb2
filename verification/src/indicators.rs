//! Indicator column names and the period lists they are computed for.
use vstd::prelude::*;
use crate::text::{decimal, extend_chars, string_of, str_with_number, decimal_u64};

verus! {

pub open spec fn dec(n: usize) -> Seq<char> {
    decimal(n as nat)
}

fn name1(lit: &str, a: usize) -> (r: String)
    ensures
        r@ == lit@ + dec(a),
{
    let v = str_with_number(lit, a as u64);
    string_of(&v)
}

fn name_more(lit: &str, parts: &Vec<usize>) -> (r: String)
    requires
        parts.len() >= 1,
    ensures
        r@ == lit@ + joined_numbers(parts@),
{
    let mut v = str_with_number(lit, parts[0] as u64);
    let mut i: usize = 1;
    while i < parts.len()
        invariant
            1 <= i <= parts.len(),
            v@ == lit@ + joined_numbers(parts@.subrange(0, i as int)),
        decreases parts.len() - i,
    {
        v.push('_');
        let d = decimal_u64(parts[i] as u64);
        extend_chars(&mut v, &d);
        proof {
            let s = parts@.subrange(0, i + 1);
            assert(s.drop_last() =~= parts@.subrange(0, i as int));
            assert(s.last() == parts@[i as int]);
        }
        i = i + 1;
    }
    assert(parts@.subrange(0, parts.len() as int) =~= parts@);
    string_of(&v)
}

/// Numbers written in decimal and joined by `_`.
pub open spec fn joined_numbers(s: Seq<usize>) -> Seq<char>
    decreases s.len(),
{
    if s.len() <= 1 {
        if s.len() == 0 {
            Seq::empty()
        } else {
            dec(s[0])
        }
    } else {
        joined_numbers(s.drop_last()) + seq!['_'] + dec(s.last())
    }
}

/// `ma_<period>`.
pub fn ma_column_name(period: usize) -> (r: String)
    ensures
        r@ == "ma_"@ + dec(period),
{
    name1("ma_", period)
}

/// `volume_ma_<period>`.
pub fn volume_ma_column_name(period: usize) -> (r: String)
    ensures
        r@ == "volume_ma_"@ + dec(period),
{
    name1("volume_ma_", period)
}

/// `macd_dif_<fast>_<slow>`.
pub fn macd_dif_column_name(fast: usize, slow: usize) -> (r: String)
    ensures
        r@ == "macd_dif_"@ + joined_numbers(seq![fast, slow]),
{
    name_more("macd_dif_", &vec![fast, slow])
}

/// `macd_dea_<fast>_<slow>_<signal>`.
pub fn macd_dea_column_name(fast: usize, slow: usize, signal: usize) -> (r: String)
    ensures
        r@ == "macd_dea_"@ + joined_numbers(seq![fast, slow, signal]),
{
    name_more("macd_dea_", &vec![fast, slow, signal])
}

/// `macd_hist_<fast>_<slow>_<signal>`.
pub fn macd_hist_column_name(fast: usize, slow: usize, signal: usize) -> (r: String)
    ensures
        r@ == "macd_hist_"@ + joined_numbers(seq![fast, slow, signal]),
{
    name_more("macd_hist_", &vec![fast, slow, signal])
}

/// `k_<n>_<k_period>_<d_period>`.
pub fn k_column_name(n: usize, k_period: usize, d_period: usize) -> (r: String)
    ensures
        r@ == "k_"@ + joined_numbers(seq![n, k_period, d_period]),
{
    name_more("k_", &vec![n, k_period, d_period])
}

/// `d_<n>_<k_period>_<d_period>`.
pub fn d_column_name(n: usize, k_period: usize, d_period: usize) -> (r: String)
    ensures
        r@ == "d_"@ + joined_numbers(seq![n, k_period, d_period]),
{
    name_more("d_", &vec![n, k_period, d_period])
}

/// `j_<n>_<k_period>_<d_period>`.
pub fn j_column_name(n: usize, k_period: usize, d_period: usize) -> (r: String)
    ensures
        r@ == "j_"@ + joined_numbers(seq![n, k_period, d_period]),
{
    name_more("j_", &vec![n, k_period, d_period])
}

/// `boll_mid_<period>`.
pub fn boll_mid_column_name(period: usize) -> (r: String)
    ensures
        r@ == "boll_mid_"@ + dec(period),
{
    name1("boll_mid_", period)
}

/// `rsi_<period>`.
pub fn rsi_column_name(period: usize) -> (r: String)
    ensures
        r@ == "rsi_"@ + dec(period),
{
    name1("rsi_", period)
}

/// `short_trend_<fast>_<smooth>`.
pub fn short_trend_column_name(fast: usize, smooth: usize) -> (r: String)
    ensures
        r@ == "short_trend_"@ + joined_numbers(seq![fast, smooth]),
{
    name_more("short_trend_", &vec![fast, smooth])
}

/// `bull_bear_line_<a>_<b>_<c>_<d>`.
pub fn bull_bear_line_column_name(periods: [usize; 4]) -> (r: String)
    ensures
        r@ == "bull_bear_line_"@ + joined_numbers(periods@),
{
    let v = vec![periods[0], periods[1], periods[2], periods[3]];
    assert(v@ =~= periods@);
    name_more("bull_bear_line_", &v)
}


pub open spec fn strictly_increasing(s: Seq<usize>) -> bool {
    forall|i: int, j: int| 0 <= i < j < s.len() ==> s[i] < s[j]
}

/// `out` lists the positive periods of `input` once each, smallest first:
/// what `retain(> 0)`, `sort_unstable` and `dedup` leave.
pub open spec fn periods_normalized(out: Seq<usize>, input: Seq<usize>) -> bool {
    &&& strictly_increasing(out)
    &&& forall|x: usize| out.contains(x) <==> (input.contains(x) && x > 0)
}

/// Inserts `x` into a strictly increasing list unless it is already there.
fn insert_sorted(v: &mut Vec<usize>, x: usize)
    requires
        strictly_increasing(old(v)@),
    ensures
        strictly_increasing(final(v)@),
        forall|y: usize| final(v)@.contains(y) ==> (old(v)@.contains(y) || y == x),
        forall|y: usize| (old(v)@.contains(y) || y == x) ==> final(v)@.contains(y),
{
    let mut i: usize = 0;
    while i < v.len() && v[i] < x
        invariant
            i <= v.len(),
            v@ == old(v)@,
            strictly_increasing(v@),
            forall|j: int| 0 <= j < i ==> v@[j] < x,
        decreases v.len() - i,
    {
        i = i + 1;
    }
    if i < v.len() && v[i] == x {
        assert(v@.contains(x)) by {
            assert(v@[i as int] == x);
        }
        assert(forall|y: usize| (old(v)@.contains(y) || y == x) ==> v@.contains(y));
        return;
    }
    let ghost before = v@;
    v.insert(i, x);
    proof {
        assert(v@ =~= before.subrange(0, i as int).push(x) + before.subrange(i as int, before.len() as int));
        assert(before == old(v)@);
        assert forall|y: usize| #[trigger] v@.contains(y) implies (old(v)@.contains(y) || y == x) by {
            let k = choose|k: int| 0 <= k < v@.len() && v@[k] == y;
            if k < i {
                assert(before[k] == y);
            } else if k > i {
                assert(before[k - 1] == y);
            }
        }
        assert forall|y: usize| (old(v)@.contains(y) || y == x) implies #[trigger] v@.contains(y) by {
            if before.contains(y) {
                let k = choose|k: int| 0 <= k < before.len() && before[k] == y;
                if k < i {
                    assert(v@[k] == y);
                } else {
                    assert(v@[k + 1] == y);
                }
            }
            if y == x {
                assert(v@[i as int] == x);
            }
        }
    }
}

/// Keeps the positive periods, sorted ascending, each once.
pub fn normalize_periods(periods: &mut Vec<usize>)
    ensures
        periods_normalized(final(periods)@, old(periods)@),
{
    let input = periods.clone();
    let mut out: Vec<usize> = Vec::new();
    let mut i: usize = 0;
    while i < input.len()
        invariant
            i <= input.len(),
            strictly_increasing(out@),
            forall|x: usize|
                out@.contains(x) <==> (input@.subrange(0, i as int).contains(x) && x > 0),
        decreases input.len() - i,
    {
        let x = input[i];
        if x > 0 {
            insert_sorted(&mut out, x);
        }
        proof {
            let s = input@.subrange(0, i + 1);
            assert forall|y: usize| s.contains(y) <==> (input@.subrange(0, i as int).contains(y) || y == x) by {
                if s.contains(y) {
                    let k = choose|k: int| 0 <= k < s.len() && s[k] == y;
                    if k < i {
                        assert(input@.subrange(0, i as int)[k] == y);
                    }
                }
                if input@.subrange(0, i as int).contains(y) {
                    let k = choose|k: int| 0 <= k < i && input@.subrange(0, i as int)[k] == y;
                    assert(s[k] == y);
                }
                if y == x {
                    assert(s[i as int] == x);
                }
            }
        }
        i = i + 1;
    }
    assert(input@.subrange(0, input.len() as int) =~= input@);
    *periods = out;
}

/// The positive periods of a list, sorted ascending, each once.
pub fn normalized_periods(periods: &[usize]) -> (r: Vec<usize>)
    ensures
        periods_normalized(r@, periods@),
{
    let mut v = vstd::slice::slice_to_vec(periods);
    normalize_periods(&mut v);
    v
}

proof fn lemma_increasing_unique(a: Seq<usize>, b: Seq<usize>)
    requires
        strictly_increasing(a),
        strictly_increasing(b),
        forall|x: usize| a.contains(x) <==> b.contains(x),
    ensures
        a == b,
    decreases a.len() + b.len(),
{
    if a.len() == 0 {
        if b.len() > 0 {
            assert(b.contains(b[0]));
        }
        assert(a =~= b);
    } else if b.len() == 0 {
        assert(a.contains(a[0]));
    } else {
        assert(a.contains(a.last()));
        assert(b.contains(b.last()));
        let ka = choose|k: int| 0 <= k < b.len() && b[k] == a.last();
        let kb = choose|k: int| 0 <= k < a.len() && a[k] == b.last();
        assert(a.last() == b.last());
        assert forall|x: usize| a.drop_last().contains(x) <==> b.drop_last().contains(x) by {
            if a.drop_last().contains(x) {
                let k = choose|k: int| 0 <= k < a.len() - 1 && a[k] == x;
                assert(a.contains(x));
                let j = choose|j: int| 0 <= j < b.len() && b[j] == x;
                assert(j != b.len() - 1);
                assert(b.drop_last()[j] == x);
            }
            if b.drop_last().contains(x) {
                let k = choose|k: int| 0 <= k < b.len() - 1 && b[k] == x;
                assert(b.contains(x));
                let j = choose|j: int| 0 <= j < a.len() && a[j] == x;
                assert(j != a.len() - 1);
                assert(a.drop_last()[j] == x);
            }
        }
        lemma_increasing_unique(a.drop_last(), b.drop_last());
        assert(a =~= a.drop_last().push(a.last()));
        assert(b =~= b.drop_last().push(b.last()));
    }
}

/// Normalising a period list is determined by its set of positive periods,
/// and normalising twice changes nothing.
pub proof fn law_normalized_periods_idempotent(input: Seq<usize>, once: Seq<usize>, twice: Seq<usize>)
    requires
        periods_normalized(once, input),
        periods_normalized(twice, once),
    ensures
        twice == once,
{
    assert forall|x: usize| twice.contains(x) <==> once.contains(x) by {
        if once.contains(x) {
            assert(x > 0);
        }
    }
    lemma_increasing_unique(twice, once);
}

/// Two lists with the same positive periods normalise to the same list.
pub proof fn law_normalized_periods_unique(input: Seq<usize>, a: Seq<usize>, b: Seq<usize>)
    requires
        periods_normalized(a, input),
        periods_normalized(b, input),
    ensures
        a == b,
{
    lemma_increasing_unique(a, b);
}

} // verus!
