//! Decisions of the TDX fallback source: which market a symbol is asked
//! on, when paging back through a symbol's bars stops, which of the bars
//! fetched are kept and in what order, and the times the kept bars carry.
use vstd::prelude::*;
use vstd::string::StringSliceAdditionalSpecFns;
use vstd::utf8::encode_utf8;
use crate::dates::{
    date_from_ymd, date_le, format_date, formatted_date, parse_date, parsed_date, valid_ymd, Ymd,
};
use crate::symbols::{rsplit_dot, two};
use crate::text::{
    chars_of, extend_chars, extend_str, find_last, lemma_last_pos, padded_decimal,
    slice_of, string_of, upper_seq, upper_vec, zero_padded,
};

verus! {

/// The markets the TDX servers know.
#[derive(Debug, Clone, Copy, PartialEq, Eq, Structural)]
pub enum TdxMarket {
    Shenzhen,
    Shanghai,
    Beijing,
}

/// The market, code and upper-case exchange of `code.exchange`.
pub open spec fn tdx_symbol_spec(symbol: Seq<char>) -> Option<(TdxMarket, Seq<char>, Seq<char>)> {
    match rsplit_dot(symbol) {
        None => None,
        Some(parts) => {
            let ex = upper_seq(parts.1);
            if ex == two('S', 'Z') {
                Some((TdxMarket::Shenzhen, parts.0, ex))
            } else if ex == two('S', 'H') {
                Some((TdxMarket::Shanghai, parts.0, ex))
            } else if ex == two('B', 'J') {
                Some((TdxMarket::Beijing, parts.0, ex))
            } else {
                None
            }
        },
    }
}

/// Reads `code.exchange` for the TDX servers; `None` for another exchange.
pub fn parse_tdx_symbol(symbol: &str) -> (r: Option<(TdxMarket, String, String)>)
    ensures
        match tdx_symbol_spec(symbol@) {
            Some(t) => (r matches Some((m, c, e)) && m == t.0 && c@ == t.1 && e@ == t.2),
            None => r is None,
        },
{
    let v = chars_of(symbol);
    proof {
        lemma_last_pos(v@, '.');
    }
    let k = match find_last(&v, '.') {
        Some(k) => k,
        None => return None,
    };
    let code = slice_of(&v, 0, k);
    let ex0 = slice_of(&v, k + 1, v.len());
    let ex = upper_vec(&ex0);
    let market = if ex.len() == 2 && ex[0] == 'S' && ex[1] == 'Z' {
        TdxMarket::Shenzhen
    } else if ex.len() == 2 && ex[0] == 'S' && ex[1] == 'H' {
        TdxMarket::Shanghai
    } else if ex.len() == 2 && ex[0] == 'B' && ex[1] == 'J' {
        TdxMarket::Beijing
    } else {
        proof {
            assert(ex@ != two('S', 'Z') && ex@ != two('S', 'H') && ex@ != two('B', 'J'));
        }
        return None;
    };
    proof {
        assert(ex@ =~= two(ex@[0], ex@[1]));
    }
    Some((market, string_of(&code), string_of(&ex)))
}

/// Where paging back through a symbol's bars goes next: the offset after
/// this page, or `None` when the page was empty, reached the start date,
/// or came back short.
pub fn next_page(offset: u32, fetched: u32, reached_start: bool, page_size: u32) -> (r: Option<u32>)
    requires
        offset + fetched <= u32::MAX,
    ensures
        (fetched == 0 || reached_start || fetched < page_size) ==> r is None,
        !(fetched == 0 || reached_start || fetched < page_size) ==> r == Some((offset + fetched) as u32),
{
    if fetched == 0 || reached_start || fetched < page_size {
        None
    } else {
        Some(offset + fetched)
    }
}

/// The sort key of a bar: year, month, day, hour, minute.
pub type BarKey = (i32, u32, u32, u32, u32);

/// Keys in tuple order.
pub open spec fn bar_key_lt(a: BarKey, b: BarKey) -> bool {
    ||| a.0 < b.0
    ||| (a.0 == b.0 && a.1 < b.1)
    ||| (a.0 == b.0 && a.1 == b.1 && a.2 < b.2)
    ||| (a.0 == b.0 && a.1 == b.1 && a.2 == b.2 && a.3 < b.3)
    ||| (a.0 == b.0 && a.1 == b.1 && a.2 == b.2 && a.3 == b.3 && a.4 < b.4)
}

fn key_lt(a: BarKey, b: BarKey) -> (r: bool)
    ensures
        r == bar_key_lt(a, b),
{
    a.0 < b.0 || (a.0 == b.0 && a.1 < b.1) || (a.0 == b.0 && a.1 == b.1 && a.2 < b.2) || (a.0 == b.0
        && a.1 == b.1 && a.2 == b.2 && a.3 < b.3) || (a.0 == b.0 && a.1 == b.1 && a.2 == b.2 && a.3
        == b.3 && a.4 < b.4)
}

/// No earlier bar has the same key.
pub open spec fn first_of_key(keys: Seq<BarKey>, i: int) -> bool {
    forall|j: int| 0 <= j < i ==> #[trigger] keys[j] != keys[i]
}

/// The bars kept of those fetched, by position: sorted by key (stably),
/// and of bars with equal keys the first listed.
pub fn sort_dedup_bars(keys: &[BarKey]) -> (r: Vec<usize>)
    ensures
        forall|k: int| 0 <= k < r.len() ==> r@[k] < keys.len() && first_of_key(keys@, #[trigger] r@[k] as int),
        forall|i: int| 0 <= i < keys.len() && first_of_key(keys@, i) ==> r@.contains(i as usize),
        forall|a: int, b: int|
            0 <= a < b < r.len() ==> bar_key_lt(keys@[#[trigger] r@[a] as int], keys@[#[trigger] r@[b] as int]),
{
    let n = keys.len();
    let mut out: Vec<usize> = Vec::new();
    let mut i: usize = 0;
    while i < n
        invariant
            i <= n == keys.len(),
            forall|k: int| 0 <= k < out.len() ==> out@[k] < i && first_of_key(keys@, #[trigger] out@[k] as int),
            forall|x: int| 0 <= x < i && first_of_key(keys@, x) ==> out@.contains(x as usize),
            forall|a: int, b: int|
                0 <= a < b < out.len() ==> bar_key_lt(keys@[#[trigger] out@[a] as int], keys@[#[trigger] out@[b] as int]),
        decreases n - i,
    {
        let ki = keys[i];
        let mut first = true;
        let mut j: usize = 0;
        while j < i
            invariant
                j <= i < n == keys.len(),
                ki == keys@[i as int],
                first == forall|m: int| 0 <= m < j ==> #[trigger] keys@[m] != keys@[i as int],
            decreases i - j,
        {
            let kj = keys[j];
            if kj.0 == ki.0 && kj.1 == ki.1 && kj.2 == ki.2 && kj.3 == ki.3 && kj.4 == ki.4 {
                first = false;
            }
            j = j + 1;
        }
        if first {
            let mut p: usize = 0;
            while p < out.len() && !key_lt(ki, keys[out[p]])
                invariant
                    p <= out.len(),
                    i < n == keys.len(),
                    ki == keys@[i as int],
                    forall|k: int| 0 <= k < out.len() ==> out@[k] < i,
                    forall|k: int| 0 <= k < p ==> !bar_key_lt(ki, keys@[#[trigger] out@[k] as int]),
                decreases out.len() - p,
            {
                p = p + 1;
            }
            let ghost before = out@;
            out.insert(p, i);
            proof {
                assert(out@ =~= before.insert(p as int, i));
                assert forall|k: int| 0 <= k < p implies bar_key_lt(keys@[#[trigger] before[k] as int], ki) by {
                    let o = before[k] as int;
                    assert(o < i);
                    assert(keys@[o] != keys@[i as int]);
                }
                assert forall|a: int, b: int| 0 <= a < b < out.len() implies bar_key_lt(
                    keys@[#[trigger] out@[a] as int],
                    keys@[#[trigger] out@[b] as int],
                ) by {
                    if b < p {
                        assert(out@[a] == before[a] && out@[b] == before[b]);
                    } else if b == p {
                        assert(out@[a] == before[a]);
                    } else if a < p {
                        assert(out@[a] == before[a] && out@[b] == before[b - 1]);
                        if b - 1 > p {
                            assert(bar_key_lt(keys@[before[p as int] as int], keys@[before[b - 1] as int]));
                        }
                    } else if a == p {
                        assert(out@[b] == before[b - 1]);
                        if b - 1 > p {
                            assert(bar_key_lt(keys@[before[p as int] as int], keys@[before[b - 1] as int]));
                        }
                    } else {
                        assert(out@[a] == before[a - 1] && out@[b] == before[b - 1]);
                    }
                }
                assert forall|x: int| 0 <= x < i + 1 && first_of_key(keys@, x) implies out@.contains(x as usize) by {
                    if x < i {
                        let k = choose|k: int| 0 <= k < before.len() && before[k] == x as usize;
                        if k < p {
                            assert(out@[k] == x as usize);
                        } else {
                            assert(out@[k + 1] == x as usize);
                        }
                    } else {
                        assert(out@[p as int] == i);
                    }
                }
                assert forall|k: int| 0 <= k < out.len() implies out@[k] < i + 1 && first_of_key(
                    keys@,
                    #[trigger] out@[k] as int,
                ) by {
                    if k < p {
                        assert(out@[k] == before[k]);
                    } else if k > p {
                        assert(out@[k] == before[k - 1]);
                    }
                }
            }
        } else {
            proof {
                assert forall|x: int| 0 <= x < i + 1 && first_of_key(keys@, x) implies out@.contains(x as usize) by {
                    if x == i {
                        let m = choose|m: int| 0 <= m < i && #[trigger] keys@[m] == keys@[i as int];
                        assert(keys@[m] != keys@[x]);
                    }
                }
            }
        }
        i = i + 1;
    }
    out
}

/// The calendar day of a bar, when it exists and lies from `start` to `end`.
pub open spec fn bar_day_spec(year: u32, month: u32, day: u32, start: Ymd, end: Ymd) -> Option<Ymd> {
    let d = Ymd { year: year as i32, month, day };
    if valid_ymd(year as i32 as int, month as int, day as int) && date_le(start, d) && date_le(d, end) {
        Some(d)
    } else {
        None
    }
}

fn ymd_le(a: Ymd, b: Ymd) -> (r: bool)
    ensures
        r == date_le(a, b),
{
    a.year < b.year || (a.year == b.year && (a.month < b.month || (a.month == b.month && a.day
        <= b.day)))
}

/// The day a fallback bar is kept under, if any.
pub fn bar_day_in_range(year: u32, month: u32, day: u32, start: Ymd, end: Ymd) -> (r: Option<Ymd>)
    ensures
        r == bar_day_spec(year, month, day, start, end),
{
    match date_from_ymd(year as i32, month, day) {
        Some(d) => if ymd_le(start, d) && ymd_le(d, end) {
            Some(d)
        } else {
            None
        },
        None => None,
    }
}

/// `<YYYY-MM-DD> <HH>:<MM>:00`, the time a fallback minute bar carries.
pub open spec fn minute_time_text(date: Ymd, hour: u32, minute: u32) -> Seq<char> {
    formatted_date(date.year, date.month, date.day, "%Y-%m-%d"@) + " "@ + zero_padded(hour as nat, 2)
        + ":"@ + zero_padded(minute as nat, 2) + ":00"@
}

/// The time of a fallback minute bar.
pub fn tdx_minute_time(date: Ymd, hour: u32, minute: u32) -> (r: String)
    requires
        crate::dates::valid_date(date),
    ensures
        r@ == minute_time_text(date, hour, minute),
{
    let d = format_date(date, "%Y-%m-%d");
    let mut v = chars_of(d.as_str());
    extend_str(&mut v, " ");
    let h = padded_decimal(hour as u64, 2);
    extend_chars(&mut v, &h);
    extend_str(&mut v, ":");
    let m = padded_decimal(minute as u64, 2);
    extend_chars(&mut v, &m);
    extend_str(&mut v, ":00");
    string_of(&v)
}

/// The text the fallback reads a date from: dashes dropped from a ten-byte
/// input.
pub open spec fn fallback_date_text(input: Seq<char>) -> Seq<char> {
    if encode_utf8(input).len() == 10 {
        crate::dates::strip_dashes(input)
    } else {
        input
    }
}

/// The start or end date the fallback is asked for.
pub fn tdx_compact_date(input: &str) -> (r: Option<Ymd>)
    ensures
        match r {
            Some(d) => parsed_date(fallback_date_text(input@), "%Y%m%d"@) == Some((d.year, d.month, d.day)),
            None => parsed_date(fallback_date_text(input@), "%Y%m%d"@) is None,
        },
{
    let text = if input.as_bytes().len() == 10 {
        crate::dates::without_dashes(input)
    } else {
        String::from_str(input)
    };
    parse_date(text.as_str(), "%Y%m%d")
}

} // verus!
