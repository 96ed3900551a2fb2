//! Row selection on bar tables: which rows survive deduplication by symbol
//! and time, and how rows fall into partitions by their key columns. A
//! table's text columns are read as vectors of optional strings (a missing
//! value is `None`); the result names rows by position.
use vstd::prelude::*;
use crate::order::{lemma_text_lt_irreflexive, lemma_text_lt_total, lemma_text_lt_transitive};
use crate::order::{all_positions, lemma_distinct_below, lemma_increasing_cover_is_identity, picked, sorted_unique, strictly_sorted, texts};
use crate::partitions::{daily_partition_fields, month_fields_sliceable};
use vstd::utf8::encode_utf8;
use crate::text::{chars_of, text_lt, vec_eq, vec_lt};

verus! {

pub open spec fn opt_text(o: Option<String>) -> Option<Seq<char>> {
    match o {
        Some(s) => Some(s@),
        None => None,
    }
}

/// Row `i` has both a symbol and a time.
pub open spec fn keyed(symbols: Seq<Option<String>>, times: Seq<Option<String>>, i: int) -> bool {
    symbols[i] is Some && times[i] is Some
}

/// Rows `i` and `j` have the same symbol and the same time.
pub open spec fn same_key(symbols: Seq<Option<String>>, times: Seq<Option<String>>, i: int, j: int) -> bool {
    opt_text(symbols[i]) == opt_text(symbols[j]) && opt_text(times[i]) == opt_text(times[j])
}

/// Row `i` sorts before row `j`: by symbol, then by time.
pub open spec fn row_lt(symbols: Seq<Option<String>>, times: Seq<Option<String>>, i: int, j: int) -> bool {
    let si = opt_text(symbols[i])->0;
    let sj = opt_text(symbols[j])->0;
    text_lt(si, sj) || (si == sj && text_lt(opt_text(times[i])->0, opt_text(times[j])->0))
}

/// A keyed row that no later keyed row repeats.
pub open spec fn last_of_key(symbols: Seq<Option<String>>, times: Seq<Option<String>>, i: int) -> bool {
    &&& keyed(symbols, times, i)
    &&& forall|j: int|
        i < j < symbols.len() ==> !(#[trigger] keyed(symbols, times, j) && same_key(symbols, times, i, j))
}

/// Positions `r` are those deduplication by symbol and time keeps: each
/// names a keyed row that no later row repeats, every such row is named,
/// and they come ordered by symbol, then time.
pub open spec fn rows_kept(symbols: Seq<Option<String>>, times: Seq<Option<String>>, r: Seq<usize>) -> bool {
    &&& forall|k: int|
        0 <= k < r.len() ==> r[k] < symbols.len() && last_of_key(symbols, times, #[trigger] r[k] as int)
    &&& forall|i: int| 0 <= i < symbols.len() && last_of_key(symbols, times, i) ==> r.contains(i as usize)
    &&& forall|a: int, b: int|
        0 <= a < b < r.len() ==> row_lt(symbols, times, #[trigger] r[a] as int, #[trigger] r[b] as int)
}

proof fn lemma_row_lt_total(symbols: Seq<Option<String>>, times: Seq<Option<String>>, i: int, j: int)
    requires
        keyed(symbols, times, i),
        keyed(symbols, times, j),
    ensures
        row_lt(symbols, times, i, j) || row_lt(symbols, times, j, i) || same_key(symbols, times, i, j),
{
    lemma_text_lt_total(opt_text(symbols[i])->0, opt_text(symbols[j])->0);
    lemma_text_lt_total(opt_text(times[i])->0, opt_text(times[j])->0);
}

proof fn lemma_row_lt_transitive(symbols: Seq<Option<String>>, times: Seq<Option<String>>, a: int, b: int, c: int)
    requires
        row_lt(symbols, times, a, b),
        row_lt(symbols, times, b, c),
    ensures
        row_lt(symbols, times, a, c),
{
    let (sa, sb, sc) = (opt_text(symbols[a])->0, opt_text(symbols[b])->0, opt_text(symbols[c])->0);
    lemma_text_lt_irreflexive(sa);
    lemma_text_lt_irreflexive(sb);
    if text_lt(sa, sb) && text_lt(sb, sc) {
        lemma_text_lt_transitive(sa, sb, sc);
    }
    if sa == sb && sb == sc {
        lemma_text_lt_transitive(opt_text(times[a])->0, opt_text(times[b])->0, opt_text(times[c])->0);
    }
}

fn opt_chars(o: &Option<String>) -> (r: Option<Vec<char>>)
    ensures
        match r {
            Some(v) => opt_text(*o) == Some(v@),
            None => o is None,
        },
{
    match o {
        Some(s) => Some(chars_of(s.as_str())),
        None => None,
    }
}

fn chars_lt(a: &Option<Vec<char>>, b: &Option<Vec<char>>) -> (r: bool)
    requires
        a is Some,
        b is Some,
    ensures
        r == text_lt(a->0@, b->0@),
{
    match (a, b) {
        (Some(x), Some(y)) => vec_lt(x, y),
        _ => false,
    }
}

fn chars_eq(a: &Option<Vec<char>>, b: &Option<Vec<char>>) -> (r: bool)
    requires
        a is Some,
        b is Some,
    ensures
        r == (a->0@ == b->0@),
{
    match (a, b) {
        (Some(x), Some(y)) => vec_eq(x, y),
        _ => false,
    }
}

/// Positions of the rows a table keeps after deduplication by symbol and
/// time: rows missing either are dropped, of rows sharing both the last
/// one listed stays, and the survivors are ordered by symbol, then time.
pub fn latest_rows_by_symbol_time(symbols: &[Option<String>], times: &[Option<String>]) -> (r: Vec<usize>)
    requires
        symbols.len() == times.len(),
    ensures
        rows_kept(symbols@, times@, r@),
{
    let n = symbols.len();
    let mut syms: Vec<Option<Vec<char>>> = Vec::new();
    let mut tims: Vec<Option<Vec<char>>> = Vec::new();
    let mut q: usize = 0;
    while q < n
        invariant
            q <= n == symbols.len() == times.len(),
            syms.len() == q,
            tims.len() == q,
            forall|k: int| 0 <= k < q ==> (#[trigger] syms@[k]) is Some == (symbols@[k] is Some),
            forall|k: int| 0 <= k < q && syms@[k] is Some ==> opt_text(symbols@[k]) == Some((#[trigger] syms@[k])->0@),
            forall|k: int| 0 <= k < q ==> (#[trigger] tims@[k]) is Some == (times@[k] is Some),
            forall|k: int| 0 <= k < q && tims@[k] is Some ==> opt_text(times@[k]) == Some((#[trigger] tims@[k])->0@),
        decreases n - q,
    {
        syms.push(opt_chars(&symbols[q]));
        tims.push(opt_chars(&times[q]));
        q = q + 1;
    }
    let mut out: Vec<usize> = Vec::new();
    let mut i: usize = 0;
    while i < n
        invariant
            i <= n == symbols.len() == times.len() == syms.len() == tims.len(),
            forall|k: int| 0 <= k < n ==> (#[trigger] syms@[k]) is Some == (symbols@[k] is Some),
            forall|k: int| 0 <= k < n && syms@[k] is Some ==> opt_text(symbols@[k]) == Some((#[trigger] syms@[k])->0@),
            forall|k: int| 0 <= k < n ==> (#[trigger] tims@[k]) is Some == (times@[k] is Some),
            forall|k: int| 0 <= k < n && tims@[k] is Some ==> opt_text(times@[k]) == Some((#[trigger] tims@[k])->0@),
            forall|k: int| 0 <= k < out.len() ==> out@[k] < i && last_of_key(symbols@, times@, #[trigger] out@[k] as int),
            forall|x: int| 0 <= x < i && last_of_key(symbols@, times@, x) ==> out@.contains(x as usize),
            forall|a: int, b: int|
                0 <= a < b < out.len() ==> row_lt(symbols@, times@, #[trigger] out@[a] as int, #[trigger] out@[b] as int),
        decreases n - i,
    {
        let has_key = syms[i].is_some() && tims[i].is_some();
        proof {
            assert(syms@[i as int] is Some == (symbols@[i as int] is Some));
            assert(tims@[i as int] is Some == (times@[i as int] is Some));
        }
        if !has_key {
            i = i + 1;
            continue;
        }
        let mut latest = true;
        let mut j: usize = i + 1;
        while j < n
            invariant
                i < j <= n == symbols.len() == times.len() == syms.len() == tims.len(),
                keyed(symbols@, times@, i as int),
                syms@[i as int] is Some && tims@[i as int] is Some,
                forall|k: int| 0 <= k < n ==> (#[trigger] syms@[k]) is Some == (symbols@[k] is Some),
                forall|k: int| 0 <= k < n && syms@[k] is Some ==> opt_text(symbols@[k]) == Some((#[trigger] syms@[k])->0@),
                forall|k: int| 0 <= k < n ==> (#[trigger] tims@[k]) is Some == (times@[k] is Some),
                forall|k: int| 0 <= k < n && tims@[k] is Some ==> opt_text(times@[k]) == Some((#[trigger] tims@[k])->0@),
                latest == forall|m: int|
                    i < m < j ==> !(#[trigger] keyed(symbols@, times@, m) && same_key(symbols@, times@, i as int, m)),
            decreases n - j,
        {
            let both = syms[j].is_some() && tims[j].is_some();
            proof {
                assert(syms@[j as int] is Some == (symbols@[j as int] is Some));
                assert(tims@[j as int] is Some == (times@[j as int] is Some));
            }
            let mut dup = false;
            if both {
                dup = chars_eq(&syms[j], &syms[i]) && chars_eq(&tims[j], &tims[i]);
                proof {
                    assert(opt_text(symbols@[j as int]) == Some(syms@[j as int]->0@));
                    assert(opt_text(symbols@[i as int]) == Some(syms@[i as int]->0@));
                    assert(opt_text(times@[j as int]) == Some(tims@[j as int]->0@));
                    assert(opt_text(times@[i as int]) == Some(tims@[i as int]->0@));
                }
            }
            assert(dup == (keyed(symbols@, times@, j as int) && same_key(symbols@, times@, i as int, j as int)));
            if dup {
                latest = false;
            }
            j = j + 1;
        }
        if latest {
            assert(last_of_key(symbols@, times@, i as int));
            let mut p: usize = 0;
            while p < out.len() && !(chars_lt(&syms[i], &syms[out[p]]) || (chars_eq(&syms[i], &syms[out[p]])
                && chars_lt(&tims[i], &tims[out[p]])))
                invariant
                    p <= out.len(),
                    i < n == symbols.len() == times.len() == syms.len() == tims.len(),
                    last_of_key(symbols@, times@, i as int),
                    syms@[i as int] is Some && tims@[i as int] is Some,
                    forall|k: int| 0 <= k < n ==> (#[trigger] syms@[k]) is Some == (symbols@[k] is Some),
                    forall|k: int| 0 <= k < n && syms@[k] is Some ==> opt_text(symbols@[k]) == Some((#[trigger] syms@[k])->0@),
                    forall|k: int| 0 <= k < n ==> (#[trigger] tims@[k]) is Some == (times@[k] is Some),
                    forall|k: int| 0 <= k < n && tims@[k] is Some ==> opt_text(times@[k]) == Some((#[trigger] tims@[k])->0@),
                    forall|k: int| 0 <= k < out.len() ==> out@[k] < i && last_of_key(symbols@, times@, #[trigger] out@[k] as int),
                    forall|k: int| 0 <= k < p ==> !row_lt(symbols@, times@, i as int, #[trigger] out@[k] as int),
                decreases out.len() - p,
            {
                proof {
                    let o = out@[p as int] as int;
                    assert(last_of_key(symbols@, times@, o));
                    assert(syms@[o] is Some == (symbols@[o] is Some));
                    assert(tims@[o] is Some == (times@[o] is Some));
                    assert(opt_text(symbols@[o]) == Some(syms@[o]->0@));
                    assert(opt_text(times@[o]) == Some(tims@[o]->0@));
                    assert(opt_text(symbols@[i as int]) == Some(syms@[i as int]->0@));
                    assert(opt_text(times@[i as int]) == Some(tims@[i as int]->0@));
                }
                p = p + 1;
            }
            proof {
                if p < out.len() {
                    let o = out@[p as int] as int;
                    assert(last_of_key(symbols@, times@, o));
                    assert(syms@[o] is Some == (symbols@[o] is Some));
                    assert(tims@[o] is Some == (times@[o] is Some));
                    assert(opt_text(symbols@[o]) == Some(syms@[o]->0@));
                    assert(opt_text(times@[o]) == Some(tims@[o]->0@));
                    assert(opt_text(symbols@[i as int]) == Some(syms@[i as int]->0@));
                    assert(opt_text(times@[i as int]) == Some(tims@[i as int]->0@));
                    assert(row_lt(symbols@, times@, i as int, o));
                }
            }
            let ghost before = out@;
            out.insert(p, i);
            proof {
                assert(out@ =~= before.insert(p as int, i));
                let ii = i as int;
                assert forall|k: int| 0 <= k < p implies row_lt(symbols@, times@, #[trigger] before[k] as int, ii) by {
                    let o = before[k] as int;
                    assert(last_of_key(symbols@, times@, o));
                    assert(o < ii);
                    assert(keyed(symbols@, times@, ii));
                    assert(!same_key(symbols@, times@, o, ii));
                    lemma_row_lt_total(symbols@, times@, o, ii);
                }
                assert forall|a: int, b: int| 0 <= a < b < out.len() implies row_lt(
                    symbols@,
                    times@,
                    #[trigger] out@[a] as int,
                    #[trigger] out@[b] as int,
                ) by {
                    if b < p {
                        assert(out@[a] == before[a] && out@[b] == before[b]);
                    } else if b == p {
                        assert(out@[a] == before[a]);
                    } else if a < p {
                        assert(out@[a] == before[a] && out@[b] == before[b - 1]);
                        assert(row_lt(symbols@, times@, before[a] as int, ii));
                        assert(row_lt(symbols@, times@, ii, before[p as int] as int));
                        if b - 1 > p {
                            assert(row_lt(symbols@, times@, before[p as int] as int, before[b - 1] as int));
                            lemma_row_lt_transitive(symbols@, times@, ii, before[p as int] as int, before[b - 1] as int);
                        }
                        lemma_row_lt_transitive(symbols@, times@, before[a] as int, ii, before[b - 1] as int);
                    } else if a == p {
                        assert(out@[b] == before[b - 1]);
                        if b - 1 > p {
                            assert(row_lt(symbols@, times@, before[p as int] as int, before[b - 1] as int));
                            lemma_row_lt_transitive(symbols@, times@, ii, before[p as int] as int, before[b - 1] as int);
                        }
                    } else {
                        assert(out@[a] == before[a - 1] && out@[b] == before[b - 1]);
                    }
                }
                assert forall|x: int| 0 <= x < i + 1 && last_of_key(symbols@, times@, x) implies out@.contains(x as usize) by {
                    if x < i {
                        let k = choose|k: int| 0 <= k < before.len() && before[k] == x as usize;
                        if k < p {
                            assert(out@[k] == x as usize);
                        } else {
                            assert(out@[k + 1] == x as usize);
                        }
                    } else {
                        assert(out@[p as int] == i);
                    }
                }
                assert forall|k: int| 0 <= k < out.len() implies out@[k] < i + 1 && last_of_key(
                    symbols@,
                    times@,
                    #[trigger] out@[k] as int,
                ) by {
                    if k < p {
                        assert(out@[k] == before[k]);
                    } else if k > p {
                        assert(out@[k] == before[k - 1]);
                    }
                }
            }
        } else {
            proof {
                assert forall|x: int| 0 <= x < i + 1 && last_of_key(symbols@, times@, x) implies out@.contains(x as usize) by {
                    if x == i {
                        let m = choose|m: int|
                            i < m < n && #[trigger] keyed(symbols@, times@, m) && same_key(symbols@, times@, i as int, m);
                        assert(!(keyed(symbols@, times@, m) && same_key(symbols@, times@, x, m)));
                    }
                }
            }
        }
        i = i + 1;
    }
    out
}

/// Keys of text columns in `BTreeMap` order: text by text, a shorter key
/// first when one is a prefix of the other.
pub open spec fn key_lt(a: Seq<Seq<char>>, b: Seq<Seq<char>>) -> bool
    decreases a.len(),
{
    if a.len() == 0 {
        b.len() > 0
    } else if b.len() == 0 {
        false
    } else if a[0] != b[0] {
        text_lt(a[0], b[0])
    } else {
        key_lt(a.drop_first(), b.drop_first())
    }
}

proof fn lemma_key_lt_irreflexive(a: Seq<Seq<char>>)
    ensures
        !key_lt(a, a),
    decreases a.len(),
{
    if a.len() > 0 {
        lemma_key_lt_irreflexive(a.drop_first());
    }
}

proof fn lemma_key_lt_transitive(a: Seq<Seq<char>>, b: Seq<Seq<char>>, c: Seq<Seq<char>>)
    requires
        key_lt(a, b),
        key_lt(b, c),
    ensures
        key_lt(a, c),
    decreases a.len(),
{
    if a.len() > 0 && b.len() > 0 && c.len() > 0 {
        if a[0] == b[0] && b[0] == c[0] {
            lemma_key_lt_transitive(a.drop_first(), b.drop_first(), c.drop_first());
        } else if a[0] != b[0] && b[0] != c[0] {
            lemma_text_lt_transitive(a[0], b[0], c[0]);
            if a[0] == c[0] {
                lemma_text_lt_transitive(a[0], b[0], a[0]);
                lemma_text_lt_irreflexive(a[0]);
            }
        }
    }
}

proof fn lemma_key_lt_total(a: Seq<Seq<char>>, b: Seq<Seq<char>>)
    ensures
        a == b || key_lt(a, b) || key_lt(b, a),
    decreases a.len(),
{
    if a.len() > 0 && b.len() > 0 {
        if a[0] == b[0] {
            lemma_key_lt_total(a.drop_first(), b.drop_first());
            if a.drop_first() == b.drop_first() {
                assert(a =~= seq![a[0]] + a.drop_first());
                assert(b =~= seq![b[0]] + b.drop_first());
            }
        } else {
            lemma_text_lt_total(a[0], b[0]);
        }
    } else if a.len() == 0 && b.len() == 0 {
        assert(a =~= b);
    }
}

fn texts_eq(a: &Vec<String>, b: &Vec<String>) -> (r: bool)
    ensures
        r == (texts(a@) == texts(b@)),
{
    if a.len() != b.len() {
        assert(texts(a@).len() != texts(b@).len());
        return false;
    }
    let mut i: usize = 0;
    while i < a.len()
        invariant
            i <= a.len() == b.len(),
            forall|k: int| 0 <= k < i ==> a@[k]@ == b@[k]@,
        decreases a.len() - i,
    {
        let x = chars_of(a[i].as_str());
        let y = chars_of(b[i].as_str());
        if !vec_eq(&x, &y) {
            assert(texts(a@)[i as int] != texts(b@)[i as int]);
            return false;
        }
        i = i + 1;
    }
    assert(texts(a@) =~= texts(b@));
    true
}

proof fn lemma_key_lt_skip(a: Seq<Seq<char>>, b: Seq<Seq<char>>, i: int)
    requires
        0 <= i <= a.len(),
        i <= b.len(),
        forall|j: int| 0 <= j < i ==> a[j] == b[j],
    ensures
        key_lt(a, b) == key_lt(a.subrange(i, a.len() as int), b.subrange(i, b.len() as int)),
    decreases i,
{
    if i == 0 {
        assert(a.subrange(0, a.len() as int) =~= a);
        assert(b.subrange(0, b.len() as int) =~= b);
    } else {
        lemma_key_lt_skip(a.drop_first(), b.drop_first(), i - 1);
        assert(a.drop_first().subrange(i - 1, a.len() - 1) =~= a.subrange(i, a.len() as int));
        assert(b.drop_first().subrange(i - 1, b.len() - 1) =~= b.subrange(i, b.len() as int));
    }
}

fn texts_lt(a: &Vec<String>, b: &Vec<String>) -> (r: bool)
    ensures
        r == key_lt(texts(a@), texts(b@)),
{
    let ghost ta = texts(a@);
    let ghost tb = texts(b@);
    let mut i: usize = 0;
    let mut diff = false;
    while i < a.len() && i < b.len() && !diff
        invariant
            i <= a.len(),
            i <= b.len(),
            ta == texts(a@),
            tb == texts(b@),
            forall|j: int| 0 <= j < i ==> ta[j] == tb[j],
            diff ==> i < a.len() && i < b.len() && ta[i as int] != tb[i as int],
        decreases a.len() - i + if diff { 0int } else { 1int },
    {
        let x = chars_of(a[i].as_str());
        let y = chars_of(b[i].as_str());
        if vec_eq(&x, &y) {
            i = i + 1;
        } else {
            diff = true;
        }
    }
    proof {
        lemma_key_lt_skip(ta, tb, i as int);
    }
    if diff {
        let x = chars_of(a[i].as_str());
        let y = chars_of(b[i].as_str());
        vec_lt(&x, &y)
    } else if i == a.len() {
        i < b.len()
    } else {
        false
    }
}

/// The rows of one partition: its key and the positions of its rows.
#[derive(Debug)]
pub struct RowGroup {
    pub key: Vec<String>,
    pub rows: Vec<usize>,
}

pub open spec fn opt_texts(o: Option<Vec<String>>) -> Option<Seq<Seq<char>>> {
    match o {
        Some(v) => Some(texts(v@)),
        None => None,
    }
}

/// Row `i` belongs to a group with key `k`.
pub open spec fn row_key_is(keys: Seq<Option<Vec<String>>>, i: int, k: Seq<Seq<char>>) -> bool {
    opt_texts(keys[i]) == Some(k)
}

/// Groups sorted by key with no key twice; each lists, ascending, the rows
/// that carry its key.
pub open spec fn groups_wf(groups: Seq<RowGroup>, keys: Seq<Option<Vec<String>>>, upto: int) -> bool {
    &&& forall|a: int, b: int|
        0 <= a < b < groups.len() ==> key_lt(texts((#[trigger] groups[a]).key@), texts((#[trigger] groups[b]).key@))
    &&& forall|g: int|
        0 <= g < groups.len() ==> (#[trigger] groups[g]).rows@.len() > 0
    &&& forall|g: int, x: int, y: int|
        0 <= g < groups.len() && 0 <= x < y < groups[g].rows@.len() ==> #[trigger] groups[g].rows@[x] < #[trigger] groups[g].rows@[y]
    &&& forall|g: int, x: int|
        0 <= g < groups.len() && 0 <= x < groups[g].rows@.len() ==> {
            &&& (#[trigger] groups[g].rows@[x]) < upto
            &&& row_key_is(keys, groups[g].rows@[x] as int, texts(groups[g].key@))
        }
}

/// Every row up to `upto` that has a key sits in a group.
pub open spec fn groups_cover(groups: Seq<RowGroup>, keys: Seq<Option<Vec<String>>>, upto: int) -> bool {
    forall|i: int|
        0 <= i < upto && (#[trigger] keys[i]) is Some ==> exists|g: int|
            0 <= g < groups.len() && (#[trigger] groups[g]).rows@.contains(i as usize)
}

fn clone_texts(v: &Vec<String>) -> (r: Vec<String>)
    ensures
        texts(r@) == texts(v@),
{
    let mut r: Vec<String> = Vec::new();
    let mut i: usize = 0;
    while i < v.len()
        invariant
            i <= v.len(),
            texts(r@) == texts(v@.subrange(0, i as int)),
        decreases v.len() - i,
    {
        let ghost prev = r@;
        let c = v[i].clone();
        r.push(c);
        assert(texts(r@) =~= texts(prev).push(c@));
        assert(texts(v@.subrange(0, i + 1)) =~= texts(v@.subrange(0, i as int)).push(v@[i as int]@));
        i = i + 1;
    }
    assert(v@.subrange(0, v.len() as int) =~= v@);
    r
}

/// Rows grouped by their key, as a `BTreeMap` from key to row positions
/// builds them; rows without a key are left out.
#[verifier::spinoff_prover]
#[verifier::rlimit(50)]
pub fn partition_rows(keys: &[Option<Vec<String>>]) -> (r: Vec<RowGroup>)
    ensures
        groups_wf(r@, keys@, keys@.len() as int),
        groups_cover(r@, keys@, keys@.len() as int),
{
    let mut groups: Vec<RowGroup> = Vec::new();
    let mut i: usize = 0;
    while i < keys.len()
        invariant
            i <= keys.len(),
            groups_wf(groups@, keys@, i as int),
            groups_cover(groups@, keys@, i as int),
        decreases keys.len() - i,
    {
        match &keys[i] {
            None => {
                assert(groups_wf(groups@, keys@, i + 1));
                assert forall|x: int| 0 <= x < i + 1 && (#[trigger] keys@[x]) is Some implies exists|g: int|
                    0 <= g < groups@.len() && (#[trigger] groups@[g]).rows@.contains(x as usize) by {
                    assert(x < i);
                }
            },
            Some(k) => {
                let mut p: usize = 0;
                let mut found = false;
                while p < groups.len() && !found && !texts_lt(k, &groups[p].key)
                    invariant
                        p <= groups.len(),
                        !found ==> forall|g: int| 0 <= g < p ==> key_lt(texts((#[trigger] groups@[g]).key@), texts(k@)),
                        found ==> p < groups.len() && texts(groups@[p as int].key@) == texts(k@),
                    decreases groups.len() - p + if found { 0int } else { 1int },
                {
                    if texts_eq(&groups[p].key, k) {
                        found = true;
                    } else {
                        proof {
                            lemma_key_lt_total(texts(groups@[p as int].key@), texts(k@));
                        }
                        p = p + 1;
                    }
                }
                let ghost before = groups@;
                if found {
                    let mut g = groups.remove(p);
                    g.rows.push(i);
                    groups.insert(p, g);
                    proof {
                        assert(groups@ =~= before.update(p as int, groups@[p as int]));
                        assert(groups@[p as int].rows@ =~= before[p as int].rows@.push(i));
                        assert(groups@[p as int].key == before[p as int].key);
                    }
                } else {
                    let mut rows: Vec<usize> = Vec::new();
                    rows.push(i);
                    let g = RowGroup { key: clone_texts(k), rows };
                    groups.insert(p, g);
                    proof {
                        assert(groups@ =~= before.insert(p as int, groups@[p as int]));
                        if p < before.len() {
                            assert(key_lt(texts(k@), texts(before[p as int].key@)));
                        }
                    }
                }
                proof {
                    let gs = groups@;
                    assert(row_key_is(keys@, i as int, texts(k@)));
                    assert forall|a: int, b: int| 0 <= a < b < gs.len() implies key_lt(texts((#[trigger] gs[a]).key@), texts((#[trigger] gs[b]).key@)) by {
                        if found {
                            assert(texts(gs[a].key@) == texts(before[a].key@));
                            assert(texts(gs[b].key@) == texts(before[b].key@));
                        } else {
                            let kk = texts(k@);
                            if b < p {
                                assert(gs[a] == before[a] && gs[b] == before[b]);
                            } else if b == p {
                                assert(gs[a] == before[a]);
                            } else if a < p {
                                assert(gs[a] == before[a] && gs[b] == before[b - 1]);
                                if b - 1 > p {
                                    lemma_key_lt_transitive(kk, texts(before[p as int].key@), texts(before[b - 1].key@));
                                }
                                lemma_key_lt_transitive(texts(before[a].key@), kk, texts(before[b - 1].key@));
                            } else if a == p {
                                assert(gs[b] == before[b - 1]);
                                if b - 1 > p {
                                    lemma_key_lt_transitive(kk, texts(before[p as int].key@), texts(before[b - 1].key@));
                                }
                            } else {
                                assert(gs[a] == before[a - 1] && gs[b] == before[b - 1]);
                            }
                        }
                    }
                    assert forall|g: int| 0 <= g < gs.len() implies (#[trigger] gs[g]).rows@.len() > 0 by {
                        if !found && g > p {
                            assert(gs[g] == before[g - 1]);
                        } else if !found && g < p {
                            assert(gs[g] == before[g]);
                        } else if found && g != p {
                            assert(gs[g] == before[g]);
                        }
                    }
                    assert forall|g: int, x: int, y: int| 0 <= g < gs.len() && 0 <= x < y < gs[g].rows@.len() implies #[trigger] gs[g].rows@[x] < #[trigger] gs[g].rows@[y] by {
                        if found && g == p {
                            if y == gs[g].rows@.len() - 1 {
                                assert(gs[g].rows@[x] == before[g].rows@[x]);
                            } else {
                                assert(gs[g].rows@[x] == before[g].rows@[x]);
                                assert(gs[g].rows@[y] == before[g].rows@[y]);
                            }
                        } else if found {
                            assert(gs[g] == before[g]);
                        } else if g < p {
                            assert(gs[g] == before[g]);
                        } else if g > p {
                            assert(gs[g] == before[g - 1]);
                        }
                    }
                    assert forall|g: int, x: int| 0 <= g < gs.len() && 0 <= x < gs[g].rows@.len() implies {
                        &&& (#[trigger] gs[g].rows@[x]) < i + 1
                        &&& row_key_is(keys@, gs[g].rows@[x] as int, texts(gs[g].key@))
                    } by {
                        if found && g == p {
                            if x < gs[g].rows@.len() - 1 {
                                assert(gs[g].rows@[x] == before[g].rows@[x]);
                            }
                        } else if found {
                            assert(gs[g] == before[g]);
                        } else if g < p {
                            assert(gs[g] == before[g]);
                        } else if g > p {
                            assert(gs[g] == before[g - 1]);
                        }
                    }
                    assert forall|x: int| 0 <= x < i + 1 && (#[trigger] keys@[x]) is Some implies exists|g: int|
                        0 <= g < gs.len() && (#[trigger] gs[g]).rows@.contains(x as usize) by {
                        if x == i {
                            if found {
                                assert(gs[p as int].rows@[gs[p as int].rows@.len() - 1] == i);
                            } else {
                                assert(gs[p as int].rows@[0] == i);
                            }
                        } else {
                            let g = choose|g: int| 0 <= g < before.len() && (#[trigger] before[g]).rows@.contains(x as usize);
                            let m = choose|m: int| 0 <= m < before[g].rows@.len() && before[g].rows@[m] == x as usize;
                            if found {
                                assert(gs[g].rows@[m] == x as usize);
                            } else if g < p {
                                assert(gs[g] == before[g]);
                                assert(gs[g].rows@[m] == x as usize);
                            } else {
                                assert(gs[g + 1] == before[g]);
                                assert(gs[g + 1].rows@[m] == x as usize);
                            }
                        }
                    }
                }
            },
        }
        i = i + 1;
    }
    groups
}

/// The distinct symbols of a table, sorted; missing values are skipped.
pub fn frame_symbols(symbols: &[Option<String>]) -> (r: Vec<String>)
    ensures
        strictly_sorted(texts(r@)),
        forall|x: Seq<char>| texts(r@).contains(x) <==> exists|i: int| 0 <= i < symbols.len() && opt_text(#[trigger] symbols@[i]) == Some(x),
{
    let mut present: Vec<String> = Vec::new();
    let mut i: usize = 0;
    while i < symbols.len()
        invariant
            i <= symbols.len(),
            forall|x: Seq<char>| texts(present@).contains(x) <==> exists|k: int| 0 <= k < i && opt_text(#[trigger] symbols@[k]) == Some(x),
        decreases symbols.len() - i,
    {
        let ghost before = present@;
        if let Some(s) = &symbols[i] {
            present.push(s.clone());
        }
        proof {
            assert forall|x: Seq<char>| texts(present@).contains(x) <==> exists|k: int| 0 <= k < i + 1 && opt_text(#[trigger] symbols@[k]) == Some(x) by {
                if texts(present@).contains(x) {
                    let m = choose|m: int| 0 <= m < texts(present@).len() && texts(present@)[m] == x;
                    if m < before.len() {
                        assert(texts(before)[m] == x);
                        assert(texts(before).contains(x));
                        let k = choose|k: int| 0 <= k < i && opt_text(#[trigger] symbols@[k]) == Some(x);
                        assert(opt_text(symbols@[k]) == Some(x));
                    } else {
                        assert(opt_text(symbols@[i as int]) == Some(x));
                    }
                }
                if exists|k: int| 0 <= k < i + 1 && opt_text(#[trigger] symbols@[k]) == Some(x) {
                    let k = choose|k: int| 0 <= k < i + 1 && opt_text(#[trigger] symbols@[k]) == Some(x);
                    if k < i {
                        assert(texts(before).contains(x));
                        let m = choose|m: int| 0 <= m < texts(before).len() && texts(before)[m] == x;
                        assert(texts(present@)[m] == x);
                    } else {
                        assert(texts(present@)[texts(present@).len() - 1] == x);
                    }
                }
            }
        }
        i = i + 1;
    }
    let ghost all = texts(present@);
    let r = sorted_unique(present);
    assert forall|x: Seq<char>| texts(r@).contains(x) <==> exists|i: int| 0 <= i < symbols.len() && opt_text(#[trigger] symbols@[i]) == Some(x) by {
        assert(texts(r@).contains(x) == all.contains(x));
    }
    r
}

/// The key `[trade_date, exchange]` of each row that has both.
pub fn trade_date_exchange_keys(trade_dates: &[Option<String>], exchanges: &[Option<String>]) -> (r: Vec<Option<Vec<String>>>)
    requires
        trade_dates.len() == exchanges.len(),
    ensures
        r.len() == trade_dates.len(),
        forall|i: int| 0 <= i < r.len() ==> opt_texts(#[trigger] r@[i]) == match (opt_text(trade_dates@[i]), opt_text(exchanges@[i])) {
            (Some(d), Some(e)) => Some(seq![d, e]),
            _ => None,
        },
{
    let mut r: Vec<Option<Vec<String>>> = Vec::new();
    let mut i: usize = 0;
    while i < trade_dates.len()
        invariant
            i <= trade_dates.len() == exchanges.len(),
            r.len() == i,
            forall|k: int| 0 <= k < i ==> opt_texts(#[trigger] r@[k]) == match (opt_text(trade_dates@[k]), opt_text(exchanges@[k])) {
                (Some(d), Some(e)) => Some(seq![d, e]),
                _ => None,
            },
        decreases trade_dates.len() - i,
    {
        let key = match (&trade_dates[i], &exchanges[i]) {
            (Some(d), Some(e)) => {
                let mut k: Vec<String> = Vec::new();
                k.push(d.clone());
                k.push(e.clone());
                assert(texts(k@) =~= seq![d@, e@]);
                Some(k)
            },
            _ => None,
        };
        r.push(key);
        i = i + 1;
    }
    r
}

/// The key `[exchange, year, month]` of each daily row with an exchange
/// and a time of at least seven bytes (year from bytes `0..4`, month from
/// bytes `5..7`).
pub fn daily_partition_keys(exchanges: &[Option<String>], times: &[Option<String>]) -> (r: Vec<Option<Vec<String>>>)
    requires
        exchanges.len() == times.len(),
        forall|i: int| 0 <= i < times.len() ==> (#[trigger] times@[i] matches Some(t) ==> month_fields_sliceable(encode_utf8(t@)))
            || times@[i] is None,
    ensures
        r.len() == times.len(),
        forall|i: int| 0 <= i < r.len() ==> (match (exchanges@[i], times@[i]) {
            (Some(e), Some(t)) => if encode_utf8(t@).len() >= 7 {
                (#[trigger] r@[i]) matches Some(k) && k@.len() == 3 && k@[0]@ == e@ && encode_utf8(k@[1]@) == encode_utf8(t@).subrange(0, 4)
                    && encode_utf8(k@[2]@) == encode_utf8(t@).subrange(5, 7)
            } else {
                r@[i] is None
            },
            _ => r@[i] is None,
        }),
{
    let mut r: Vec<Option<Vec<String>>> = Vec::new();
    let mut i: usize = 0;
    while i < times.len()
        invariant
            i <= times.len() == exchanges.len(),
            r.len() == i,
            forall|i: int| 0 <= i < times.len() ==> (#[trigger] times@[i] matches Some(t) ==> month_fields_sliceable(encode_utf8(t@)))
                || times@[i] is None,
            forall|k: int| 0 <= k < i ==> (match (exchanges@[k], times@[k]) {
                (Some(e), Some(t)) => if encode_utf8(t@).len() >= 7 {
                    (#[trigger] r@[k]) matches Some(kk) && kk@.len() == 3 && kk@[0]@ == e@ && encode_utf8(kk@[1]@) == encode_utf8(t@).subrange(0, 4)
                        && encode_utf8(kk@[2]@) == encode_utf8(t@).subrange(5, 7)
                } else {
                    r@[k] is None
                },
                _ => r@[k] is None,
            }),
        decreases times.len() - i,
    {
        let key = match (&exchanges[i], &times[i]) {
            (Some(e), Some(t)) => {
                assert(times@[i as int] matches Some(tt) ==> month_fields_sliceable(encode_utf8(tt@)));
                match daily_partition_fields(t.as_str()) {
                    Some((year, month)) => {
                        let mut k: Vec<String> = Vec::new();
                        k.push(e.clone());
                        k.push(String::from_str(year));
                        k.push(String::from_str(month));
                        Some(k)
                    },
                    None => None,
                }
            },
            _ => None,
        };
        r.push(key);
        i = i + 1;
    }
    r
}

/// Missing values first, then texts in order (`Option<&str>` order).
pub open spec fn opt_lt(a: Option<Seq<char>>, b: Option<Seq<char>>) -> bool {
    match (a, b) {
        (None, Some(_)) => true,
        (Some(x), Some(y)) => text_lt(x, y),
        _ => false,
    }
}

/// Row `i` sorts before row `j` by symbol, then by time.
pub open spec fn sorts_before(symbols: Seq<Option<String>>, times: Seq<Option<String>>, i: int, j: int) -> bool {
    let (si, sj) = (opt_text(symbols[i]), opt_text(symbols[j]));
    opt_lt(si, sj) || (si == sj && opt_lt(opt_text(times[i]), opt_text(times[j])))
}

proof fn lemma_opt_lt_order(a: Option<Seq<char>>, b: Option<Seq<char>>, c: Option<Seq<char>>)
    ensures
        !opt_lt(a, a),
        opt_lt(a, b) && opt_lt(b, c) ==> opt_lt(a, c),
        a == b || opt_lt(a, b) || opt_lt(b, a),
{
    if a is Some {
        lemma_text_lt_irreflexive(a->0);
    }
    if a is Some && b is Some && c is Some && opt_lt(a, b) && opt_lt(b, c) {
        lemma_text_lt_transitive(a->0, b->0, c->0);
    }
    if a is Some && b is Some {
        lemma_text_lt_total(a->0, b->0);
    }
}

proof fn lemma_sorts_before_order(symbols: Seq<Option<String>>, times: Seq<Option<String>>, a: int, b: int, c: int)
    ensures
        !sorts_before(symbols, times, a, a),
        sorts_before(symbols, times, a, b) && sorts_before(symbols, times, b, c) ==> sorts_before(symbols, times, a, c),
        same_key(symbols, times, a, b) || sorts_before(symbols, times, a, b) || sorts_before(symbols, times, b, a),
        same_key(symbols, times, a, b) ==> (sorts_before(symbols, times, a, c) == sorts_before(symbols, times, b, c)
            && sorts_before(symbols, times, c, a) == sorts_before(symbols, times, c, b)),
{
    let (sa, sb, sc) = (opt_text(symbols[a]), opt_text(symbols[b]), opt_text(symbols[c]));
    let (ta, tb, tc) = (opt_text(times[a]), opt_text(times[b]), opt_text(times[c]));
    lemma_opt_lt_order(sa, sb, sc);
    lemma_opt_lt_order(ta, tb, tc);
    lemma_opt_lt_order(sb, sa, sc);
    lemma_opt_lt_order(tb, ta, tc);
    lemma_opt_lt_order(sb, sb, sb);
    lemma_opt_lt_order(tb, tb, tb);
}

fn opt_lt_exec(a: &Option<Vec<char>>, b: &Option<Vec<char>>) -> (r: bool)
    ensures
        r == opt_lt(match a { Some(x) => Some(x@), None => None }, match b { Some(x) => Some(x@), None => None }),
{
    match (a, b) {
        (None, Some(_)) => true,
        (Some(x), Some(y)) => vec_lt(x, y),
        _ => false,
    }
}

fn opt_eq_exec(a: &Option<Vec<char>>, b: &Option<Vec<char>>) -> (r: bool)
    ensures
        r == (match a { Some(x) => Some(x@), None => None::<Seq<char>> } == match b { Some(x) => Some(x@), None => None::<Seq<char>> }),
{
    match (a, b) {
        (None, None) => true,
        (Some(x), Some(y)) => vec_eq(x, y),
        _ => false,
    }
}

pub open spec fn chars_view(o: Option<Vec<char>>) -> Option<Seq<char>> {
    match o {
        Some(x) => Some(x@),
        None => None,
    }
}

/// The order a partition's rows are written in: a stable sort by symbol,
/// then time (missing values first); the result lists every row once.
pub fn sort_rows_by_symbol_time(symbols: &[Option<String>], times: &[Option<String>]) -> (r: Vec<usize>)
    requires
        symbols.len() == times.len(),
    ensures
        r.len() == symbols.len(),
        forall|k: int| 0 <= k < r.len() ==> r@[k] < symbols.len(),
        forall|a: int, b: int| 0 <= a < b < r.len() ==> r@[a] != r@[b],
        forall|a: int, b: int|
            0 <= a < b < r.len() ==> !sorts_before(symbols@, times@, #[trigger] r@[b] as int, #[trigger] r@[a] as int),
        forall|a: int, b: int|
            0 <= a < b < r.len() && same_key(symbols@, times@, #[trigger] r@[a] as int, #[trigger] r@[b] as int) ==> r@[a] < r@[b],
{
    let n = symbols.len();
    let mut syms: Vec<Option<Vec<char>>> = Vec::new();
    let mut tims: Vec<Option<Vec<char>>> = Vec::new();
    let mut q: usize = 0;
    while q < n
        invariant
            q <= n == symbols.len() == times.len(),
            syms.len() == q,
            tims.len() == q,
            forall|k: int| 0 <= k < q ==> chars_view(#[trigger] syms@[k]) == opt_text(symbols@[k]),
            forall|k: int| 0 <= k < q ==> chars_view(#[trigger] tims@[k]) == opt_text(times@[k]),
        decreases n - q,
    {
        let a = opt_chars(&symbols[q]);
        let b = opt_chars(&times[q]);
        syms.push(a);
        tims.push(b);
        q = q + 1;
    }
    let mut out: Vec<usize> = Vec::new();
    let mut i: usize = 0;
    while i < n
        invariant
            i <= n == symbols.len() == times.len() == syms.len() == tims.len(),
            forall|k: int| 0 <= k < n ==> chars_view(#[trigger] syms@[k]) == opt_text(symbols@[k]),
            forall|k: int| 0 <= k < n ==> chars_view(#[trigger] tims@[k]) == opt_text(times@[k]),
            out.len() == i,
            forall|k: int| 0 <= k < out.len() ==> out@[k] < i,
            forall|a: int, b: int| 0 <= a < b < out.len() ==> out@[a] != out@[b],
            forall|a: int, b: int|
                0 <= a < b < out.len() ==> !sorts_before(symbols@, times@, #[trigger] out@[b] as int, #[trigger] out@[a] as int),
            forall|a: int, b: int|
                0 <= a < b < out.len() && same_key(symbols@, times@, #[trigger] out@[a] as int, #[trigger] out@[b] as int) ==> out@[a] < out@[b],
        decreases n - i,
    {
        let mut p: usize = 0;
        while p < out.len() && !(opt_lt_exec(&syms[i], &syms[out[p]]) || (opt_eq_exec(&syms[i], &syms[out[p]]) && opt_lt_exec(&tims[i], &tims[out[p]])))
            invariant
                p <= out.len() == i,
                i < n == symbols.len() == times.len() == syms.len() == tims.len(),
                forall|k: int| 0 <= k < n ==> chars_view(#[trigger] syms@[k]) == opt_text(symbols@[k]),
                forall|k: int| 0 <= k < n ==> chars_view(#[trigger] tims@[k]) == opt_text(times@[k]),
                forall|k: int| 0 <= k < out.len() ==> out@[k] < i,
                forall|k: int| 0 <= k < p ==> !sorts_before(symbols@, times@, i as int, #[trigger] out@[k] as int),
            decreases out.len() - p,
        {
            proof {
                let o = out@[p as int] as int;
                assert(chars_view(syms@[o]) == opt_text(symbols@[o]));
                assert(chars_view(tims@[o]) == opt_text(times@[o]));
                assert(chars_view(syms@[i as int]) == opt_text(symbols@[i as int]));
                assert(chars_view(tims@[i as int]) == opt_text(times@[i as int]));
            }
            p = p + 1;
        }
        proof {
            if p < out.len() {
                let o = out@[p as int] as int;
                assert(chars_view(syms@[o]) == opt_text(symbols@[o]));
                assert(chars_view(tims@[o]) == opt_text(times@[o]));
                assert(chars_view(syms@[i as int]) == opt_text(symbols@[i as int]));
                assert(chars_view(tims@[i as int]) == opt_text(times@[i as int]));
                assert(sorts_before(symbols@, times@, i as int, o));
            }
        }
        let ghost before = out@;
        out.insert(p, i);
        proof {
            assert(out@ =~= before.insert(p as int, i));
            let ii = i as int;
            let sv = symbols@;
            let tv = times@;
            assert forall|a: int, b: int| 0 <= a < b < out.len() implies !sorts_before(sv, tv, #[trigger] out@[b] as int, #[trigger] out@[a] as int) by {
                if b < p {
                    assert(out@[a] == before[a] && out@[b] == before[b]);
                } else if b == p {
                    assert(out@[a] == before[a]);
                } else if a < p {
                    assert(out@[a] == before[a] && out@[b] == before[b - 1]);
                    if sorts_before(sv, tv, before[b - 1] as int, before[a] as int) {
                        assert(!sorts_before(sv, tv, before[b - 1] as int, before[a] as int));
                    }
                } else if a == p {
                    assert(out@[b] == before[b - 1]);
                    let o = before[p as int] as int;
                    let x = before[b - 1] as int;
                    lemma_sorts_before_order(sv, tv, x, ii, o);
                    if b - 1 > p {
                        assert(!sorts_before(sv, tv, x, o));
                    } else {
                        lemma_sorts_before_order(sv, tv, o, o, o);
                    }
                } else {
                    assert(out@[a] == before[a - 1] && out@[b] == before[b - 1]);
                }
            }
            assert forall|a: int, b: int| 0 <= a < b < out.len() && same_key(sv, tv, #[trigger] out@[a] as int, #[trigger] out@[b] as int) implies out@[a] < out@[b] by {
                if b < p {
                    assert(out@[a] == before[a] && out@[b] == before[b]);
                } else if b == p {
                    assert(out@[a] == before[a]);
                } else if a < p {
                    assert(out@[a] == before[a] && out@[b] == before[b - 1]);
                } else if a == p {
                    let o = before[p as int] as int;
                    let x = before[b - 1] as int;
                    assert(out@[b] == before[b - 1]);
                    lemma_sorts_before_order(sv, tv, ii, x, o);
                    lemma_sorts_before_order(sv, tv, x, ii, o);
                    if b - 1 > p {
                        assert(!sorts_before(sv, tv, x, o));
                    } else {
                        lemma_sorts_before_order(sv, tv, o, o, o);
                    }
                } else {
                    assert(out@[a] == before[a - 1] && out@[b] == before[b - 1]);
                }
            }
            assert forall|a: int, b: int| 0 <= a < b < out.len() implies out@[a] != out@[b] by {
                if a < p && b > p {
                    assert(out@[a] == before[a] && out@[b] == before[b - 1]);
                } else if a > p {
                    assert(out@[a] == before[a - 1] && out@[b] == before[b - 1]);
                } else if b < p {
                    assert(out@[a] == before[a] && out@[b] == before[b]);
                }
            }
            assert forall|k: int| 0 <= k < out.len() implies out@[k] < i + 1 by {
                if k < p {
                    assert(out@[k] == before[k]);
                } else if k > p {
                    assert(out@[k] == before[k - 1]);
                }
            }
        }
        i = i + 1;
    }
    out
}


proof fn lemma_row_lt_irreflexive(symbols: Seq<Option<String>>, times: Seq<Option<String>>, i: int)
    ensures
        !row_lt(symbols, times, i, i),
{
    lemma_text_lt_irreflexive(opt_text(symbols[i])->0);
    lemma_text_lt_irreflexive(opt_text(times[i])->0);
}

/// Deduplicating by symbol and time the rows that deduplication kept keeps
/// every one of them, in the order they come: the operation is idempotent.
pub proof fn law_latest_rows_idempotent(
    symbols: Seq<Option<String>>,
    times: Seq<Option<String>>,
    r: Seq<usize>,
    r2: Seq<usize>,
)
    requires
        symbols.len() == times.len(),
        symbols.len() <= usize::MAX,
        rows_kept(symbols, times, r),
        rows_kept(picked(symbols, r), picked(times, r), r2),
    ensures
        r.len() <= symbols.len(),
        r2 == all_positions(r.len()),
        picked(picked(symbols, r), r2) == picked(symbols, r),
        picked(picked(times, r), r2) == picked(times, r),
{
    let s2 = picked(symbols, r);
    let t2 = picked(times, r);
    let n = r.len();
    assert forall|a: int, b: int| 0 <= a < b < n implies #[trigger] row_lt(s2, t2, a, b) by {
        assert(row_lt(symbols, times, r[a] as int, r[b] as int));
    }
    assert forall|a: int, b: int| 0 <= a < b < n implies !same_key(s2, t2, a, b) by {
        assert(row_lt(s2, t2, a, b));
        lemma_row_lt_irreflexive(s2, t2, a);
    }
    assert forall|i: int| 0 <= i < n implies #[trigger] last_of_key(s2, t2, i) by {
        assert(last_of_key(symbols, times, r[i] as int));
        assert forall|j: int| i < j < s2.len() implies !(#[trigger] keyed(s2, t2, j) && same_key(s2, t2, i, j)) by {
            assert(!same_key(s2, t2, i, j));
        }
    }
    assert forall|a: int, b: int| 0 <= a < b < r2.len() implies r2[a] < r2[b] by {
        let (x, y) = (r2[a] as int, r2[b] as int);
        assert(row_lt(s2, t2, x, y));
        lemma_row_lt_irreflexive(s2, t2, x);
        if y < x {
            assert(row_lt(s2, t2, y, x));
            lemma_row_lt_transitive(s2, t2, x, y, x);
        }
    }
    assert forall|i: int| 0 <= i < n implies #[trigger] r2.contains(i as usize) by {
        assert(last_of_key(s2, t2, i));
    }
    lemma_kept_fit(symbols, times, r);
    lemma_increasing_cover_is_identity(r2, n);
    assert(picked(s2, r2) =~= s2);
    assert(picked(t2, r2) =~= t2);
}

/// Kept positions are distinct positions of the table, so no more of them
/// than rows.
proof fn lemma_kept_fit(symbols: Seq<Option<String>>, times: Seq<Option<String>>, r: Seq<usize>)
    requires
        rows_kept(symbols, times, r),
    ensures
        r.len() <= symbols.len(),
{
    assert forall|a: int, b: int| 0 <= a < b < r.len() implies r[a] != r[b] by {
        assert(row_lt(symbols, times, r[a] as int, r[b] as int));
        lemma_row_lt_irreflexive(symbols, times, r[a] as int);
    }
    lemma_distinct_below(r, symbols.len());
}

} // verus!
