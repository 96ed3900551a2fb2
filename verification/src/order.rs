//! The order of texts that `String` sorts by, and a stable sort of strings.
use vstd::prelude::*;
use crate::text::{chars_of, text_lt, vec_eq, vec_lt};

verus! {

pub proof fn lemma_text_lt_irreflexive(a: Seq<char>)
    ensures
        !text_lt(a, a),
    decreases a.len(),
{
    if a.len() > 0 {
        lemma_text_lt_irreflexive(a.drop_first());
    }
}

pub proof fn lemma_text_lt_transitive(a: Seq<char>, b: Seq<char>, c: Seq<char>)
    requires
        text_lt(a, b),
        text_lt(b, c),
    ensures
        text_lt(a, c),
    decreases a.len(),
{
    if a.len() > 0 && b.len() > 0 && c.len() > 0 && a[0] == b[0] && b[0] == c[0] {
        lemma_text_lt_transitive(a.drop_first(), b.drop_first(), c.drop_first());
    }
}

pub proof fn lemma_text_lt_total(a: Seq<char>, b: Seq<char>)
    ensures
        a == b || text_lt(a, b) || text_lt(b, a),
    decreases a.len(),
{
    if a.len() > 0 && b.len() > 0 {
        if a[0] == b[0] {
            lemma_text_lt_total(a.drop_first(), b.drop_first());
            if a.drop_first() == b.drop_first() {
                assert(a =~= seq![a[0]] + a.drop_first());
                assert(b =~= seq![b[0]] + b.drop_first());
            }
        } else {
            if (a[0] as u32) == (b[0] as u32) {
                vstd::utf8::char_u32_cast(a[0], a[0] as u32);
                vstd::utf8::char_u32_cast(b[0], b[0] as u32);
            }
        }
    } else if a.len() == 0 && b.len() == 0 {
        assert(a =~= b);
    }
}

pub open spec fn texts(v: Seq<String>) -> Seq<Seq<char>> {
    v.map_values(|s: String| s@)
}

/// Each text sorts no earlier than the ones before it.
pub open spec fn sorted_texts(s: Seq<Seq<char>>) -> bool {
    forall|i: int, j: int| 0 <= i < j < s.len() ==> !text_lt(s[j], s[i])
}

/// Sorts strings ascending as `slice::sort` does; equal strings keep their order.
pub fn sort_strings(v: &mut Vec<String>)
    ensures
        sorted_texts(texts(final(v)@)),
        texts(final(v)@).to_multiset() == texts(old(v)@).to_multiset(),
{
    let input = v.clone();
    let mut out: Vec<String> = Vec::new();
    let mut i: usize = 0;
    assert(texts(input@.subrange(0, 0)) =~= texts(out@));
    while i < input.len()
        invariant
            i <= input.len(),
            sorted_texts(texts(out@)),
            texts(out@).to_multiset() == texts(input@.subrange(0, i as int)).to_multiset(),
        decreases input.len() - i,
    {
        let x = input[i].clone();
        let xv = chars_of(x.as_str());
        let mut p: usize = 0;
        while p < out.len() && !vec_lt(&xv, &chars_of(out[p].as_str()))
            invariant
                p <= out.len(),
                xv@ == x@,
                forall|k: int| 0 <= k < p ==> !text_lt(x@, #[trigger] texts(out@)[k]),
            decreases out.len() - p,
        {
            p = p + 1;
        }
        let ghost before = texts(out@);
        out.insert(p, x);
        proof {
            let after = texts(out@);
            assert(after =~= before.insert(p as int, x@));
            assert forall|a: int, b: int| 0 <= a < b < after.len() implies !text_lt(after[b], after[a]) by {
                if a < p && b == p {
                } else if a == p && b > p {
                    let y = before[b - 1];
                    let first = before[p as int];
                    assert(text_lt(x@, first));
                    if text_lt(y, x@) {
                        lemma_text_lt_transitive(y, x@, first);
                        if b - 1 > p {
                            assert(!text_lt(before[b - 1], before[p as int]));
                        } else {
                            lemma_text_lt_irreflexive(first);
                        }
                    }
                } else if a < p && b > p {
                    assert(!text_lt(before[b - 1], before[a]));
                } else if a > p {
                    assert(!text_lt(before[b - 1], before[a - 1]));
                } else {
                    assert(!text_lt(before[b], before[a]));
                }
            }
            vstd::seq_lib::to_multiset_insert(before, p as int, x@);
            let s = input@.subrange(0, i + 1);
            assert(texts(s) =~= texts(input@.subrange(0, i as int)).push(x@));
            vstd::seq_lib::to_multiset_build(texts(input@.subrange(0, i as int)), x@);
            assert(texts(input@.subrange(0, i as int)).push(x@) =~= texts(input@.subrange(0, i as int)).insert(
                i as int,
                x@,
            ));
        }
        i = i + 1;
    }
    assert(input@.subrange(0, input.len() as int) =~= input@);
    *v = out;
}

/// Strictly ascending texts: sorted, with no text twice.
pub open spec fn strictly_sorted(s: Seq<Seq<char>>) -> bool {
    forall|i: int, j: int| 0 <= i < j < s.len() ==> text_lt(#[trigger] s[i], #[trigger] s[j])
}

/// The same texts occur in both.
pub open spec fn same_members(a: Seq<Seq<char>>, b: Seq<Seq<char>>) -> bool {
    forall|x: Seq<char>|
        #![trigger a.contains(x)]
        #![trigger b.contains(x)]
        a.contains(x) <==> b.contains(x)
}

/// The texts sorted ascending, each once (what collecting into a
/// `BTreeSet` and back gives).
pub fn sorted_unique(v: Vec<String>) -> (r: Vec<String>)
    ensures
        strictly_sorted(texts(r@)),
        same_members(texts(r@), texts(v@)),
{
    let ghost unsorted = texts(v@);
    let mut picked = v;
    sort_strings(&mut picked);
    proof {
        assert forall|x: Seq<char>| texts(picked@).contains(x) <==> unsorted.contains(x) by {
            vstd::seq_lib::to_multiset_contains(texts(picked@), x);
            vstd::seq_lib::to_multiset_contains(unsorted, x);
        }
    }
    let mut out: Vec<String> = Vec::new();
    let mut k: usize = 0;
    while k < picked.len()
        invariant
            k <= picked.len(),
            sorted_texts(texts(picked@)),
            strictly_sorted(texts(out@)),
            out.len() > 0 ==> k > 0 && out@[out.len() - 1]@ == picked@[k - 1]@,
            same_members(texts(out@), texts(picked@).subrange(0, k as int)),
        decreases picked.len() - k,
    {
        let ghost before = out@;
        let cur = chars_of(picked[k].as_str());
        let fresh = if out.len() == 0 {
            true
        } else {
            let last = chars_of(out[out.len() - 1].as_str());
            !vec_eq(&last, &cur)
        };
        if fresh {
            out.push(picked[k].clone());
        }
        proof {
            let p = texts(picked@);
            let o = texts(out@);
            assert(same_members(texts(before), p.subrange(0, k as int)));
            assert(p.subrange(0, k + 1) =~= p.subrange(0, k as int).push(p[k as int]));
            if fresh {
                assert(o =~= texts(before).push(p[k as int]));
                if before.len() > 0 {
                    let last = before[before.len() - 1]@;
                    assert(last == p[k - 1]);
                    assert(!text_lt(p[k as int], p[k - 1]));
                    lemma_text_lt_total(p[k - 1], p[k as int]);
                    assert(text_lt(last, p[k as int]));
                    assert forall|a: int, b: int| 0 <= a < b < o.len() implies text_lt(#[trigger] o[a], #[trigger] o[b]) by {
                        if b == o.len() - 1 && a < o.len() - 2 {
                            assert(o[a] == texts(before)[a]);
                            assert(last == texts(before)[before.len() - 1]);
                            assert(text_lt(o[a], last));
                            lemma_text_lt_transitive(o[a], last, p[k as int]);
                        } else if b < o.len() - 1 {
                            assert(o[a] == texts(before)[a] && o[b] == texts(before)[b]);
                        }
                    }
                }
            } else {
                assert(o =~= texts(before));
            }
            assert forall|x: Seq<char>| o.contains(x) <==> p.subrange(0, k + 1).contains(x) by {
                let q = p.subrange(0, k as int);
                let q1 = p.subrange(0, k + 1);
                if q1.contains(x) {
                    let j = choose|j: int| 0 <= j < q1.len() && q1[j] == x;
                    if j < k {
                        assert(q[j] == x);
                        assert(texts(before).contains(x));
                        let m = choose|m: int| 0 <= m < texts(before).len() && texts(before)[m] == x;
                        assert(o[m] == x);
                    } else if fresh {
                        assert(o[o.len() - 1] == x);
                    } else {
                        assert(o[o.len() - 1] == x);
                    }
                }
                if o.contains(x) {
                    let m = choose|m: int| 0 <= m < o.len() && o[m] == x;
                    if fresh && m == o.len() - 1 {
                        assert(q1[k as int] == x);
                    } else {
                        assert(texts(before)[m] == x);
                        assert(texts(before).contains(x));
                        assert(q.contains(x));
                        let j = choose|j: int| 0 <= j < q.len() && q[j] == x;
                        assert(q1[j] == x);
                    }
                }
            }
        }
        k = k + 1;
    }
    assert(texts(picked@).subrange(0, picked.len() as int) =~= texts(picked@));
    assert(same_members(texts(out@), texts(picked@)));
    assert forall|x: Seq<char>| texts(out@).contains(x) <==> unsorted.contains(x) by {
        assert(texts(out@).contains(x) == texts(picked@).contains(x));
    }
    out
}


/// The positions `r` picks out of `v`, in the order `r` lists them.
pub open spec fn picked<T>(v: Seq<T>, r: Seq<usize>) -> Seq<T> {
    r.map_values(|k: usize| v[k as int])
}

/// The positions `0..n` in order.
pub open spec fn all_positions(n: nat) -> Seq<usize> {
    Seq::new(n, |k: int| k as usize)
}

/// A strictly increasing list of positions below `n` that names every one of
/// them names each once, in order.
pub proof fn lemma_increasing_cover_is_identity(r: Seq<usize>, n: nat)
    requires
        n <= usize::MAX,
        forall|k: int| 0 <= k < r.len() ==> r[k] < n,
        forall|i: int| 0 <= i < n ==> #[trigger] r.contains(i as usize),
        forall|a: int, b: int| 0 <= a < b < r.len() ==> r[a] < r[b],
    ensures
        r == all_positions(n),
{
    lemma_cover_prefix(r, n, r.len());
    if r.len() < n {
        let i: int = r.len() as int;
        assert(r.contains(i as usize));
        let p = choose|p: int| 0 <= p < r.len() && r[p] == i as usize;
        assert(r[p] == p);
    }
    if r.len() > n {
        assert(r[n as int] == n);
    }
    assert(r.len() == n);
    assert forall|k: int| 0 <= k < r.len() implies r[k] == all_positions(n)[k] by {
        assert(r[k] == k);
    }
    assert(r =~= all_positions(n));
}

proof fn lemma_cover_prefix(r: Seq<usize>, n: nat, k: nat)
    requires
        n <= usize::MAX,
        forall|k: int| 0 <= k < r.len() ==> r[k] < n,
        forall|i: int| 0 <= i < n ==> #[trigger] r.contains(i as usize),
        forall|a: int, b: int| 0 <= a < b < r.len() ==> r[a] < r[b],
        k <= r.len(),
    ensures
        forall|m: int| 0 <= m < k ==> r[m] == m,
    decreases k,
{
    if k > 0 {
        lemma_cover_prefix(r, n, (k - 1) as nat);
        let m = k - 1;
        if m > 0 {
            assert(r[m - 1] == m - 1);
            assert(r[m - 1] < r[m as int]);
        }
        assert(r[m as int] >= m);
        assert(m < n);
        let i: int = m as int;
        assert(r.contains(i as usize));
        let p = choose|p: int| 0 <= p < r.len() && r[p] == i as usize;
        if p < m {
            assert(r[p] == p);
        } else if p > m {
            assert(r[m as int] < r[p]);
        }
    }
}


/// Distinct positions below `n` number at most `n`.
pub proof fn lemma_distinct_below(r: Seq<usize>, n: nat)
    requires
        forall|k: int| 0 <= k < r.len() ==> r[k] < n,
        forall|a: int, b: int| 0 <= a < b < r.len() ==> r[a] != r[b],
    ensures
        r.len() <= n,
{
    let ri = r.map_values(|x: usize| x as int);
    assert(ri.no_duplicates()) by {
        assert forall|a: int, b: int| 0 <= a < ri.len() && 0 <= b < ri.len() && a != b implies ri[a] != ri[b] by {
            if a < b {
                assert(r[a] != r[b]);
            } else {
                assert(r[b] != r[a]);
            }
        }
    }
    ri.unique_seq_to_set();
    vstd::set_lib::lemma_int_range(0, n as int);
    assert(ri.to_set().subset_of(vstd::set_lib::set_int_range(0, n as int))) by {
        assert forall|x: int| ri.to_set().contains(x) implies vstd::set_lib::set_int_range(0, n as int).contains(x) by {
            let k = choose|k: int| 0 <= k < ri.len() && ri[k] == x;
            assert(r[k] < n);
        }
    }
    vstd::set_lib::lemma_len_subset(ri.to_set(), vstd::set_lib::set_int_range(0, n as int));
}

} // verus!
