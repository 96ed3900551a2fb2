//! Converting exported CSV archives into Parquet partitions: what the
//! converters share, and one module per converter.
pub mod daily;
pub mod index_daily;
pub mod minute;
pub mod minute_s3;

use vstd::prelude::*;
use vstd::string::StringSliceAdditionalSpecFns;
use vstd::utf8::{encode_utf8, is_char_boundary, valid_utf8};
use crate::order::{same_members, sorted_unique, strictly_sorted, texts};
use crate::text::{chars_of, find_first, lemma_first_pos, slice_of, string_of, trim, trim_vec};
use crate::ingest::second_field;

verus! {

/// Positions `a..b` of `s` hold one line: no `\n` inside, the text's start
/// or a `\n` before it, the text's end or a `\n` after it.
pub open spec fn is_line(s: Seq<char>, a: int, b: int) -> bool {
    &&& 0 <= a <= b <= s.len()
    &&& (a == 0 || s[a - 1] == '\n')
    &&& (b == s.len() || s[b] == '\n')
    &&& forall|k: int| a <= k < b ==> s[k] != '\n'
}

/// `e` is the trimmed text of a line of `s` that is not blank.
pub open spec fn manifest_entry(s: Seq<char>, e: Seq<char>) -> bool {
    &&& e.len() > 0
    &&& exists|a: int, b: int| #[trigger] is_line(s, a, b) && e == trim(s.subrange(a, b))
}

proof fn lemma_line_start(s: Seq<char>, start: int, a: int, b: int)
    requires
        0 <= start <= b,
        start == 0 || s[start - 1] == '\n',
        forall|k: int| start <= k < b ==> s[k] != '\n',
        is_line(s, a, b),
    ensures
        a == start,
{
    if a < start {
        assert(s[start - 1] != '\n');
    } else if a > start {
        assert(s[a - 1] != '\n');
    }
}

fn push_trimmed(found: &mut Vec<String>, s: &Vec<char>, a: usize, b: usize)
    requires
        a <= b <= s.len(),
    ensures
        pushed(s@, old(found)@, final(found)@, a as int, b as int),
{
    let piece = slice_of(s, a, b);
    let t = trim_vec(&piece);
    let ghost before = found@;
    if t.len() > 0 {
        found.push(string_of(&t));
        assert(found@.subrange(0, before.len() as int) =~= before);
    }
}

/// `after` is `before` with the trimmed line `a..b` added when it is not blank.
spec fn pushed(s: Seq<char>, before: Seq<String>, after: Seq<String>, a: int, b: int) -> bool {
    &&& trim(s.subrange(a, b)).len() == 0 ==> after == before
    &&& trim(s.subrange(a, b)).len() > 0 ==> after.len() == before.len() + 1 && after.subrange(0, before.len() as int)
        == before && after[before.len() as int]@ == trim(s.subrange(a, b))
}

/// Each collected entry is a trimmed line that is not blank.
#[verifier::opaque]
spec fn entries_sound(s: Seq<char>, found: Seq<String>) -> bool {
    forall|q: int|
        0 <= q < found.len() ==> (#[trigger] found[q])@.len() > 0 && exists|a: int, b: int|
            #[trigger] is_line(s, a, b) && found[q]@ == trim(s.subrange(a, b))
}

/// Each line that ends before `limit` and is not blank was collected.
#[verifier::opaque]
spec fn entries_complete(s: Seq<char>, found: Seq<String>, limit: int) -> bool {
    forall|a: int, b: int|
        #[trigger] is_line(s, a, b) && b < limit && trim(s.subrange(a, b)).len() > 0 ==> exists|q: int|
            0 <= q < found.len() && (#[trigger] found[q])@ == trim(s.subrange(a, b))
}

proof fn lemma_collect_line(s: Seq<char>, before: Seq<String>, after: Seq<String>, start: int, i: int)
    requires
        is_line(s, start, i),
        entries_sound(s, before),
        entries_complete(s, before, start),
        pushed(s, before, after, start, i),
    ensures
        entries_sound(s, after),
        entries_complete(s, after, i + 1),
{
    reveal(entries_sound);
    reveal(entries_complete);
    assert forall|q: int| 0 <= q < after.len() implies (#[trigger] after[q])@.len() > 0 && exists|a: int, b: int|
        #[trigger] is_line(s, a, b) && after[q]@ == trim(s.subrange(a, b)) by {
        if q < before.len() {
            assert(after[q] == after.subrange(0, before.len() as int)[q]);
        } else {
            assert(is_line(s, start, i));
        }
    }
    assert forall|a: int, b: int|
        #[trigger] is_line(s, a, b) && b < i + 1 && trim(s.subrange(a, b)).len() > 0 implies exists|q: int|
        0 <= q < after.len() && (#[trigger] after[q])@ == trim(s.subrange(a, b)) by {
        if b < start {
            let q = choose|q: int| 0 <= q < before.len() && (#[trigger] before[q])@ == trim(s.subrange(a, b));
            assert(after[q] == after.subrange(0, before.len() as int)[q]);
        } else {
            if b < i {
                assert(s[b] != '\n');
            }
            lemma_line_start(s, start, a, b);
            assert(after[before.len() as int]@ == trim(s.subrange(a, b)));
        }
    }
}

proof fn lemma_entries_exact(s: Seq<char>, all: Seq<String>, r: Seq<String>)
    requires
        entries_sound(s, all),
        entries_complete(s, all, s.len() as int + 1),
        same_members(texts(r), texts(all)),
    ensures
        forall|e: Seq<char>|
            #![trigger texts(r).contains(e)]
            #![trigger manifest_entry(s, e)]
            texts(r).contains(e) <==> manifest_entry(s, e),
{
    reveal(entries_sound);
    reveal(entries_complete);
    assert forall|e: Seq<char>| texts(r).contains(e) <==> manifest_entry(s, e) by {
        if texts(r).contains(e) {
            assert(texts(all).contains(e));
            let q = choose|q: int| 0 <= q < texts(all).len() && texts(all)[q] == e;
            assert(all[q]@ == e);
        }
        if manifest_entry(s, e) {
            let (a, b) = choose|a: int, b: int| #[trigger] is_line(s, a, b) && e == trim(s.subrange(a, b));
            let q = choose|q: int| 0 <= q < all.len() && (#[trigger] all[q])@ == trim(s.subrange(a, b));
            assert(texts(all)[q] == e);
            assert(texts(all).contains(e));
        }
    }
}

/// The entries of a manifest file's text: each line trimmed, blank lines
/// left out, sorted and each once (`lines`, `trim`, `filter`, collected
/// into a `BTreeSet`).
pub fn manifest_entries(text: &str) -> (r: Vec<String>)
    ensures
        strictly_sorted(texts(r@)),
        forall|e: Seq<char>|
            #![trigger texts(r@).contains(e)]
            #![trigger manifest_entry(text@, e)]
            texts(r@).contains(e) <==> manifest_entry(text@, e),
{
    let s = chars_of(text);
    let n = s.len();
    let mut found: Vec<String> = Vec::new();
    let mut start: usize = 0;
    let mut i: usize = 0;
    proof {
        reveal(entries_sound);
        reveal(entries_complete);
    }
    while i < n
        invariant
            n == s.len(),
            s@ == text@,
            start <= i <= n,
            start == 0 || s@[start - 1] == '\n',
            forall|k: int| start <= k < i ==> s@[k] != '\n',
            entries_sound(s@, found@),
            entries_complete(s@, found@, start as int),
        decreases n - i,
    {
        if s[i] == '\n' {
            let ghost before = found@;
            push_trimmed(&mut found, &s, start, i);
            proof {
                lemma_collect_line(s@, before, found@, start as int, i as int);
            }
            start = i + 1;
        }
        i = i + 1;
    }
    let ghost before = found@;
    push_trimmed(&mut found, &s, start, n);
    proof {
        lemma_collect_line(s@, before, found@, start as int, n as int);
    }
    let ghost all = found@;
    let r = sorted_unique(found);
    proof {
        lemma_entries_exact(s@, all, r@);
    }
    r
}

/// A manifest that ends a line, with one more line appended (as a run
/// records a finished source file), reads back as the entries it had plus
/// the appended one: a source recorded once is skipped from then on, and
/// no earlier entry is lost.
pub proof fn law_manifest_records_entry(text: Seq<char>, entry: Seq<char>)
    requires
        text.len() == 0 || text.last() == '\n',
        entry.len() > 0,
        trim(entry) == entry,
        forall|i: int| 0 <= i < entry.len() ==> entry[i] != '\n',
    ensures
        forall|e: Seq<char>|
            #![trigger manifest_entry(text + entry + seq!['\n'], e)]
            manifest_entry(text + entry + seq!['\n'], e) <==> (manifest_entry(text, e) || e == entry),
{
    let s = text + entry + seq!['\n'];
    let n = text.len() as int;
    let m = n + entry.len();
    assert(s.len() == m + 1);
    assert forall|k: int| 0 <= k < n implies s[k] == text[k] by {}
    assert forall|k: int| n <= k < m implies s[k] == entry[k - n] by {}
    assert(s[m] == '\n');
    assert(s.subrange(n, m) =~= entry);
    assert(is_line(s, n, m));
    assert forall|e: Seq<char>| manifest_entry(s, e) <==> (manifest_entry(text, e) || e == entry) by {
        if manifest_entry(s, e) {
            let (a, b) = choose|a: int, b: int| #[trigger] is_line(s, a, b) && e == trim(s.subrange(a, b));
            if b < n {
                assert(s.subrange(a, b) =~= text.subrange(a, b));
                assert(is_line(text, a, b));
            } else if b < m {
                assert(s[b] == entry[b - n]);
            } else if b == m {
                if a < n {
                    assert(s[n - 1] == text[n - 1]);
                } else if a > n {
                    assert(s[a - 1] == entry[a - 1 - n]);
                }
                assert(a == n);
            } else {
                assert(b == m + 1);
                if a <= m {
                    assert(s[m] == '\n');
                }
                assert(s.subrange(a, b).len() == 0);
                assert(trim(s.subrange(a, b)) =~= Seq::<char>::empty());
            }
        }
        if manifest_entry(text, e) {
            let (a, b) = choose|a: int, b: int| #[trigger] is_line(text, a, b) && e == trim(text.subrange(a, b));
            if b == n {
                if a < n {
                    assert(text[n - 1] == '\n');
                }
                assert(text.subrange(a, b).len() == 0);
                assert(trim(text.subrange(a, b)) =~= Seq::<char>::empty());
            } else {
                assert(s.subrange(a, b) =~= text.subrange(a, b));
                assert(is_line(s, a, b));
            }
        }
        if e == entry {
            assert(is_line(s, n, m) && e == trim(s.subrange(n, m)));
        }
    }
}

/// The second `.`-separated field of a text, as it stands (`split('.').nth(1)`).
pub fn second_field_of(v: &Vec<char>) -> (r: Option<Vec<char>>)
    ensures
        match r {
            Some(f) => second_field(v@) == Some(f@),
            None => second_field(v@) is None,
        },
{
    proof {
        lemma_first_pos(v@, '.');
    }
    let k = match find_first(v, '.') {
        Some(k) => k,
        None => return None,
    };
    assert(k < v.len());
    let rest = slice_of(v, k + 1, v.len());
    proof {
        lemma_first_pos(rest@, '.');
    }
    match find_first(&rest, '.') {
        Some(j) => Some(slice_of(&rest, 0, j)),
        None => Some(rest),
    }
}

/// The trimmed text's UTF-8 bytes.
pub open spec fn trimmed_bytes(s: Seq<char>) -> Seq<u8> {
    encode_utf8(trim(s))
}

/// A date-like field can be cut at bytes 4, 5, 7 and 10 when it is at least
/// ten bytes long (`time[0..10]`, then `[0..4]` and `[5..7]` of that).
pub open spec fn date_field_sliceable(time: Seq<char>) -> bool {
    let b = trimmed_bytes(time);
    b.len() >= 10 ==> is_char_boundary(b, 4) && is_char_boundary(b, 5) && is_char_boundary(b, 7)
        && is_char_boundary(b, 10)
}

proof fn lemma_boundary_in_prefix(b: Seq<u8>, p: Seq<u8>, n: int, k: int)
    requires
        valid_utf8(b),
        valid_utf8(p),
        0 <= k < n <= b.len(),
        p == b.subrange(0, n),
    ensures
        is_char_boundary(p, k) == is_char_boundary(b, k),
{
    vstd::utf8::is_char_boundary_iff_not_is_continuation_byte(b, k);
    vstd::utf8::is_char_boundary_iff_not_is_continuation_byte(p, k);
}

/// The first ten bytes of a trimmed date-like field, and bytes `0..4` and
/// `5..7` of them (date, year, month).
pub(crate) fn date_parts(field: &str) -> (r: Option<(String, String, String)>)
    requires
        date_field_sliceable(field@),
    ensures
        r is Some <==> trimmed_bytes(field@).len() >= 10,
        r matches Some((d, y, m)) ==> encode_utf8(d@) == trimmed_bytes(field@).subrange(0, 10) && encode_utf8(y@)
            == trimmed_bytes(field@).subrange(0, 4) && encode_utf8(m@) == trimmed_bytes(field@).subrange(5, 7),
{
    let tv = chars_of(field);
    let time = string_of(&trim_vec(&tv));
    let t = time.as_str();
    assert(t.spec_bytes() == trimmed_bytes(field@));
    if t.as_bytes().len() < 10 {
        return None;
    }
    let (date, _) = t.split_at(10);
    let (year, _) = t.split_at(4);
    let (first7, _) = t.split_at(7);
    proof {
        vstd::utf8::encode_utf8_valid_utf8(t@);
        vstd::utf8::encode_utf8_valid_utf8(first7@);
        lemma_boundary_in_prefix(t.spec_bytes(), first7.spec_bytes(), 7, 5);
    }
    let (_, month) = first7.split_at(5);
    proof {
        assert(month.spec_bytes() =~= trimmed_bytes(field@).subrange(5, 7));
    }
    Some((String::from_str(date), String::from_str(year), String::from_str(month)))
}

} // verus!
