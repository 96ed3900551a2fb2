//! Splitting symbol lists into batches and finding the symbols a source missed.
use vstd::prelude::*;

verus! {

/// How many chunks of `size` items `len` items make (`slice::chunks`).
pub open spec fn chunk_count(len: int, size: int) -> int {
    (len + size - 1) / size
}

/// The `k`-th chunk of `size` items.
pub open spec fn chunk_at(s: Seq<String>, size: int, k: int) -> Seq<String> {
    let lo = k * size;
    let hi = if (k + 1) * size < s.len() {
        (k + 1) * size
    } else {
        s.len() as int
    };
    s.subrange(lo, hi)
}

/// `s.chunks(size)` as a sequence of sequences.
pub open spec fn chunks_spec(s: Seq<String>, size: int) -> Seq<Seq<String>> {
    Seq::new(chunk_count(s.len() as int, size) as nat, |k: int| chunk_at(s, size, k))
}

/// Batch size that spreads `len` symbols over `workers` workers: the
/// rounded-up quotient, with at least one worker.
pub open spec fn worker_batch_size(len: int, workers: int) -> int {
    let w = if workers < 1 {
        1
    } else {
        workers
    };
    (len + w - 1) / w
}

/// The batches `split_symbols_into_workers` returns.
pub open spec fn worker_batches(s: Seq<String>, workers: int) -> Seq<Seq<String>> {
    if s.len() == 0 {
        Seq::empty()
    } else {
        let b = worker_batch_size(s.len() as int, workers);
        chunks_spec(s, if b < 1 {
            1
        } else {
            b
        })
    }
}

pub open spec fn vec_views(v: Seq<Vec<String>>) -> Seq<Seq<String>> {
    v.map_values(|b: Vec<String>| b@)
}

proof fn lemma_chunk_step(k: int, size: int, len: int)
    requires
        size >= 1,
        k >= 0,
        k * size < len,
    ensures
        (k + 1) * size == k * size + size,
        k < chunk_count(len, size),
{
    assert((k + 1) * size == k * size + size) by (nonlinear_arith);
    assert(k < (len + size - 1) / size) by (nonlinear_arith)
        requires
            size >= 1,
            k >= 0,
            k * size < len,
    {
        assert(k * size + size <= len + size - 1);
        assert((k + 1) * size <= len + size - 1);
    }
}

proof fn lemma_chunk_end(k: int, size: int, len: int)
    requires
        size >= 1,
        k >= 0,
        len >= 0,
        k * size >= len,
        k == 0 || (k - 1) * size < len,
    ensures
        k == chunk_count(len, size),
{
    assert(k == (len + size - 1) / size) by (nonlinear_arith)
        requires
            size >= 1,
            k >= 0,
            len >= 0,
            k * size >= len,
            k == 0 || (k - 1) * size < len,
    {
        if k == 0 {
            assert(len == 0);
        } else {
            assert((k - 1) * size + size == k * size);
        }
    }
}

/// The items in consecutive chunks of `size` (the last may be shorter),
/// as `slice::chunks` cuts them.
pub fn chunked(s: &[String], size: usize) -> (r: Vec<Vec<String>>)
    requires
        size >= 1,
    ensures
        vec_views(r@) == chunks_spec(s@, size as int),
{
    let mut out: Vec<Vec<String>> = Vec::new();
    let mut start: usize = 0;
    assert(out@.len() * size == 0);
    while start < s.len()
        invariant
            size >= 1,
            start == if out@.len() * size < s@.len() {
                out@.len() * size
            } else {
                s@.len() as int
            },
            out@.len() == 0 || (out@.len() - 1) * size < s@.len(),
            start <= s@.len() || out@.len() >= 1,
            forall|k: int| 0 <= k < out@.len() ==> #[trigger] out@[k]@ == chunk_at(s@, size as int, k),
        decreases s.len() - start,
    {
        let ghost k = out@.len() as int;
        proof {
            lemma_chunk_step(k, size as int, s@.len() as int);
        }
        let end = if s.len() - start > size {
            start + size
        } else {
            s.len()
        };
        let mut chunk: Vec<String> = Vec::new();
        let mut i = start;
        while i < end
            invariant
                start <= i <= end <= s.len(),
                chunk@ == s@.subrange(start as int, i as int),
            decreases end - i,
        {
            chunk.push(s[i].clone());
            i = i + 1;
        }
        assert(chunk@ == chunk_at(s@, size as int, k));
        out.push(chunk);
        start = end;
        assert(out@.len() == k + 1);
    }
    proof {
        let n = out@.len() as int;
        if start == s.len() && n >= 1 {
            lemma_chunk_step(n - 1, size as int, s@.len() as int);
        }
        lemma_chunk_end(n, size as int, s@.len() as int);
        assert(vec_views(out@) =~= chunks_spec(s@, size as int));
    }
    out
}

/// Splits the symbols into at most `worker_count` consecutive batches of
/// equal size (the last may be shorter).
pub fn split_symbols_into_workers(symbols: &[String], worker_count: usize) -> (r: Vec<Vec<String>>)
    ensures
        vec_views(r@) == worker_batches(symbols@, worker_count as int),
{
    if symbols.len() == 0 {
        let r: Vec<Vec<String>> = Vec::new();
        assert(vec_views(r@) =~= Seq::<Seq<String>>::empty());
        return r;
    }
    let w = if worker_count < 1 {
        1
    } else {
        worker_count
    };
    let n = symbols.len();
    let q = n / w;
    assert(n % w != 0 ==> q < n) by (nonlinear_arith)
        requires
            w >= 1,
            n >= 1,
            q == n / w,
    {
        if n % w != 0 {
            assert(w != 1);
        }
    }
    let batch = if n % w != 0 {
        q + 1
    } else {
        q
    };
    assert(batch == (n + w - 1) as int / w as int) by (nonlinear_arith)
        requires
            w >= 1,
            q == n / w,
            batch == if n % w != 0 {
                q + 1
            } else {
                q as int
            },
    {
    }
    let size = if batch < 1 {
        1
    } else {
        batch
    };
    chunked(symbols, size)
}

/// The text of each string.
pub open spec fn str_views(v: Seq<String>) -> Seq<Seq<char>> {
    v.map_values(|s: String| s@)
}

/// The symbols of `requested` that `found` does not hold, in request order.
pub open spec fn missing_spec(requested: Seq<Seq<char>>, found: Seq<Seq<char>>) -> Seq<Seq<char>>
    decreases requested.len(),
{
    if requested.len() == 0 {
        requested
    } else {
        let rest = missing_spec(requested.drop_last(), found);
        if found.contains(requested.last()) {
            rest
        } else {
            rest.push(requested.last())
        }
    }
}

fn holds(found: &[String], code: &String) -> (r: bool)
    ensures
        r == str_views(found@).contains(code@),
{
    let mut i: usize = 0;
    while i < found.len()
        invariant
            i <= found.len(),
            forall|j: int| 0 <= j < i ==> found@[j]@ != code@,
        decreases found.len() - i,
    {
        if found[i] == *code {
            assert(str_views(found@)[i as int] == code@);
            return true;
        }
        i = i + 1;
    }
    assert forall|j: int| 0 <= j < str_views(found@).len() implies str_views(found@)[j] != code@ by {
        assert(found@[j]@ != code@);
    }
    false
}

/// The requested symbols for which a source returned nothing, in request
/// order; a missing symbol requested twice is listed twice.
pub fn missing_symbols(requested: &[String], found: &[String]) -> (r: Vec<String>)
    ensures
        str_views(r@) == missing_spec(str_views(requested@), str_views(found@)),
{
    let mut out: Vec<String> = Vec::new();
    let mut i: usize = 0;
    while i < requested.len()
        invariant
            i <= requested.len(),
            str_views(out@) == missing_spec(
                str_views(requested@.subrange(0, i as int)),
                str_views(found@),
            ),
        decreases requested.len() - i,
    {
        proof {
            let s = str_views(requested@.subrange(0, i + 1));
            assert(s.drop_last() =~= str_views(requested@.subrange(0, i as int)));
            assert(s.last() == requested@[i as int]@);
        }
        let present = holds(found, &requested[i]);
        if !present {
            let ghost prev = out@;
            out.push(requested[i].clone());
            assert(str_views(out@) =~= str_views(prev).push(requested@[i as int]@));
        }
        i = i + 1;
    }
    assert(requested@.subrange(0, requested.len() as int) =~= requested@);
    out
}

proof fn lemma_chunks_prefix(s: Seq<String>, size: int, k: int)
    requires
        size >= 1,
        0 <= k <= chunk_count(s.len() as int, size),
    ensures
        chunks_spec(s, size).take(k).flatten() == s.subrange(0, if k * size < s.len() {
            k * size
        } else {
            s.len() as int
        }),
    decreases k,
{
    let len = s.len() as int;
    if k == 0 {
        assert(chunks_spec(s, size).take(0) =~= Seq::<Seq<String>>::empty());
        assert(s.subrange(0, 0) =~= Seq::<String>::empty());
    } else {
        lemma_chunks_prefix(s, size, k - 1);
        let c = chunks_spec(s, size);
        assert(c.take(k) =~= c.take(k - 1).push(c[k - 1]));
        c.take(k - 1).lemma_flatten_push(c[k - 1]);
        assert((k - 1) * size < len) by (nonlinear_arith)
            requires
                size >= 1,
                1 <= k <= (len + size - 1) / size,
        {
            assert((k - 1) * size + size <= ((len + size - 1) / size) * size);
            assert(((len + size - 1) / size) * size <= len + size - 1);
        }
        assert(k * size == (k - 1) * size + size) by (nonlinear_arith);
        let lo = (k - 1) * size;
        let hi = if k * size < len {
            k * size
        } else {
            len
        };
        assert(s.subrange(0, lo) + s.subrange(lo, hi) =~= s.subrange(0, hi));
    }
}

/// Chunking loses and reorders nothing: the chunks, concatenated, give the
/// items back; each chunk holds between one and `size` items.
pub proof fn law_chunks_concatenate_to_input(s: Seq<String>, size: int)
    requires
        size >= 1,
    ensures
        chunks_spec(s, size).flatten() == s,
        forall|k: int| 0 <= k < chunks_spec(s, size).len() ==> 1 <= (#[trigger] chunks_spec(s, size)[k]).len() <= size,
{
    let len = s.len() as int;
    let n = chunk_count(len, size);
    assert(n >= 0) by (nonlinear_arith)
        requires
            size >= 1,
            len >= 0,
            n == (len + size - 1) / size,
    {
    }
    lemma_chunks_prefix(s, size, n);
    assert(chunks_spec(s, size).take(n) =~= chunks_spec(s, size));
    assert(n * size >= len) by (nonlinear_arith)
        requires
            size >= 1,
            n == (len + size - 1) / size,
    {
    }
    assert(s.subrange(0, len) =~= s);
    assert forall|k: int| 0 <= k < chunks_spec(s, size).len() implies 1 <= (#[trigger] chunks_spec(s, size)[k]).len() <= size by {
        assert(k * size < len) by (nonlinear_arith)
            requires
                size >= 1,
                0 <= k < n,
                n == (len + size - 1) / size,
        {
            assert(k * size + size <= n * size);
            assert(n * size <= len + size - 1);
        }
        assert((k + 1) * size == k * size + size) by (nonlinear_arith);
    }
}

/// Spreading symbols over workers makes no more batches than workers (at
/// least one), and the batches, concatenated, give the symbols back.
pub proof fn law_worker_batches_fit_workers(s: Seq<String>, workers: int)
    ensures
        worker_batches(s, workers).len() <= if workers < 1 {
            1
        } else {
            workers
        },
        worker_batches(s, workers).flatten() == s,
{
    if s.len() == 0 {
        assert(worker_batches(s, workers) =~= Seq::<Seq<String>>::empty());
        assert(s =~= Seq::<String>::empty());
    } else {
        let w = if workers < 1 {
            1
        } else {
            workers
        };
        let len = s.len() as int;
        let b = worker_batch_size(len, workers);
        assert(b >= 1 && chunk_count(len, b) <= w) by (nonlinear_arith)
            requires
                w >= 1,
                len >= 1,
                b == (len + w - 1) / w,
        {
            assert(b * w >= len);
            assert(b >= 1);
            assert((len + b - 1) / b * b <= len + b - 1);
            assert(len + b - 1 < (w + 1) * b);
        }
        law_chunks_concatenate_to_input(s, b);
    }
}

} // verus!
