use vstd::arithmetic::div_mod::{lemma_fundamental_div_mod, lemma_fundamental_div_mod_converse_div};
use vstd::prelude::*;

verus! {

/// `ceil(m / n)`: how many jobs each batch gets when `m` jobs are split into
/// `n` batches.
pub open spec fn chunk_size(m: nat, n: nat) -> nat
    recommends
        n > 0,
{
    ((m + n - 1) / n as int) as nat
}

/// How many batches of `size` jobs (the last one possibly shorter) hold `m` jobs.
pub open spec fn chunk_count(m: nat, size: nat) -> nat {
    if size == 0 {
        0
    } else {
        ((m + size - 1) / size as int) as nat
    }
}

/// Where batch `k` of size `size` ends among `m` jobs (exclusive).
pub open spec fn chunk_end(k: int, size: int, m: int) -> int {
    if (k + 1) * size < m {
        (k + 1) * size
    } else {
        m
    }
}

/// The split of `jobs` into contiguous batches of `chunk_size(|jobs|, n)` jobs,
/// the last of which holds what remains.
pub open spec fn chunks_of(jobs: Seq<String>, n: nat) -> Seq<Seq<String>> {
    let m = jobs.len();
    let size = chunk_size(m, n);
    Seq::new(
        chunk_count(m, size),
        |k: int| jobs.subrange(k * size, chunk_end(k, size as int, m as int)),
    )
}

/// The batches as sequences of jobs.
pub open spec fn batch_views(batches: Seq<Vec<String>>) -> Seq<Seq<String>> {
    batches.map_values(|b: Vec<String>| b@)
}

/// The sum of the batches' lengths.
pub open spec fn total_len(batches: Seq<Seq<String>>) -> nat
    decreases batches.len(),
{
    if batches.len() == 0 {
        0
    } else {
        batches.first().len() + total_len(batches.drop_first())
    }
}

/// `q` is `ceil(m / d)` exactly when `(q - 1) * d < m <= q * d`.
proof fn lemma_ceil_div(m: int, d: int, q: int)
    requires
        d > 0,
        m >= 0,
        (q - 1) * d < m,
        m <= q * d,
    ensures
        (m + d - 1) / d == q,
{
    assert((q - 1) * d == q * d - d) by (nonlinear_arith);
    let r = m + d - 1 - d * q;
    assert(d * q == q * d) by (nonlinear_arith);
    lemma_fundamental_div_mod_converse_div(m + d - 1, d, q, r);
}

/// The chunk size in the form computed without overflow.
proof fn lemma_chunk_size_exec(m: int, n: int)
    requires
        m > 0,
        n > 0,
    ensures
        (m + n - 1) / n == (m - 1) / n + 1,
{
    let t = (m - 1) / n;
    let q = t + 1;
    lemma_fundamental_div_mod(m - 1, n);
    assert((q - 1) * n == n * t) by (nonlinear_arith)
        requires
            q == t + 1,
    ;
    assert(q * n == (q - 1) * n + n) by (nonlinear_arith);
    lemma_ceil_div(m, n, q);
}

/// A fresh vector holding `jobs[lo..hi]`.
fn copy_range(jobs: &Vec<String>, lo: usize, hi: usize) -> (r: Vec<String>)
    requires
        lo <= hi <= jobs@.len(),
    ensures
        r@ == jobs@.subrange(lo as int, hi as int),
{
    let mut r: Vec<String> = Vec::new();
    let mut i: usize = lo;
    while i < hi
        invariant
            lo <= i <= hi,
            hi <= jobs@.len(),
            r@ == jobs@.subrange(lo as int, i as int),
        decreases hi - i,
    {
        r.push(jobs[i].clone());
        assert(jobs@.subrange(lo as int, i + 1) =~= jobs@.subrange(lo as int, i as int).push(
            jobs@[i as int],
        ));
        i = i + 1;
    }
    r
}

/// Splits `jobs` into contiguous batches of `ceil(|jobs| / n)` jobs, the last
/// of which holds what remains; no batch is empty.
pub fn partition(jobs: &Vec<String>, n: usize) -> (r: Vec<Vec<String>>)
    requires
        n > 0,
    ensures
        batch_views(r@) == chunks_of(jobs@, n as nat),
{
    let m = jobs.len();
    let size: usize = if m == 0 {
        0
    } else {
        (m - 1) / n + 1
    };
    proof {
        if m > 0 {
            lemma_chunk_size_exec(m as int, n as int);
        } else {
            lemma_ceil_div(0, n as int, 0);
        }
    }
    assert(size == chunk_size(m as nat, n as nat));
    let ghost spec_chunks = chunks_of(jobs@, n as nat);
    let mut r: Vec<Vec<String>> = Vec::new();
    let mut start: usize = 0;
    while start < m
        invariant
            m == jobs@.len(),
            size == chunk_size(m as nat, n as nat),
            m > 0 ==> size > 0,
            start <= m,
            start < m ==> start == r@.len() * size,
            r@.len() > 0 ==> (r@.len() - 1) * size < m,
            r@.len() == 0 ==> start == 0,
            start == m ==> m <= r@.len() * size,
            forall|k: int|
                0 <= k < r@.len() ==> #[trigger] r@[k]@ == jobs@.subrange(
                    k * size,
                    chunk_end(k, size as int, m as int),
                ),
        decreases m - start,
    {
        let k = r.len();
        assert((k + 1) * size == k * size + size) by (nonlinear_arith);
        let end: usize = if m - start <= size {
            m
        } else {
            start + size
        };
        assert(end == chunk_end(k as int, size as int, m as int));
        let chunk = copy_range(jobs, start, end);
        r.push(chunk);
        start = end;
    }
    proof {
        let c = r@.len() as int;
        if m > 0 {
            lemma_ceil_div(m as int, size as int, c);
        }
        assert(batch_views(r@) =~= spec_chunks);
    }
    r
}

/// The count `(m + d - 1) / d` satisfies `(q - 1) * d < m <= q * d`.
proof fn lemma_ceil_bounds(m: int, d: int)
    requires
        d > 0,
        m >= 0,
    ensures
        ((m + d - 1) / d - 1) * d < m,
        m <= ((m + d - 1) / d) * d,
{
    let q = (m + d - 1) / d;
    lemma_fundamental_div_mod(m + d - 1, d);
    assert(d * q == q * d) by (nonlinear_arith);
    assert((q - 1) * d == q * d - d) by (nonlinear_arith);
}

/// Facts on the bounds of each batch that the laws below share.
proof fn lemma_chunk_bounds(m: int, n: int)
    requires
        n > 0,
        m > 0,
    ensures
        ({
            let size = chunk_size(m as nat, n as nat) as int;
            let q = chunk_count(m as nat, size as nat) as int;
            &&& size > 0
            &&& q > 0
            &&& m <= size * n
            &&& (q - 1) * size < m
            &&& m <= q * size
            &&& q <= n
        }),
{
    let size = chunk_size(m as nat, n as nat) as int;
    lemma_ceil_bounds(m, n);
    assert(size > 0) by (nonlinear_arith)
        requires
            m <= size * n,
            m > 0,
            n > 0,
    ;
    assert(size * n == n * size) by (nonlinear_arith);
    lemma_ceil_bounds(m, size);
    let q = chunk_count(m as nat, size as nat) as int;
    assert(q > 0) by (nonlinear_arith)
        requires
            m <= q * size,
            m > 0,
            size > 0,
    ;
    assert(q - 1 < n) by (nonlinear_arith)
        requires
            (q - 1) * size < m,
            m <= n * size,
            size > 0,
    ;
}

/// Batch `k` of a split starts at `k * size` and is not empty.
proof fn lemma_chunk_in_range(m: int, size: int, q: int, k: int)
    requires
        size > 0,
        (q - 1) * size < m,
        m <= q * size,
        0 <= k < q,
    ensures
        0 <= k * size < chunk_end(k, size, m) <= m,
        k < q - 1 ==> chunk_end(k, size, m) == (k + 1) * size,
        k == q - 1 ==> chunk_end(k, size, m) == m,
        (k + 1) * size == k * size + size,
{
    assert(0 <= k * size <= (q - 1) * size) by (nonlinear_arith)
        requires
            0 <= k < q,
            size > 0,
    ;
    assert((k + 1) * size == k * size + size) by (nonlinear_arith);
    if k < q - 1 {
        assert((k + 1) * size <= (q - 1) * size) by (nonlinear_arith)
            requires
                k + 1 <= q - 1,
                size > 0,
        ;
    }
}

/// Chunk-size law: every batch holds `ceil(m / n)` jobs except the last, which
/// holds the remainder; no batch is empty; there are at most `n` batches, and
/// exactly `m` of them when there are fewer jobs `m` than batches `n`.
pub proof fn lemma_chunk_sizes(jobs: Seq<String>, n: nat)
    requires
        n > 0,
    ensures
        ({
            let m = jobs.len();
            let size = chunk_size(m, n);
            let c = chunks_of(jobs, n);
            &&& forall|k: int| 0 <= k < c.len() - 1 ==> #[trigger] c[k].len() == size
            &&& c.len() > 0 ==> c.last().len() == m - (c.len() - 1) * size
            &&& forall|k: int| 0 <= k < c.len() ==> #[trigger] c[k].len() > 0
            &&& c.len() <= n
            &&& m < n ==> c.len() == m
            &&& m < n ==> forall|k: int| 0 <= k < c.len() ==> #[trigger] c[k].len() == 1
        }),
{
    let m = jobs.len() as int;
    let size = chunk_size(m as nat, n) as int;
    let c = chunks_of(jobs, n);
    let q = c.len() as int;
    if m > 0 {
        lemma_chunk_bounds(m, n as int);
        assert forall|k: int| 0 <= k < q implies #[trigger] c[k].len() == chunk_end(
            k,
            size,
            m,
        ) - k * size by {
            lemma_chunk_in_range(m, size, q, k);
        }
        assert forall|k: int| 0 <= k < q - 1 implies #[trigger] c[k].len() == size by {
            lemma_chunk_in_range(m, size, q, k);
        }
        lemma_chunk_in_range(m, size, q, q - 1);
        if m < n {
            lemma_ceil_div(m, n as int, 1);
            lemma_ceil_div(m, 1, m);
        }
    } else {
        lemma_ceil_div(0, n as int, 0);
    }
}

/// The batches, concatenated from `j` on, give the jobs from batch `j`'s start.
proof fn lemma_flatten_suffix(jobs: Seq<String>, n: nat, j: int)
    requires
        n > 0,
        jobs.len() > 0,
        0 <= j < chunks_of(jobs, n).len(),
    ensures
        ({
            let c = chunks_of(jobs, n);
            let size = chunk_size(jobs.len(), n) as int;
            c.subrange(j, c.len() as int).flatten() == jobs.subrange(
                j * size,
                jobs.len() as int,
            )
        }),
    decreases chunks_of(jobs, n).len() - j,
{
    let m = jobs.len() as int;
    let c = chunks_of(jobs, n);
    let q = c.len() as int;
    let size = chunk_size(jobs.len(), n) as int;
    lemma_chunk_bounds(m, n as int);
    lemma_chunk_in_range(m, size, q, j);
    let rest = c.subrange(j, q);
    assert(rest.first() == c[j]);
    assert(rest.drop_first() =~= c.subrange(j + 1, q));
    if j + 1 < q {
        lemma_flatten_suffix(jobs, n, j + 1);
        assert(jobs.subrange(j * size, m) =~= jobs.subrange(j * size, (j + 1) * size)
            + jobs.subrange((j + 1) * size, m));
    } else {
        assert(c.subrange(j + 1, q) =~= Seq::<Seq<String>>::empty());
        assert(rest.drop_first().flatten() =~= Seq::<String>::empty());
        assert(c[j] + Seq::<String>::empty() =~= c[j]);
    }
}

/// The summed length of a sequence of batches is the length of their concatenation.
proof fn lemma_total_len_flatten(batches: Seq<Seq<String>>)
    ensures
        total_len(batches) == batches.flatten().len(),
    decreases batches.len(),
{
    if batches.len() > 0 {
        lemma_total_len_flatten(batches.drop_first());
    }
}

/// Each job is handed out exactly once: the batches, concatenated in order,
/// are the job list itself, so their lengths add up to the number of jobs.
pub proof fn lemma_partition_covers(jobs: Seq<String>, n: nat)
    requires
        n > 0,
    ensures
        chunks_of(jobs, n).flatten() == jobs,
        total_len(chunks_of(jobs, n)) == jobs.len(),
{
    let c = chunks_of(jobs, n);
    if jobs.len() > 0 {
        lemma_chunk_bounds(jobs.len() as int, n as int);
        lemma_flatten_suffix(jobs, n, 0);
        assert(c.subrange(0, c.len() as int) =~= c);
        assert(jobs.subrange(0, jobs.len() as int) =~= jobs);
    } else {
        lemma_ceil_div(0, n as int, 0);
        assert(c.len() == 0);
        assert(c.flatten() =~= jobs);
    }
    lemma_total_len_flatten(c);
}

} // verus!
