//! The statistics reducer: ascending sort and nearest-rank percentiles.

use vstd::prelude::*;
use vstd::relations::{sorted_by, total_ordering};
use vstd::seq_lib::lemma_sorted_unique;
use crate::harness::{error_count, latencies_of, lemma_error_count_concat, RunResult, Sample};

verus! {

/// The order in which latencies are sorted.
pub open spec fn ascending_order() -> spec_fn(u64, u64) -> bool {
    |a: u64, b: u64| a <= b
}

/// `s` sorted ascending; determined by the multiset of `s` alone.
pub open spec fn sorted_view(s: Seq<u64>) -> Seq<u64> {
    s.sort_by(ascending_order())
}

pub open spec fn is_ascending(s: Seq<u64>) -> bool {
    forall|i: int, j: int| 0 <= i <= j < s.len() ==> s[i] <= s[j]
}

/// Nearest-rank index of percentile `p` among `n >= 1` sorted values:
/// `round(p / 100 * (n - 1))`, clamped to `n - 1`.
pub open spec fn rank(p: int, n: int) -> int {
    let idx = (p * (n - 1) + 50) / 100;
    if idx > n - 1 { n - 1 } else { idx }
}

/// Percentile `p` of the ascending sequence `sorted`; `0` when it is empty.
pub open spec fn percentile_of(sorted: Seq<u64>, p: int) -> u64 {
    if sorted.len() == 0 {
        0
    } else {
        sorted[rank(p, sorted.len() as int)]
    }
}

proof fn lemma_ascending_order_total()
    ensures
        total_ordering(ascending_order()),
{
}

/// The sorted view is ascending and holds the same values.
pub proof fn lemma_sorted_view(s: Seq<u64>)
    ensures
        is_ascending(sorted_view(s)),
        sorted_view(s).to_multiset() == s.to_multiset(),
        sorted_view(s).len() == s.len(),
{
    lemma_ascending_order_total();
    s.lemma_sort_by_ensures(ascending_order());
    let t = sorted_view(s);
    assert forall|i: int, j: int| 0 <= i <= j < t.len() implies t[i] <= t[j] by {
        if i < j {
            assert((ascending_order())(t[i], t[j]));
        }
    }
    broadcast use vstd::seq_lib::group_to_multiset_ensures;
    assert(t.len() == t.to_multiset().len());
    assert(s.len() == s.to_multiset().len());
}

/// An ascending sequence holding the values of `s` is its sorted view.
pub proof fn lemma_ascending_is_sorted_view(t: Seq<u64>, s: Seq<u64>)
    requires
        is_ascending(t),
        t.to_multiset() == s.to_multiset(),
    ensures
        t == sorted_view(s),
{
    lemma_ascending_order_total();
    lemma_sorted_view(s);
    assert(sorted_by(t, ascending_order()));
    assert(sorted_by(sorted_view(s), ascending_order()));
    lemma_sorted_unique(t, sorted_view(s), ascending_order());
}

/// Sorting depends on the values alone, not on the order they arrived in.
pub proof fn lemma_sorted_view_order_independent(a: Seq<u64>, b: Seq<u64>)
    requires
        a.to_multiset() == b.to_multiset(),
    ensures
        sorted_view(a) == sorted_view(b),
{
    lemma_sorted_view(a);
    lemma_ascending_is_sorted_view(sorted_view(a), b);
}

/// The nearest-rank index grows with the percentile and stays in range.
pub proof fn lemma_rank_monotone(p: int, q: int, n: int)
    requires
        0 <= p <= q,
        n >= 1,
    ensures
        0 <= rank(p, n) <= rank(q, n) <= n - 1,
{
    assert(p * (n - 1) <= q * (n - 1)) by (nonlinear_arith)
        requires
            0 <= p <= q,
            n >= 1,
    ;
    assert(0 <= p * (n - 1)) by (nonlinear_arith)
        requires
            0 <= p,
            n >= 1,
    ;
    assert((p * (n - 1) + 50) / 100 <= (q * (n - 1) + 50) / 100) by (nonlinear_arith)
        requires
            p * (n - 1) <= q * (n - 1),
    ;
}

/// On ascending data a higher percentile is never smaller.
pub proof fn lemma_percentile_monotone(sorted: Seq<u64>, p: int, q: int)
    requires
        is_ascending(sorted),
        0 <= p <= q,
    ensures
        percentile_of(sorted, p) <= percentile_of(sorted, q),
{
    if sorted.len() > 0 {
        lemma_rank_monotone(p, q, sorted.len() as int);
    }
}

/// Returns the values of `v` in ascending order.
pub fn sort_ascending(v: &Vec<u64>) -> (r: Vec<u64>)
    ensures
        r@ == sorted_view(v@),
        is_ascending(r@),
{
    broadcast use vstd::seq_lib::group_to_multiset_ensures;
    let mut r: Vec<u64> = Vec::new();
    let mut k: usize = 0;
    while k < v.len()
        invariant
            k <= v@.len(),
            is_ascending(r@),
            r@.to_multiset() == v@.take(k as int).to_multiset(),
        decreases v@.len() - k,
    {
        let x = v[k];
        let mut i: usize = 0;
        while i < r.len() && r[i] <= x
            invariant
                i <= r@.len(),
                forall|j: int| 0 <= j < i ==> r@[j] <= x,
            decreases r@.len() - i,
        {
            i = i + 1;
        }
        let ghost before = r@;
        r.insert(i, x);
        assert forall|a: int, b: int| 0 <= a <= b < r@.len() implies r@[a] <= r@[b] by {
            if a < i && b > i {
                assert(r@[a] == before[a]);
                assert(r@[b] == before[b - 1]);
            }
        }
        assert(r@.to_multiset() == before.to_multiset().insert(x)) by {
            vstd::seq_lib::to_multiset_insert(before, i as int, x);
        }
        assert(v@.take(k + 1) =~= v@.take(k as int).push(x));
        proof {
            vstd::seq_lib::to_multiset_build(v@.take(k as int), x);
        }
        k = k + 1;
    }
    assert(v@.take(k as int) =~= v@);
    proof {
        lemma_ascending_is_sorted_view(r@, v@);
    }
    r
}

/// Nearest-rank percentile `p` of ascending `sorted`; `0` when it is empty.
pub fn percentile(sorted: &Vec<u64>, p: u64) -> (r: u64)
    ensures
        r == percentile_of(sorted@, p as int),
{
    let n = sorted.len();
    if n == 0 {
        return 0;
    }
    let top = n - 1;
    assert((p as int) * (top as int) <= u64::MAX as int * u64::MAX as int) by (nonlinear_arith)
        requires
            0 <= p <= u64::MAX,
            0 <= top <= u64::MAX,
    ;
    let scaled: u128 = (p as u128) * (top as u128);
    let idx = (scaled + 50) / 100;
    let i: usize = if idx > top as u128 { top } else { idx as usize };
    sorted[i]
}


/// Summary of one run. Latencies are in nanoseconds.
pub struct Report {
    pub p50_nanos: u64,
    pub p95_nanos: u64,
    pub p99_nanos: u64,
    /// Samples merged: `concurrency * quota`, possibly below `requests`.
    pub count: usize,
    pub errors: usize,
    /// The nominal request count; throughput is `requests / elapsed`.
    pub requests: usize,
    pub elapsed_nanos: u64,
    /// Every latency, in merge order.
    pub latencies_nanos: Vec<u64>,
}

/// Reduces a merged run to its report: nearest-rank percentiles over the sorted
/// latencies, the sample and error counts, and the nominal request count with the
/// measured wall-clock time.
pub fn reduce(run: &RunResult, requests: usize, elapsed_nanos: u64) -> (r: Report)
    requires
        run.wf(),
    ensures
        r.latencies_nanos@ == latencies_of(run@),
        r.count == run@.len(),
        r.errors == error_count(run@),
        r.errors <= r.count,
        r.p50_nanos == percentile_of(sorted_view(latencies_of(run@)), 50),
        r.p95_nanos == percentile_of(sorted_view(latencies_of(run@)), 95),
        r.p99_nanos == percentile_of(sorted_view(latencies_of(run@)), 99),
        r.p50_nanos <= r.p95_nanos <= r.p99_nanos,
        r.count == 0 ==> r.p50_nanos == 0 && r.p95_nanos == 0 && r.p99_nanos == 0,
        r.requests == requests,
        r.elapsed_nanos == elapsed_nanos,
{
    let latencies = run.latencies();
    let sorted = sort_ascending(&latencies);
    let p50 = percentile(&sorted, 50);
    let p95 = percentile(&sorted, 95);
    let p99 = percentile(&sorted, 99);
    proof {
        lemma_percentile_monotone(sorted@, 50, 95);
        lemma_percentile_monotone(sorted@, 95, 99);
        lemma_sorted_view(latencies@);
        assert(latencies@.len() == run@.len());
    }
    Report {
        p50_nanos: p50,
        p95_nanos: p95,
        p99_nanos: p99,
        count: run.count(),
        errors: run.errors(),
        requests,
        elapsed_nanos,
        latencies_nanos: latencies,
    }
}

proof fn lemma_error_count_insert(s: Seq<Sample>, j: int, x: Sample)
    requires
        0 <= j <= s.len(),
    ensures
        error_count(s.insert(j, x)) == error_count(s) + if x.success { 0int } else { 1int },
{
    let pre = s.take(j);
    let post = s.skip(j);
    assert(s.insert(j, x) =~= pre + (seq![x] + post));
    assert(s =~= pre + post);
    lemma_error_count_concat(pre, seq![x] + post);
    lemma_error_count_concat(seq![x], post);
    lemma_error_count_concat(pre, post);
    assert(seq![x].drop_last() =~= Seq::<Sample>::empty());
    assert(error_count(Seq::<Sample>::empty()) == 0);
    assert(error_count(seq![x]) == if x.success { 0int } else { 1int });
}

/// Samples that are a reordering of each other have reorderings of each other
/// as latencies, and the same number of errors.
proof fn lemma_reordered_samples(a: Seq<Sample>, b: Seq<Sample>)
    requires
        a.to_multiset() == b.to_multiset(),
    ensures
        latencies_of(a).to_multiset() == latencies_of(b).to_multiset(),
        error_count(a) == error_count(b),
    decreases a.len(),
{
    broadcast use vstd::seq_lib::group_to_multiset_ensures;
    if a.len() == 0 {
        assert(b.len() == b.to_multiset().len());
        assert(a.len() == a.to_multiset().len());
        assert(b =~= Seq::<Sample>::empty());
        assert(latencies_of(a) =~= Seq::<u64>::empty());
        assert(latencies_of(b) =~= Seq::<u64>::empty());
    } else {
        let x = a.last();
        let a1 = a.drop_last();
        assert(a1.push(x) =~= a);
        assert(a.to_multiset().count(x) > 0);
        assert(b.to_multiset().count(x) > 0);
        assert(b.contains(x));
        let j = choose|j: int| 0 <= j < b.len() && b[j] == x;
        let b1 = b.remove(j);
        assert(b1.to_multiset() == b.to_multiset().remove(x));
        assert(a1.to_multiset() == a.to_multiset().remove(x)) by {
            vstd::seq_lib::to_multiset_build(a1, x);
            assert(a1.to_multiset().insert(x).remove(x) =~= a1.to_multiset());
        }
        lemma_reordered_samples(a1, b1);
        assert(b1.insert(j, x) =~= b);
        lemma_error_count_insert(b1, j, x);
        assert(latencies_of(a) =~= latencies_of(a1).push(x.latency_nanos));
        assert(latencies_of(b) =~= latencies_of(b1).insert(j, x.latency_nanos));
        vstd::seq_lib::to_multiset_build(latencies_of(a1), x.latency_nanos);
        vstd::seq_lib::to_multiset_insert(latencies_of(b1), j, x.latency_nanos);
    }
}

/// Reducing the same merged samples in any order gives the same count, error
/// tally and percentiles.
pub proof fn lemma_reduction_ignores_order(a: Seq<Sample>, b: Seq<Sample>, p: int)
    requires
        a.to_multiset() == b.to_multiset(),
    ensures
        a.len() == b.len(),
        error_count(a) == error_count(b),
        percentile_of(sorted_view(latencies_of(a)), p) == percentile_of(sorted_view(latencies_of(b)), p),
{
    broadcast use vstd::seq_lib::group_to_multiset_ensures;
    assert(a.len() == a.to_multiset().len());
    assert(b.len() == b.to_multiset().len());
    lemma_reordered_samples(a, b);
    lemma_sorted_view_order_independent(latencies_of(a), latencies_of(b));
}

} // verus!
