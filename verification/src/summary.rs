use std::time::Duration;

use vstd::prelude::*;
use vstd::relations::{sorted_by, total_ordering};

use crate::metrics::MetricsStore;

verus! {

/// The ascending order on nanosecond samples.
pub open spec fn ascending() -> spec_fn(u128, u128) -> bool {
    |a: u128, b: u128| a <= b
}

/// The samples in ascending order: the unique ascending permutation of `s`.
pub open spec fn sorted_samples(s: Seq<u128>) -> Seq<u128> {
    s.sort_by(ascending())
}

/// The sum of the samples, as a mathematical integer.
pub open spec fn sample_sum(s: Seq<u128>) -> int
    decreases s.len(),
{
    if s.len() == 0 {
        0
    } else {
        sample_sum(s.drop_last()) + s.last()
    }
}

/// Index picked for the percentile `permille / 1000` of `n` samples:
/// `ceil(p * n) - 1`, clamped to `[0, n - 1]`.
pub open spec fn percentile_index(n: nat, permille: nat) -> int {
    let raw = (permille * n + 999) / 1000 - 1;
    if raw < 0 {
        0
    } else if raw > n - 1 {
        n - 1
    } else {
        raw
    }
}

/// Per-mille rank of the 95th percentile.
pub const P95_PERMILLE: u64 = 950;

/// Per-mille rank of the 99th percentile.
pub const P99_PERMILLE: u64 = 990;

/// Integer part of the summary of one latency series, in nanoseconds.
///
/// The run-rate (samples per second) is a floating-point quantity and is
/// derived from `count` and the run duration by the caller.
#[derive(Debug, Clone, PartialEq, Eq)]
pub struct LatencyStats {
    pub count: u64,
    pub min: Option<u128>,
    pub max: Option<u128>,
    pub mean: Option<u128>,
    pub p95: Option<u128>,
    pub p99: Option<u128>,
}

/// What `build_latency_stats` computes for a series.
pub open spec fn latency_stats_spec(s: Seq<u128>) -> LatencyStats {
    if s.len() == 0 {
        LatencyStats { count: 0, min: None, max: None, mean: None, p95: None, p99: None }
    } else {
        let sorted = sorted_samples(s);
        LatencyStats {
            count: s.len() as u64,
            min: Some(sorted[0]),
            max: Some(sorted[s.len() - 1]),
            mean: Some((sample_sum(s) / (s.len() as int)) as u128),
            p95: Some(sorted[percentile_index(s.len(), P95_PERMILLE as nat)]),
            p99: Some(sorted[percentile_index(s.len(), P99_PERMILLE as nat)]),
        }
    }
}

proof fn lemma_ascending_total()
    ensures
        total_ordering(ascending()),
{
}

/// Two ascending sequences with the same elements are equal.
pub proof fn lemma_sorted_unique(a: Seq<u128>, b: Seq<u128>)
    requires
        sorted_by(a, ascending()),
        sorted_by(b, ascending()),
        a.to_multiset() == b.to_multiset(),
    ensures
        a == b,
    decreases a.len(),
{
    broadcast use vstd::seq_lib::group_to_multiset_ensures;

    a.to_multiset_ensures();
    b.to_multiset_ensures();
    if a.len() == 0 {
        assert(b.len() == 0);
        assert(a =~= b);
    } else {
        let n = a.len() - 1;
        let x = a[n as int];
        let y = b[n as int];
        assert(a.contains(x));
        assert(b.to_multiset().count(x) > 0);
        assert(b.contains(x));
        let i = choose|i: int| 0 <= i < b.len() && b[i] == x;
        assert(i == n || ascending()(b[i], b[n as int]));
        assert(x <= y);
        assert(a.to_multiset().count(y) > 0);
        assert(a.contains(y));
        let j = choose|j: int| 0 <= j < a.len() && a[j] == y;
        assert(j == n || ascending()(a[j], a[n as int]));
        assert(y <= x);
        let a0 = a.drop_last();
        let b0 = b.drop_last();
        assert(a == a0.push(x));
        assert(b == b0.push(y));
        a0.to_multiset_ensures();
        b0.to_multiset_ensures();
        assert(a0.to_multiset().insert(x) == b0.to_multiset().insert(x));
        assert(a0.to_multiset() =~= a0.to_multiset().insert(x).remove(x));
        assert(b0.to_multiset() =~= b0.to_multiset().insert(x).remove(x));
        assert forall|p: int, q: int| 0 <= p < q < a0.len() implies #[trigger] ascending()(
            a0[p],
            a0[q],
        ) by {
            assert(ascending()(a[p], a[q]));
        }
        assert forall|p: int, q: int| 0 <= p < q < b0.len() implies #[trigger] ascending()(
            b0[p],
            b0[q],
        ) by {
            assert(ascending()(b[p], b[q]));
        }
        lemma_sorted_unique(a0, b0);
    }
}

/// An ascending permutation of `s` is `sorted_samples(s)`.
pub proof fn lemma_sorted_samples_is(s: Seq<u128>, t: Seq<u128>)
    requires
        sorted_by(t, ascending()),
        t.to_multiset() == s.to_multiset(),
    ensures
        sorted_samples(s) == t,
        t.len() == s.len(),
{
    lemma_ascending_total();
    s.lemma_sort_by_ensures(ascending());
    lemma_sorted_unique(sorted_samples(s), t);
    s.to_multiset_ensures();
    t.to_multiset_ensures();
}

/// Sorts the samples in place, ascending (std's `slice::sort`).
#[verifier::external_body]
fn sort_samples(v: &mut Vec<u128>)
    ensures
        final(v)@.to_multiset() == old(v)@.to_multiset(),
        sorted_by(final(v)@, ascending()),
{
    v.sort();
}

/// Pick the sample at `ceil(p * n) - 1`, clamped to `[0, n - 1]`, where
/// `p = permille / 1000`.
pub fn percentile(sorted: &Vec<u128>, permille: u64) -> (r: u128)
    requires
        sorted.len() > 0,
    ensures
        r == sorted@[percentile_index(sorted.len() as nat, permille as nat)],
{
    let n = sorted.len() as u128;
    let p = permille as u128;
    assert(p * n <= 0xffff_ffff_ffff_ffffu128 * 0xffff_ffff_ffff_ffffu128) by (nonlinear_arith)
        requires
            p <= 0xffff_ffff_ffff_ffffu128,
            n <= 0xffff_ffff_ffff_ffffu128,
    ;
    let product = p * n;
    let ceil = (product + 999) / 1000;
    let idx: usize = if ceil == 0 {
        0
    } else if ceil - 1 > n - 1 {
        (n - 1) as usize
    } else {
        (ceil - 1) as usize
    };
    sorted[idx]
}

/// Sum of the samples.
fn sum_samples(s: &Vec<u128>) -> (r: u128)
    requires
        sample_sum(s@) <= u128::MAX,
    ensures
        r == sample_sum(s@),
{
    let mut total: u128 = 0;
    let mut i: usize = 0;
    while i < s.len()
        invariant
            i <= s.len(),
            total == sample_sum(s@.take(i as int)),
            sample_sum(s@) <= u128::MAX,
        decreases s.len() - i,
    {
        assert(s@.take(i + 1).drop_last() =~= s@.take(i as int));
        proof {
            lemma_sample_sum_prefix_le(s@, i + 1);
        }
        total = total + s[i];
        i = i + 1;
    }
    assert(s@.take(s.len() as int) =~= s@);
    total
}

/// A prefix never sums to more than the whole series.
proof fn lemma_sample_sum_prefix_le(s: Seq<u128>, k: int)
    requires
        0 <= k <= s.len(),
    ensures
        sample_sum(s.take(k)) <= sample_sum(s),
    decreases s.len() - k,
{
    if k < s.len() {
        lemma_sample_sum_prefix_le(s, k + 1);
        assert(s.take(k + 1).drop_last() =~= s.take(k));
    } else {
        assert(s.take(k) =~= s);
    }
}

/// Aggregate a single latency series (nanoseconds).
pub fn build_latency_stats(samples: &Vec<u128>) -> (r: LatencyStats)
    requires
        sample_sum(samples@) <= u128::MAX,
    ensures
        r == latency_stats_spec(samples@),
{
    if samples.len() == 0 {
        return LatencyStats { count: 0, min: None, max: None, mean: None, p95: None, p99: None };
    }
    let mut sorted = samples.clone();
    sort_samples(&mut sorted);
    proof {
        lemma_sorted_samples_is(samples@, sorted@);
    }
    let n = sorted.len();
    let total = sum_samples(samples);
    let mean = total / (n as u128);
    let p95 = percentile(&sorted, P95_PERMILLE);
    let p99 = percentile(&sorted, P99_PERMILLE);
    LatencyStats {
        count: n as u64,
        min: Some(sorted[0]),
        max: Some(sorted[n - 1]),
        mean: Some(mean),
        p95: Some(p95),
        p99: Some(p99),
    }
}

/// The least sample of a non-empty series is its minimum, and the last
/// sorted sample its maximum: every sample lies between them, and both are
/// samples.
pub proof fn lemma_stats_bounds(s: Seq<u128>)
    requires
        s.len() > 0,
    ensures
        s.contains(latency_stats_spec(s).min.unwrap()),
        s.contains(latency_stats_spec(s).max.unwrap()),
        forall|i: int|
            0 <= i < s.len() ==> latency_stats_spec(s).min.unwrap() <= #[trigger] s[i]
                <= latency_stats_spec(s).max.unwrap(),
{
    broadcast use vstd::seq_lib::group_to_multiset_ensures;

    lemma_ascending_total();
    s.lemma_sort_by_ensures(ascending());
    let t = sorted_samples(s);
    s.to_multiset_ensures();
    t.to_multiset_ensures();
    assert(t.len() == s.len());
    assert(s.to_multiset().count(t[0]) > 0);
    assert(s.to_multiset().count(t[t.len() - 1]) > 0);
    assert forall|i: int| 0 <= i < s.len() implies t[0] <= #[trigger] s[i] <= t[t.len() - 1] by {
        assert(t.to_multiset().count(s[i]) > 0);
        assert(t.contains(s[i]));
        let j = choose|j: int| 0 <= j < t.len() && t[j] == s[i];
        assert(j == 0 || ascending()(t[0], t[j]));
        assert(j == t.len() - 1 || ascending()(t[j], t[t.len() - 1]));
    }
}

/// A sum of samples is never negative.
proof fn lemma_sample_sum_nonneg(s: Seq<u128>)
    ensures
        sample_sum(s) >= 0,
    decreases s.len(),
{
    if s.len() > 0 {
        lemma_sample_sum_nonneg(s.drop_last());
    }
}

/// The mean of a non-empty series is its average: the sum of all its
/// samples divided by their number, rounded down. That is, `mean * count`
/// does not exceed the sum and `(mean + 1) * count` does.
pub proof fn lemma_mean_is_average(s: Seq<u128>)
    requires
        s.len() > 0,
        s.len() <= usize::MAX,
        sample_sum(s) <= u128::MAX,
    ensures
        latency_stats_spec(s).count == s.len(),
        latency_stats_spec(s).mean is Some,
        latency_stats_spec(s).mean.unwrap() * s.len() <= sample_sum(s),
        sample_sum(s) < (latency_stats_spec(s).mean.unwrap() + 1) * s.len(),
{
    lemma_sample_sum_nonneg(s);
    let t = sample_sum(s);
    let n = s.len() as int;
    let q = t / n;
    assert(0 <= q <= t && q * n <= t < (q + 1) * n) by (nonlinear_arith)
        requires
            t >= 0,
            n > 0,
            q == t / n,
    ;
    assert(latency_stats_spec(s).mean.unwrap() == q);
}

/// The percentile position is the nearest rank: with `p = permille / 1000`
/// and `n` samples, at least `p * n` of the sorted samples stand at or
/// before the chosen position, and fewer than `p * n` before any earlier
/// position; the position is always a sample.
pub proof fn lemma_percentile_nearest_rank(n: nat, permille: nat)
    requires
        n > 0,
        permille <= 1000,
    ensures
        0 <= percentile_index(n, permille) < n,
        permille * n <= (percentile_index(n, permille) + 1) * 1000,
        percentile_index(n, permille) > 0 ==> percentile_index(n, permille) * 1000 < permille * n,
{
    let pn = permille * n;
    let c = (pn + 999) / 1000;
    assert(c * 1000 <= pn + 999 < c * 1000 + 1000) by (nonlinear_arith)
        requires
            c == (pn + 999) / 1000,
            pn >= 0,
    ;
    assert(pn <= 1000 * n) by (nonlinear_arith)
        requires
            pn == permille * n,
            permille <= 1000,
            n > 0,
    ;
    assert(c <= n);
    assert(c >= 0);
}

/// Length of a duration in whole nanoseconds, as std's `Duration::as_nanos`
/// computes it.
pub uninterp spec fn duration_nanos(d: Duration) -> u128;

/// Whole nanoseconds of a duration (std's `Duration::as_nanos`).
#[verifier::external_body]
pub(crate) fn as_nanos(d: &Duration) -> (r: u128)
    ensures
        r == duration_nanos(*d),
{
    d.as_nanos()
}

/// The nanosecond values of a series of durations.
pub open spec fn nanos_of(s: Seq<Duration>) -> Seq<u128> {
    s.map_values(|d: Duration| duration_nanos(d))
}

/// Converts a series of durations to nanoseconds.
pub fn series_nanos(s: &Vec<Duration>) -> (r: Vec<u128>)
    ensures
        r@ == nanos_of(s@),
{
    let mut out: Vec<u128> = Vec::new();
    let mut i: usize = 0;
    while i < s.len()
        invariant
            i <= s.len(),
            out@ == nanos_of(s@.take(i as int)),
        decreases s.len() - i,
    {
        out.push(as_nanos(&s[i]));
        assert(nanos_of(s@.take(i + 1)) =~= nanos_of(s@.take(i as int)).push(
            duration_nanos(s@[i as int]),
        ));
        i = i + 1;
    }
    assert(s@.take(s.len() as int) =~= s@);
    out
}

/// Aggregated metric data of a run: counter totals and latency statistics,
/// by name, in the order the names first appeared.
pub struct MetricsStats {
    pub counters: Vec<(String, u64)>,
    pub latencies: Vec<(String, LatencyStats)>,
}

/// Every latency series of the store sums to a `u128` in nanoseconds.
pub open spec fn sums_fit(store: MetricsStore) -> bool {
    forall|k: Seq<char>| #[trigger]
        store.latencies().contains_key(k) ==> sample_sum(nanos_of(store.latencies()[k]))
            <= u128::MAX
}

/// Summarise a metrics store: counters copied, each latency series reduced
/// to its statistics.
pub fn build_metrics_stats(store: &MetricsStore) -> (r: MetricsStats)
    requires
        sums_fit(*store),
    ensures
        r.counters@.len() == store.counter_names().len(),
        forall|i: int|
            0 <= i < r.counters@.len() ==> {
                &&& (#[trigger] r.counters@[i]).0@ == store.counter_names()[i]
                &&& r.counters@[i].1 == store.counters()[store.counter_names()[i]]
            },
        r.latencies@.len() == store.latency_names().len(),
        forall|i: int|
            0 <= i < r.latencies@.len() ==> {
                &&& (#[trigger] r.latencies@[i]).0@ == store.latency_names()[i]
                &&& r.latencies@[i].1 == latency_stats_spec(
                    nanos_of(store.latencies()[store.latency_names()[i]]),
                )
            },
{
    let counters = store.counter_list();
    let mut out_counters: Vec<(String, u64)> = Vec::new();
    let mut i: usize = 0;
    while i < counters.len()
        invariant
            counters.wf(),
            counters.as_map() == store.counters(),
            counters.keys() == store.counter_names(),
            i <= counters.entries().len(),
            out_counters@.len() == i,
            forall|j: int|
                0 <= j < i ==> {
                    &&& (#[trigger] out_counters@[j]).0@ == store.counter_names()[j]
                    &&& out_counters@[j].1 == store.counters()[store.counter_names()[j]]
                },
        decreases counters.entries().len() - i,
    {
        let e = counters.entry(i);
        proof {
            counters.lemma_position(i as int);
        }
        out_counters.push((e.0.clone(), e.1));
        i = i + 1;
    }
    let latencies = store.latency_list();
    let mut out_latencies: Vec<(String, LatencyStats)> = Vec::new();
    let mut i: usize = 0;
    while i < latencies.len()
        invariant
            sums_fit(*store),
            latencies.wf(),
            latencies.as_map().map_values(|v: Vec<Duration>| v@) == store.latencies(),
            latencies.keys() == store.latency_names(),
            i <= latencies.entries().len(),
            out_latencies@.len() == i,
            forall|j: int|
                0 <= j < i ==> {
                    &&& (#[trigger] out_latencies@[j]).0@ == store.latency_names()[j]
                    &&& out_latencies@[j].1 == latency_stats_spec(
                        nanos_of(store.latencies()[store.latency_names()[j]]),
                    )
                },
        decreases latencies.entries().len() - i,
    {
        let e = latencies.entry(i);
        proof {
            latencies.lemma_position(i as int);
            assert(store.latencies().contains_key(e.0@));
            assert(store.latencies()[e.0@] == e.1@);
        }
        let nanos = series_nanos(&e.1);
        let stats = build_latency_stats(&nanos);
        out_latencies.push((e.0.clone(), stats));
        i = i + 1;
    }
    MetricsStats { counters: out_counters, latencies: out_latencies }
}

} // verus!
