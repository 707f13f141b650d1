//! Latency tracking for the point-of-sale read path: counters, a bucketed
//! histogram and percentile estimates against the 15 ms SLA.
use vstd::prelude::*;

verus! {

/// Upper limits (in microseconds) reported for the eight histogram buckets
/// `[0,50) [50,100) [100,250) [250,500) [500,1000) [1000,5000) [5000,15000)
/// [15000,∞)`; the last bucket counts SLA breaches.
pub open spec fn bucket_limit(i: int) -> u64 {
    if i == 0 {
        50
    } else if i == 1 {
        100
    } else if i == 2 {
        250
    } else if i == 3 {
        500
    } else if i == 4 {
        1_000
    } else if i == 5 {
        5_000
    } else if i == 6 {
        15_000
    } else {
        u64::MAX
    }
}

/// The bucket a latency falls into.
pub open spec fn bucket_of(latency_us: u64) -> int {
    if latency_us < 50 {
        0
    } else if latency_us < 100 {
        1
    } else if latency_us < 250 {
        2
    } else if latency_us < 500 {
        3
    } else if latency_us < 1_000 {
        4
    } else if latency_us < 5_000 {
        5
    } else if latency_us < 15_000 {
        6
    } else {
        7
    }
}

/// Every latency falls in the bucket whose range holds it: at or above the
/// previous bucket's upper limit and below its own; the last bucket, the
/// SLA breaches, holds exactly the latencies of 15 ms or more. Bucket
/// limits rise strictly.
pub proof fn lemma_bucket_holds_latency(l: u64)
    ensures
        0 <= bucket_of(l) <= 7,
        bucket_of(l) == 0 || bucket_limit(bucket_of(l) - 1) <= l,
        bucket_of(l) < 7 ==> l < bucket_limit(bucket_of(l)),
        bucket_of(l) == 7 <==> l >= 15_000,
        forall|i: int, j: int| 0 <= i < j <= 7 ==> bucket_limit(i) < bucket_limit(j),
{
}

pub open spec fn wrap_add(a: u64, b: u64) -> u64 {
    ((a + b) % 0x1_0000_0000_0000_0000int) as u64
}

/// Abstract state of a tracker.
pub struct TrackerModel {
    pub total_requests: u64,
    pub total_latency_us: u64,
    pub min_latency_us: u64,
    pub max_latency_us: u64,
    pub buckets: Seq<u64>,
}

impl TrackerModel {
    /// The state after one observation: counters wrap around as atomic
    /// additions do, minimum and maximum follow the observation, and its
    /// bucket counts one more.
    pub open spec fn record(self, latency_us: u64) -> TrackerModel {
        let k = bucket_of(latency_us);
        TrackerModel {
            total_requests: wrap_add(self.total_requests, 1),
            total_latency_us: wrap_add(self.total_latency_us, latency_us),
            min_latency_us: if latency_us < self.min_latency_us {
                latency_us
            } else {
                self.min_latency_us
            },
            max_latency_us: if latency_us > self.max_latency_us {
                latency_us
            } else {
                self.max_latency_us
            },
            buckets: self.buckets.update(k, wrap_add(self.buckets[k], 1)),
        }
    }

    /// A consistent state: eight buckets that together hold every recorded
    /// request, and the initial minimum and maximum while nothing is
    /// recorded. `new` makes such a state and `record` keeps it while the
    /// request counter does not wrap.
    pub open spec fn wf(self) -> bool {
        &&& self.buckets.len() == 8
        &&& seq_sum(self.buckets) == self.total_requests
        &&& self.total_requests == 0 ==> self.min_latency_us == u64::MAX && self.max_latency_us == 0
    }

    /// Sum of the first `n` buckets.
    pub open spec fn cumulative(self, n: int) -> int
        decreases n,
    {
        if n <= 0 {
            0
        } else {
            self.cumulative(n - 1) + self.buckets[n - 1]
        }
    }

    /// Number of requests at or below the `percent`-th percentile:
    /// `ceil(percent / 100 * total)`.
    pub open spec fn percentile_target(self, percent: int) -> int {
        (percent * self.total_requests + 99) / 100
    }

    /// First bucket index from `i` on whose cumulative count reaches `target`.
    pub open spec fn first_reaching(self, target: int, i: int) -> int
        decreases 8 - i,
    {
        if i >= 7 || self.cumulative(i + 1) >= target {
            i
        } else {
            self.first_reaching(target, i + 1)
        }
    }

    /// Upper limit of the bucket holding the `percent`-th percentile; 0 when
    /// nothing was recorded.
    pub open spec fn percentile(self, percent: int) -> u64 {
        if self.total_requests == 0 {
            0
        } else {
            bucket_limit(self.first_reaching(self.percentile_target(percent), 0))
        }
    }
}

/// Tracks POS endpoint latency for SLA verification.
pub struct LatencyTracker {
    total_requests: u64,
    total_latency_us: u64,
    min_latency_us: u64,
    max_latency_us: u64,
    buckets: [u64; 8],
}

impl View for LatencyTracker {
    type V = TrackerModel;

    closed spec fn view(&self) -> TrackerModel {
        TrackerModel {
            total_requests: self.total_requests,
            total_latency_us: self.total_latency_us,
            min_latency_us: self.min_latency_us,
            max_latency_us: self.max_latency_us,
            buckets: self.buckets@,
        }
    }
}

/// Summary of a tracker at one moment.
pub struct MetricsSnapshot {
    pub total_requests: u64,
    pub avg_latency_us: u64,
    pub min_latency_us: u64,
    pub max_latency_us: u64,
    pub p50_us: u64,
    pub p99_us: u64,
    pub sla_breaches: u64,
}

/// The snapshot a tracker in state `m` reports.
pub open spec fn snapshot_of(m: TrackerModel) -> MetricsSnapshot {
    MetricsSnapshot {
        total_requests: m.total_requests,
        avg_latency_us: if m.total_requests > 0 {
            (m.total_latency_us / m.total_requests) as u64
        } else {
            0
        },
        min_latency_us: if m.total_requests > 0 {
            m.min_latency_us
        } else {
            0
        },
        max_latency_us: m.max_latency_us,
        p50_us: m.percentile(50),
        p99_us: m.percentile(99),
        sla_breaches: m.buckets[7],
    }
}

/// Index of the histogram bucket for a latency.
pub fn bucket_index(latency_us: u64) -> (r: usize)
    ensures
        r == bucket_of(latency_us),
{
    if latency_us <= 49 {
        0
    } else if latency_us <= 99 {
        1
    } else if latency_us <= 249 {
        2
    } else if latency_us <= 499 {
        3
    } else if latency_us <= 999 {
        4
    } else if latency_us <= 4_999 {
        5
    } else if latency_us <= 14_999 {
        6
    } else {
        7
    }
}

fn bucket_limit_at(i: usize) -> (r: u64)
    ensures
        r == bucket_limit(i as int),
{
    if i == 0 {
        50
    } else if i == 1 {
        100
    } else if i == 2 {
        250
    } else if i == 3 {
        500
    } else if i == 4 {
        1_000
    } else if i == 5 {
        5_000
    } else if i == 6 {
        15_000
    } else {
        u64::MAX
    }
}

impl LatencyTracker {
    pub fn new() -> (r: Self)
        ensures
            r@.total_requests == 0,
            r@.total_latency_us == 0,
            r@.min_latency_us == u64::MAX,
            r@.max_latency_us == 0,
            r@.buckets == Seq::new(8, |i: int| 0u64),
            r@ == fresh_tracker(),
            r@.wf(),
    {
        let r = Self {
            total_requests: 0,
            total_latency_us: 0,
            min_latency_us: u64::MAX,
            max_latency_us: 0,
            buckets: [0, 0, 0, 0, 0, 0, 0, 0],
        };
        assert(r@.buckets =~= Seq::new(8, |i: int| 0u64));
        proof {
            lemma_zero_buckets_sum(r@.buckets, 8);
        }
        r
    }

    /// Records one observation.
    pub fn record(&mut self, latency_us: u64)
        ensures
            final(self)@ == old(self)@.record(latency_us),
    {
        self.total_requests = self.total_requests.wrapping_add(1);
        self.total_latency_us = self.total_latency_us.wrapping_add(latency_us);
        if latency_us < self.min_latency_us {
            self.min_latency_us = latency_us;
        }
        if latency_us > self.max_latency_us {
            self.max_latency_us = latency_us;
        }
        let bucket = bucket_index(latency_us);
        let count = self.buckets[bucket].wrapping_add(1);
        self.buckets[bucket] = count;
        assert(final(self)@.buckets =~= old(self)@.buckets.update(
            bucket_of(latency_us),
            wrap_add(old(self)@.buckets[bucket_of(latency_us)], 1),
        ));
    }

    pub fn snapshot(&self) -> (r: MetricsSnapshot)
        ensures
            r == snapshot_of(self@),
    {
        let total = self.total_requests;
        let total_us = self.total_latency_us;
        let min = self.min_latency_us;
        let max = self.max_latency_us;
        MetricsSnapshot {
            total_requests: total,
            avg_latency_us: if total > 0 {
                total_us / total
            } else {
                0
            },
            min_latency_us: if total > 0 {
                min
            } else {
                0
            },
            max_latency_us: max,
            p50_us: self.percentile(50),
            p99_us: self.percentile(99),
            sla_breaches: self.buckets[7],
        }
    }

    /// Upper limit of the bucket that holds the `percent`-th percentile.
    fn percentile(&self, percent: u64) -> (r: u64)
        requires
            percent <= 100,
        ensures
            r == self@.percentile(percent as int),
    {
        let total = self.total_requests;
        if total == 0 {
            return 0;
        }
        assert((percent as u128) * (total as u128) <= 100 * 0xFFFF_FFFF_FFFF_FFFFu128) by (nonlinear_arith)
            requires
                percent <= 100,
        ;
        let target: u128 = ((percent as u128) * (total as u128) + 99) / 100;
        let mut cumulative: u128 = 0;
        let mut i: usize = 0;
        while i < 8
            invariant
                i <= 8,
                self@.buckets.len() == 8,
                total == self@.total_requests,
                total > 0,
                target == self@.percentile_target(percent as int),
                cumulative == self@.cumulative(i as int),
                cumulative <= i * 0x1_0000_0000_0000_0000int,
                forall|j: int| 0 <= j < i ==> #[trigger] self@.cumulative(j + 1) < target,
                self@.first_reaching(target as int, 0) == self@.first_reaching(
                    target as int,
                    if i < 7 {
                        i as int
                    } else {
                        7
                    },
                ),
            decreases 8 - i,
        {
            cumulative = cumulative + self.buckets[i] as u128;
            if cumulative >= target {
                return bucket_limit_at(i);
            }
            i += 1;
        }
        assert(self@.first_reaching(target as int, 7) == 7);
        bucket_limit_at(7)
    }
}

// ---------------------------------------------------------------------------
// Laws
// ---------------------------------------------------------------------------

/// The state of a fresh tracker.
pub open spec fn fresh_tracker() -> TrackerModel {
    TrackerModel {
        total_requests: 0,
        total_latency_us: 0,
        min_latency_us: u64::MAX,
        max_latency_us: 0,
        buckets: Seq::new(8, |i: int| 0u64),
    }
}

/// The state after recording each latency of `s` in order.
pub open spec fn recorded(m: TrackerModel, s: Seq<u64>) -> TrackerModel
    decreases s.len(),
{
    if s.len() == 0 {
        m
    } else {
        recorded(m, s.drop_last()).record(s.last())
    }
}

/// How many latencies of `s` reach the 15 ms SLA limit.
pub open spec fn breaches(s: Seq<u64>) -> int
    decreases s.len(),
{
    if s.len() == 0 {
        0
    } else {
        breaches(s.drop_last()) + if s.last() >= 15_000 {
            1int
        } else {
            0
        }
    }
}

pub open spec fn seq_max(s: Seq<u64>) -> u64
    decreases s.len(),
{
    if s.len() == 0 {
        0
    } else {
        let m = seq_max(s.drop_last());
        if s.last() > m {
            s.last()
        } else {
            m
        }
    }
}

pub open spec fn seq_min(s: Seq<u64>) -> u64
    decreases s.len(),
{
    if s.len() == 0 {
        u64::MAX
    } else {
        let m = seq_min(s.drop_last());
        if s.last() < m {
            s.last()
        } else {
            m
        }
    }
}

pub open spec fn seq_sum(s: Seq<u64>) -> int
    decreases s.len(),
{
    if s.len() == 0 {
        0
    } else {
        seq_sum(s.drop_last()) + s.last()
    }
}

/// A fresh tracker that has recorded the latencies `s` (fewer than 2^64 of
/// them, summing below 2^64) counts them, sums them, knows their minimum and
/// maximum, and counts as SLA breaches exactly those of 15 ms or more.
pub proof fn lemma_tracker_counts(s: Seq<u64>)
    requires
        s.len() < 0x1_0000_0000_0000_0000int,
        seq_sum(s) < 0x1_0000_0000_0000_0000int,
    ensures
        recorded(fresh_tracker(), s).total_requests == s.len(),
        recorded(fresh_tracker(), s).total_latency_us == seq_sum(s),
        recorded(fresh_tracker(), s).min_latency_us == seq_min(s),
        recorded(fresh_tracker(), s).max_latency_us == seq_max(s),
        recorded(fresh_tracker(), s).buckets.len() == 8,
        recorded(fresh_tracker(), s).buckets[7] == breaches(s),
        snapshot_of(recorded(fresh_tracker(), s)).sla_breaches == breaches(s),
        snapshot_of(recorded(fresh_tracker(), s)).total_requests == s.len(),
        snapshot_of(recorded(fresh_tracker(), s)).avg_latency_us == if s.len() > 0 {
            seq_sum(s) / (s.len() as int)
        } else {
            0
        },
        snapshot_of(recorded(fresh_tracker(), s)).min_latency_us == if s.len() > 0 {
            seq_min(s)
        } else {
            0
        },
        snapshot_of(recorded(fresh_tracker(), s)).max_latency_us == seq_max(s),
        recorded(fresh_tracker(), s).wf(),
    decreases s.len(),
{
    if s.len() > 0 {
        let p = s.drop_last();
        assert(seq_sum(p) <= seq_sum(s));
        lemma_tracker_counts(p);
        lemma_breaches_bounded(p);
        lemma_snapshot_after_record(recorded(fresh_tracker(), p), s.last());
    } else {
        lemma_zero_buckets_sum(fresh_tracker().buckets, 8);
    }
}

/// One more observation `l`, on a tracker that has recorded `s` since it
/// was made (counts and sum still within 64 bits): the snapshot counts one
/// request more, its maximum and minimum take `l` in, and it counts one SLA
/// breach more exactly when `l` is at least 15 ms.
pub proof fn lemma_record_updates_snapshot(s: Seq<u64>, l: u64)
    requires
        s.len() + 1 < 0x1_0000_0000_0000_0000int,
        seq_sum(s) + l < 0x1_0000_0000_0000_0000int,
    ensures
        ({
            let s0 = snapshot_of(recorded(fresh_tracker(), s));
            let s1 = snapshot_of(recorded(fresh_tracker(), s).record(l));
            &&& s1.total_requests == s0.total_requests + 1
            &&& s1.max_latency_us == if l > s0.max_latency_us { l } else { s0.max_latency_us }
            &&& s1.min_latency_us == if s0.total_requests == 0 {
                l
            } else if l < s0.min_latency_us {
                l
            } else {
                s0.min_latency_us
            }
            &&& s1.sla_breaches == s0.sla_breaches + if l >= 15_000 { 1int } else { 0 }
        }),
        recorded(fresh_tracker(), s.push(l)) == recorded(fresh_tracker(), s).record(l),
{
    let t = s.push(l);
    assert(t.drop_last() =~= s);
    assert(seq_sum(t) == seq_sum(s) + l);
    lemma_tracker_counts(s);
    lemma_tracker_counts(t);
    if s.len() == 0 {
        assert(seq_min(s) == u64::MAX);
    }
}

proof fn lemma_zero_buckets_sum(s: Seq<u64>, n: int)
    requires
        0 <= n <= s.len(),
        forall|i: int| 0 <= i < s.len() ==> s[i] == 0,
    ensures
        seq_sum(s.subrange(0, n)) == 0,
        n == s.len() ==> seq_sum(s) == 0,
    decreases n,
{
    if n > 0 {
        lemma_zero_buckets_sum(s, n - 1);
        assert(s.subrange(0, n).drop_last() =~= s.subrange(0, n - 1));
    }
    if n == s.len() {
        assert(s.subrange(0, n) =~= s);
    }
}

/// Replacing element `k` of `s` by `v` changes its sum by `v - s[k]`.
proof fn lemma_seq_sum_update(s: Seq<u64>, k: int, v: u64)
    requires
        0 <= k < s.len(),
    ensures
        seq_sum(s.update(k, v)) == seq_sum(s) - s[k] + v,
        s[k] <= seq_sum(s),
    decreases s.len(),
{
    let t = s.update(k, v);
    if k == s.len() - 1 {
        assert(t.drop_last() =~= s.drop_last());
        lemma_seq_sum_nonneg(s.drop_last());
    } else {
        assert(t.drop_last() =~= s.drop_last().update(k, v));
        lemma_seq_sum_update(s.drop_last(), k, v);
    }
}

proof fn lemma_seq_sum_nonneg(s: Seq<u64>)
    ensures
        seq_sum(s) >= 0,
    decreases s.len(),
{
    if s.len() > 0 {
        lemma_seq_sum_nonneg(s.drop_last());
    }
}

/// Recording one more latency on a consistent tracker whose request counter
/// does not wrap: the snapshot counts one request more, its maximum and
/// minimum take `l` in (the minimum becomes `l` on a tracker that had
/// recorded nothing), it counts one SLA breach more exactly when `l` is at
/// least 15 ms, and the tracker stays consistent.
pub proof fn lemma_snapshot_after_record(m: TrackerModel, l: u64)
    requires
        m.wf(),
        m.total_requests < u64::MAX,
    ensures
        m.record(l).wf(),
        ({
            let s0 = snapshot_of(m);
            let s1 = snapshot_of(m.record(l));
            &&& s1.total_requests == s0.total_requests + 1
            &&& s1.max_latency_us == if l > s0.max_latency_us { l } else { s0.max_latency_us }
            &&& s1.min_latency_us == if s0.total_requests == 0 {
                l
            } else if l < s0.min_latency_us {
                l
            } else {
                s0.min_latency_us
            }
            &&& s1.sla_breaches == s0.sla_breaches + if l >= 15_000 { 1int } else { 0 }
        }),
{
    let k = bucket_of(l);
    lemma_seq_sum_update(m.buckets, k, wrap_add(m.buckets[k], 1));
    lemma_seq_sum_update(m.buckets, 7, m.buckets[7]);
    assert(m.buckets[k] + 1 < 0x1_0000_0000_0000_0000int);
    assert(wrap_add(m.buckets[k], 1) == m.buckets[k] + 1);
    assert(wrap_add(m.total_requests, 1) == m.total_requests + 1);
    let b1 = m.buckets.update(k, wrap_add(m.buckets[k], 1));
    assert(b1[7] == m.buckets[7] + if l >= 15_000 { 1int } else { 0 });
}

/// A tracker that has recorded the single latency `l` reports it at every
/// percentile as the upper limit of its bucket: never below `l`.
pub proof fn lemma_single_observation_percentiles(l: u64, p: int)
    requires
        1 <= p <= 100,
    ensures
        fresh_tracker().record(l).percentile(p) == bucket_limit(bucket_of(l)),
        fresh_tracker().record(l).percentile(p) >= l,
{
    let m = fresh_tracker().record(l);
    let k = bucket_of(l);
    assert(m.total_requests == 1);
    assert(m.percentile_target(p) == 1);
    assert forall|i: int| 0 <= i <= 8 implies #[trigger] m.cumulative(i) == if i > k { 1int } else { 0 } by {
        lemma_cumulative_single(m, k, i);
    }
    reveal_with_fuel(TrackerModel::first_reaching, 9);
    assert(m.cumulative(1) == if 1 > k { 1int } else { 0 });
    assert(m.cumulative(2) == if 2 > k { 1int } else { 0 });
    assert(m.cumulative(3) == if 3 > k { 1int } else { 0 });
    assert(m.cumulative(4) == if 4 > k { 1int } else { 0 });
    assert(m.cumulative(5) == if 5 > k { 1int } else { 0 });
    assert(m.cumulative(6) == if 6 > k { 1int } else { 0 });
    assert(m.cumulative(7) == if 7 > k { 1int } else { 0 });
    assert(m.first_reaching(1, 0) == k);
    lemma_bucket_holds_latency(l);
}

proof fn lemma_cumulative_single(m: TrackerModel, k: int, i: int)
    requires
        0 <= k <= 7,
        0 <= i <= 8,
        m.buckets.len() == 8,
        forall|j: int| 0 <= j < 8 ==> #[trigger] m.buckets[j] == if j == k { 1u64 } else { 0u64 },
    ensures
        m.cumulative(i) == if i > k { 1int } else { 0 },
    decreases i,
{
    if i > 0 {
        lemma_cumulative_single(m, k, i - 1);
    }
}

proof fn lemma_breaches_bounded(s: Seq<u64>)
    ensures
        0 <= breaches(s) <= s.len(),
    decreases s.len(),
{
    if s.len() > 0 {
        lemma_breaches_bounded(s.drop_last());
    }
}

proof fn lemma_first_reaching_monotone(m: TrackerModel, t1: int, t2: int, i: int)
    requires
        t1 <= t2,
        0 <= i <= 7,
    ensures
        m.first_reaching(t1, i) <= m.first_reaching(t2, i),
        i <= m.first_reaching(t1, i) <= 7,
    decreases 8 - i,
{
    if i < 7 {
        lemma_first_reaching_monotone(m, t1, t2, i + 1);
    }
}

/// A higher percentile is never reported below a lower one; in particular a
/// snapshot's p50 is at most its p99.
pub proof fn lemma_percentiles_ordered(m: TrackerModel, p: int, q: int)
    requires
        0 <= p <= q,
    ensures
        m.percentile(p) <= m.percentile(q),
        snapshot_of(m).p50_us <= snapshot_of(m).p99_us,
{
    assert(p * m.total_requests <= q * m.total_requests) by (nonlinear_arith)
        requires
            0 <= p <= q,
            m.total_requests >= 0,
    ;
    assert(50 * m.total_requests <= 99 * m.total_requests) by (nonlinear_arith)
        requires
            m.total_requests >= 0,
    ;
    lemma_first_reaching_monotone(m, m.percentile_target(p), m.percentile_target(q), 0);
    lemma_first_reaching_monotone(m, m.percentile_target(50), m.percentile_target(99), 0);
}

// ---------------------------------------------------------------------------
// Wall-clock timer
// ---------------------------------------------------------------------------

/// `std::time::Instant`, a point of the monotonic clock; opaque to Verus.
#[verifier::external_type_specification]
#[verifier::external_body]
pub struct ExInstant(std::time::Instant);

/// `std::time::Instant::now`: the current monotonic time. Nothing is stated
/// of the value.
#[verifier::external_body]
fn instant_now() -> std::time::Instant {
    std::time::Instant::now()
}

/// `std::time::Instant::elapsed`: time since `start`. Nothing is stated of
/// the value.
#[verifier::external_body]
fn elapsed_since(start: &std::time::Instant) -> std::time::Duration {
    start.elapsed()
}

/// `std::time::Duration::as_micros`: whole microseconds of a duration.
/// Nothing is stated of the value.
#[verifier::external_body]
fn duration_micros(d: &std::time::Duration) -> u128 {
    d.as_micros()
}

/// A started latency measurement.
pub struct LatencyHistogram {
    start: std::time::Instant,
}

impl LatencyHistogram {
    pub fn start() -> Self {
        Self { start: instant_now() }
    }

    /// Completes the measurement and records the elapsed microseconds
    /// (truncated to 64 bits) in `tracker`.
    pub fn record(self, tracker: &mut LatencyTracker)
        ensures
            exists|elapsed: u64| final(tracker)@ == old(tracker)@.record(elapsed),
    {
        let elapsed = duration_micros(&elapsed_since(&self.start)) as u64;
        tracker.record(elapsed);
    }
}

} // verus!
