use gateway::metrics::{bucket_index, LatencyHistogram, LatencyTracker};

#[test]
fn bucket_boundaries() {
    assert_eq!(bucket_index(0), 0);
    assert_eq!(bucket_index(49), 0);
    assert_eq!(bucket_index(50), 1);
    assert_eq!(bucket_index(99), 1);
    assert_eq!(bucket_index(100), 2);
    assert_eq!(bucket_index(14999), 6);
    assert_eq!(bucket_index(15000), 7);
    assert_eq!(bucket_index(50000), 7);
}

#[test]
fn single_observation() {
    let mut t = LatencyTracker::new();
    t.record(500);
    let snap = t.snapshot();

    assert_eq!(snap.total_requests, 1);
    assert_eq!(snap.avg_latency_us, 500);
    assert_eq!(snap.min_latency_us, 500);
    assert_eq!(snap.max_latency_us, 500);
    assert_eq!(snap.sla_breaches, 0);
}

#[test]
fn sla_breach_detection() {
    let mut t = LatencyTracker::new();
    t.record(1_000);
    t.record(5_000);
    t.record(15_000);
    t.record(20_000);
    t.record(500);

    let snap = t.snapshot();
    assert_eq!(snap.total_requests, 5);
    assert_eq!(snap.sla_breaches, 2);
    assert_eq!(snap.min_latency_us, 500);
    assert_eq!(snap.max_latency_us, 20_000);
}

#[test]
fn percentile_calculation() {
    let mut t = LatencyTracker::new();
    for _ in 0..4 {
        t.record(10);
    }
    for _ in 0..3 {
        t.record(200);
    }
    for _ in 0..2 {
        t.record(3_000);
    }
    t.record(16_000);

    let snap = t.snapshot();
    assert_eq!(snap.total_requests, 10);
    assert!(snap.p50_us <= 250);
    assert!(snap.p99_us >= 15_000);
}

// ---------------------------------------------------------------------------
// Further scenarios
// ---------------------------------------------------------------------------

#[test]
fn empty_tracker_snapshot() {
    let t = LatencyTracker::new();
    let snap = t.snapshot();
    assert_eq!(snap.total_requests, 0);
    assert_eq!(snap.avg_latency_us, 0);
    assert_eq!(snap.min_latency_us, 0);
    assert_eq!(snap.max_latency_us, 0);
    assert_eq!(snap.p50_us, 0);
    assert_eq!(snap.p99_us, 0);
    assert_eq!(snap.sla_breaches, 0);
}

#[test]
fn percentiles_report_bucket_limits() {
    let mut t = LatencyTracker::new();
    for _ in 0..4 {
        t.record(10);
    }
    for _ in 0..3 {
        t.record(200);
    }
    for _ in 0..2 {
        t.record(3_000);
    }
    t.record(16_000);
    let snap = t.snapshot();
    // 50% of 10 = 5 requests: reached in the [100,250) bucket.
    assert_eq!(snap.p50_us, 250);
    // 99% of 10 rounds up to all 10: reached only in the breach bucket.
    assert_eq!(snap.p99_us, u64::MAX);
    assert!(snap.p50_us <= snap.p99_us);
}

#[test]
fn average_is_truncated() {
    let mut t = LatencyTracker::new();
    t.record(1);
    t.record(2);
    let snap = t.snapshot();
    assert_eq!(snap.avg_latency_us, 1);
    assert_eq!(snap.min_latency_us, 1);
    assert_eq!(snap.max_latency_us, 2);
}

#[test]
fn histogram_timer_records_one_observation() {
    let mut t = LatencyTracker::new();
    let timer = LatencyHistogram::start();
    timer.record(&mut t);
    assert_eq!(t.snapshot().total_requests, 1);
}

#[test]
fn one_more_record_updates_the_snapshot() {
    let mut t = LatencyTracker::new();
    t.record(300);
    t.record(120);
    let s0 = t.snapshot();
    t.record(16_000);
    let s1 = t.snapshot();
    assert_eq!(s1.total_requests, s0.total_requests + 1);
    assert_eq!(s1.max_latency_us, 16_000);
    assert_eq!(s1.min_latency_us, 120);
    assert_eq!(s1.sla_breaches, s0.sla_breaches + 1);
    t.record(40);
    let s2 = t.snapshot();
    assert_eq!(s2.min_latency_us, 40);
    assert_eq!(s2.max_latency_us, 16_000);
    assert_eq!(s2.sla_breaches, s1.sla_breaches);
}
