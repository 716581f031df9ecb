use oxidenet::anomaly::PingReadingQuery;
use oxidenet::ping::PingReading;

fn reading(latency_millis: u64, timestamp_millis: u64) -> PingReading {
    PingReading::new(latency_millis, timestamp_millis)
}

#[test]
fn burst_includes_overlapping_windows() {
    // Five samples, one second apart: 50ms, 150ms, 160ms, 40ms, 170ms.
    // Threshold 100ms, min intensity 1, window 3s: every sample ends up in
    // some qualifying window, and the two mid readings must be there.
    let t0: u64 = 10_000;
    let samples = vec![
        reading(50, t0),
        reading(150, t0 + 1_000),
        reading(160, t0 + 2_000),
        reading(40, t0 + 3_000),
        reading(170, t0 + 4_000),
    ];
    let q = PingReadingQuery::new(100, 1, 3_000);
    let r = q.query(&samples);
    assert!(r.contains(&reading(150, t0 + 1_000)));
    assert!(r.contains(&reading(160, t0 + 2_000)));
    assert_eq!(r, samples);
}

#[test]
fn burst_excludes_samples_far_from_cluster() {
    // A lone early sample more than the window before the cluster stays out.
    let t0: u64 = 10_000;
    let samples = vec![
        reading(50, t0),
        reading(150, t0 + 10_000),
        reading(160, t0 + 11_000),
    ];
    let q = PingReadingQuery::new(100, 1, 3_000);
    let r = q.query(&samples);
    assert_eq!(r, vec![reading(150, t0 + 10_000), reading(160, t0 + 11_000)]);
}

#[test]
fn burst_needs_more_than_min_intensity() {
    let samples = vec![reading(150, 1_000), reading(40, 2_000)];
    // One elevated sample is not strictly more than min_intensity = 1.
    let q = PingReadingQuery::new(100, 1, 3_000);
    assert!(q.query(&samples).is_empty());
    // With min_intensity = 0 the single elevated sample qualifies its window.
    let q0 = PingReadingQuery::new(100, 0, 3_000);
    let r = q0.query(&samples);
    assert!(r.contains(&reading(150, 1_000)));
}

#[test]
fn raising_min_intensity_never_adds_results() {
    let t0: u64 = 5_000;
    let samples = vec![
        reading(120, t0),
        reading(30, t0 + 500),
        reading(140, t0 + 1_000),
        reading(160, t0 + 1_500),
        reading(20, t0 + 2_000),
        reading(180, t0 + 6_000),
    ];
    for k in 0..4u32 {
        let loose = PingReadingQuery::new(100, k, 2_000).query(&samples);
        let strict = PingReadingQuery::new(100, k + 1, 2_000).query(&samples);
        for s in &strict {
            assert!(loose.contains(s));
        }
    }
}

#[test]
fn query_is_idempotent_on_a_snapshot() {
    let samples = vec![
        reading(120, 1_000),
        reading(30, 1_500),
        reading(140, 2_000),
        reading(90, 9_000),
        reading(200, 9_100),
    ];
    let q = PingReadingQuery::new(100, 1, 2_000);
    assert_eq!(q.query(&samples), q.query(&samples));
}

#[test]
fn clock_anomaly_evicts_the_stale_head() {
    // The second sample is timestamped before the first: when the engine
    // reaches it, the stale head is evicted, so the anomaly never blocks the
    // later cluster from qualifying.
    let samples = vec![
        reading(150, 50_000),
        reading(150, 1_000),
        reading(160, 1_500),
        reading(170, 2_000),
    ];
    let q = PingReadingQuery::new(100, 1, 3_000);
    let r = q.query(&samples);
    assert!(r.contains(&reading(150, 1_000)));
    assert!(r.contains(&reading(160, 1_500)));
    assert!(r.contains(&reading(170, 2_000)));
    assert!(!r.contains(&reading(150, 50_000)));
}

#[test]
fn anomalous_timestamps_can_ride_along_in_a_window() {
    // The engine only checks the window head against the newest reading, so
    // a reading whose timestamp jumped backwards can sit inside a qualifying
    // window without itself fitting the span.
    let samples = vec![
        reading(10, 0),
        reading(10, 100),
        reading(10, 1),
        reading(500, 200),
    ];
    let q = PingReadingQuery::new(100, 0, 100);
    let r = q.query(&samples);
    assert_eq!(r, vec![reading(10, 100), reading(10, 1), reading(500, 200)]);
}

#[test]
fn window_degenerates_to_single_samples() {
    // A window smaller than the sampling gap holds one sample at a time.
    let samples = vec![reading(150, 1_000), reading(160, 2_000)];
    let q = PingReadingQuery::new(100, 1, 10);
    assert!(q.query(&samples).is_empty());
    let q0 = PingReadingQuery::new(100, 0, 10);
    assert_eq!(q0.query(&samples), samples);
}

#[test]
fn empty_snapshot_yields_empty_result() {
    let q = PingReadingQuery::new(100, 0, 3_000);
    assert!(q.query(&[]).is_empty());
}
