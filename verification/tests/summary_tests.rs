use std::time::Duration;

use undine::summary::{build_latency_stats, build_metrics_stats, percentile};
use undine::{MetricEvent, MetricsStore};

fn ms(n: u64) -> u128 {
    Duration::from_millis(n).as_nanos()
}

fn throughput(count: u64, run: Duration) -> f64 {
    if run.is_zero() {
        0.0
    } else {
        count as f64 / run.as_secs_f64()
    }
}

#[test]
fn percentile_clamps_and_uses_ceil_rule() {
    let sorted: Vec<u128> = (1..=5).map(ms).collect();
    assert_eq!(percentile(&sorted, 0), ms(1));
    assert_eq!(percentile(&sorted, 500), ms(3));
    assert_eq!(percentile(&sorted, 950), ms(5));
    assert_eq!(percentile(&sorted, 1000), ms(5));
}

#[test]
fn build_latency_summary_known_samples() {
    let samples = vec![ms(50), ms(10), ms(30), ms(40), ms(20)];
    let s = build_latency_stats(&samples);
    assert_eq!(s.count, 5);
    assert_eq!(s.min, Some(ms(10)));
    assert_eq!(s.max, Some(ms(50)));
    assert_eq!(s.mean, Some(ms(30)));
    assert_eq!(s.p95, Some(ms(50)));
    assert_eq!(s.p99, Some(ms(50)));
    assert!((throughput(s.count, Duration::from_secs(1)) - 5.0).abs() < 1e-9);
}

#[test]
fn build_latency_summary_empty_is_none_and_zero() {
    let s = build_latency_stats(&vec![]);
    assert_eq!(s.count, 0);
    assert!(s.min.is_none());
    assert!(s.max.is_none());
    assert!(s.mean.is_none());
    assert!(s.p95.is_none());
    assert!(s.p99.is_none());
    assert_eq!(throughput(s.count, Duration::from_secs(1)), 0.0);
}

#[test]
fn throughput_uses_total_run_duration() {
    let samples = vec![ms(1); 10];
    let s = build_latency_stats(&samples);
    assert!((throughput(s.count, Duration::from_secs(2)) - 5.0).abs() < 1e-9);
}

#[test]
fn throughput_zero_when_run_duration_is_zero() {
    let samples = vec![ms(1)];
    let s = build_latency_stats(&samples);
    assert_eq!(throughput(s.count, Duration::ZERO), 0.0);
}

#[test]
fn build_metrics_summary_groups_by_name() {
    let mut store = MetricsStore::new();
    store.ingest(MetricEvent::Counter { name: "hits".to_string(), value: 5 });
    for n in [1, 2, 3] {
        store.ingest(MetricEvent::Latency {
            name: "read".to_string(),
            value: Duration::from_millis(n),
        });
    }
    for n in [10, 20] {
        store.ingest(MetricEvent::Latency {
            name: "write".to_string(),
            value: Duration::from_millis(n),
        });
    }

    let s = build_metrics_stats(&store);
    assert_eq!(s.counters, vec![("hits".to_string(), 5)]);
    let read = s.latencies.iter().find(|(n, _)| n == "read").unwrap();
    let write = s.latencies.iter().find(|(n, _)| n == "write").unwrap();
    assert_eq!(read.1.count, 3);
    assert_eq!(write.1.count, 2);
    assert_eq!(write.1.mean, Some(ms(15)));
}

#[test]
fn percentile_ranks_of_a_hundred() {
    let sorted: Vec<u128> = (1..=100).map(|n| n as u128).collect();
    assert_eq!(percentile(&sorted, 950), 95);
    assert_eq!(percentile(&sorted, 990), 99);
    assert_eq!(percentile(&sorted, 5000), 100);
    let s = build_latency_stats(&sorted.iter().rev().copied().collect());
    assert_eq!(s.p95, Some(95));
    assert_eq!(s.p99, Some(99));
    assert_eq!(s.mean, Some(50));
    assert_eq!(s.min, Some(1));
    assert_eq!(s.max, Some(100));
}

#[test]
fn mean_rounds_down() {
    let s = build_latency_stats(&vec![1, 2]);
    assert_eq!(s.mean, Some(1));
}
