use std::time::Duration;

use undine::{MetricEvent, MetricsSink, MetricsStore};

fn drain(rx: &mut tokio::sync::mpsc::UnboundedReceiver<MetricEvent>) -> MetricsStore {
    let mut store = MetricsStore::new();
    while let Ok(event) = rx.try_recv() {
        store.ingest(event);
    }
    store
}

#[test]
fn sink_emits_counters_and_drain_aggregates() {
    let (sink, mut rx) = MetricsSink::new();
    sink.counter("hits", 1);
    sink.counter("hits", 4);
    sink.counter("misses", 2);

    drop(sink);
    let store = drain(&mut rx);
    assert_eq!(store.counter("hits"), Some(5));
    assert_eq!(store.counter("misses"), Some(2));
}

#[test]
fn sink_emits_latencies_and_events() {
    let (sink, mut rx) = MetricsSink::new();
    sink.latency("req", Duration::from_millis(5));
    sink.latency("req", Duration::from_millis(7));
    sink.event("note", "hello");

    drop(sink);
    let store = drain(&mut rx);
    assert_eq!(store.latency_samples("req").map(|v| v.len()), Some(2));
    assert_eq!(store.all_events().len(), 3);
}

#[test]
fn counter_wraps_like_u64() {
    let mut store = MetricsStore::new();
    store.ingest(MetricEvent::Counter { name: "c".to_string(), value: u64::MAX });
    store.ingest(MetricEvent::Counter { name: "c".to_string(), value: 2 });
    assert_eq!(store.counter("c"), Some(1));
}

#[test]
fn events_do_not_touch_aggregates() {
    let store = MetricsStore::from_events(vec![
        MetricEvent::Event { name: "c".to_string(), message: "m".to_string() },
        MetricEvent::Latency { name: "c".to_string(), value: Duration::from_millis(3) },
    ]);
    assert_eq!(store.counter("c"), None);
    assert_eq!(
        store.latency_samples("c").cloned(),
        Some(vec![Duration::from_millis(3)])
    );
    assert_eq!(store.all_events().len(), 2);
}

#[test]
fn cloned_sink_feeds_the_same_channel() {
    let (sink, mut rx) = MetricsSink::new();
    let other = sink.clone();
    other.emit(MetricEvent::Counter { name: "x".to_string(), value: 3 });
    sink.counter("x".to_string(), 4);
    drop(sink);
    drop(other);
    assert_eq!(drain(&mut rx).counter("x"), Some(7));
}
