use std::time::Duration;

use tokio::sync::mpsc::{UnboundedReceiver, UnboundedSender};
use vstd::prelude::*;

use crate::keyed::KeyedList;

verus! {

#[verifier::external_type_specification]
#[verifier::external_body]
#[verifier::reject_recursive_types(T)]
pub struct ExUnboundedSender<T>(UnboundedSender<T>);

#[verifier::external_type_specification]
#[verifier::external_body]
#[verifier::reject_recursive_types(T)]
pub struct ExUnboundedReceiver<T>(UnboundedReceiver<T>);

/// A metric or event emitted by workers or hooks during scenario execution.
#[derive(Debug, PartialEq, Eq)]
#[allow(inconsistent_fields)]
pub enum MetricEvent {
    Counter { name: String, value: u64 },
    Latency { name: String, value: Duration },
    Event { name: String, message: String },
}

impl Clone for MetricEvent {
    fn clone(&self) -> (r: Self)
        ensures
            r == *self,
    {
        match self {
            MetricEvent::Counter { name, value } => MetricEvent::Counter {
                name: name.clone(),
                value: *value,
            },
            MetricEvent::Latency { name, value } => MetricEvent::Latency {
                name: name.clone(),
                value: *value,
            },
            MetricEvent::Event { name, message } => MetricEvent::Event {
                name: name.clone(),
                message: message.clone(),
            },
        }
    }
}

/// Lightweight, cloneable sink used by workers and hooks to emit events.
///
/// Backed by an unbounded channel owned by the running scenario.
pub struct MetricsSink {
    sender: UnboundedSender<MetricEvent>,
}

/// Another handle to the same channel (tokio's `UnboundedSender::clone`).
#[verifier::external_body]
fn clone_sender(sender: &UnboundedSender<MetricEvent>) -> UnboundedSender<MetricEvent> {
    sender.clone()
}

impl Clone for MetricsSink {
    fn clone(&self) -> Self {
        MetricsSink { sender: clone_sender(&self.sender) }
    }
}

/// Opens an unbounded channel of metric events (tokio's
/// `mpsc::unbounded_channel`). Nothing is stated of the two ends: what one
/// end receives depends on what the other sends at run time.
#[verifier::external_body]
fn open_channel() -> (UnboundedSender<MetricEvent>, UnboundedReceiver<MetricEvent>) {
    tokio::sync::mpsc::unbounded_channel()
}

/// Sends an event down the channel (tokio's `UnboundedSender::send`); a send
/// to a channel whose receiver is gone is dropped silently.
#[verifier::external_body]
fn send_event(sender: &UnboundedSender<MetricEvent>, event: MetricEvent) {
    let _ = sender.send(event);
}

impl MetricsSink {
    /// A sink together with the receiving end of its channel.
    pub fn new() -> (MetricsSink, UnboundedReceiver<MetricEvent>) {
        let (tx, rx) = open_channel();
        (MetricsSink { sender: tx }, rx)
    }

    pub fn emit(&self, event: MetricEvent) {
        send_event(&self.sender, event);
    }

    pub fn counter(&self, name: impl Into<String>, value: u64) {
        self.emit(MetricEvent::Counter { name: name.into(), value });
    }

    pub fn latency(&self, name: impl Into<String>, value: Duration) {
        self.emit(MetricEvent::Latency { name: name.into(), value });
    }

    pub fn event(&self, name: impl Into<String>, message: impl Into<String>) {
        self.emit(MetricEvent::Event { name: name.into(), message: message.into() });
    }
}

/// `x + y` wrapped into `u64`, as `u64::wrapping_add` computes it.
pub open spec fn wrap_add(x: u64, y: u64) -> u64 {
    if x + y > u64::MAX {
        (x + y - 0x1_0000_0000_0000_0000int) as u64
    } else {
        (x + y) as u64
    }
}

/// Whether some counter event in `es` is named `k`.
pub open spec fn has_counter(es: Seq<MetricEvent>, k: Seq<char>) -> bool
    decreases es.len(),
{
    if es.len() == 0 {
        false
    } else {
        has_counter(es.drop_last(), k) || (es.last() matches MetricEvent::Counter { name, .. }
            && name@ == k)
    }
}

/// Running value of the counter `k` after the events `es`: the values of
/// its counter events added up in `u64`, wrapping on overflow.
pub open spec fn counter_value(es: Seq<MetricEvent>, k: Seq<char>) -> u64
    decreases es.len(),
{
    if es.len() == 0 {
        0
    } else {
        let prev = counter_value(es.drop_last(), k);
        match es.last() {
            MetricEvent::Counter { name, value } => if name@ == k {
                wrap_add(prev, value)
            } else {
                prev
            },
            _ => prev,
        }
    }
}

/// The exact sum of the values of the counter events named `k`.
pub open spec fn counter_total(es: Seq<MetricEvent>, k: Seq<char>) -> int
    decreases es.len(),
{
    if es.len() == 0 {
        0
    } else {
        let prev = counter_total(es.drop_last(), k);
        match es.last() {
            MetricEvent::Counter { name, value } => if name@ == k {
                prev + value
            } else {
                prev
            },
            _ => prev,
        }
    }
}

/// Whether some latency event in `es` is named `k`.
pub open spec fn has_latency(es: Seq<MetricEvent>, k: Seq<char>) -> bool
    decreases es.len(),
{
    if es.len() == 0 {
        false
    } else {
        has_latency(es.drop_last(), k) || (es.last() matches MetricEvent::Latency { name, .. }
            && name@ == k)
    }
}

/// The samples of the latency events named `k`, in the order they came.
pub open spec fn latency_series(es: Seq<MetricEvent>, k: Seq<char>) -> Seq<Duration>
    decreases es.len(),
{
    if es.len() == 0 {
        Seq::empty()
    } else {
        let prev = latency_series(es.drop_last(), k);
        match es.last() {
            MetricEvent::Latency { name, value } => if name@ == k {
                prev.push(value)
            } else {
                prev
            },
            _ => prev,
        }
    }
}

/// Without a counter event named `k`, its running value is zero.
pub proof fn lemma_counter_absent(es: Seq<MetricEvent>, k: Seq<char>)
    requires
        !has_counter(es, k),
    ensures
        counter_value(es, k) == 0,
        counter_total(es, k) == 0,
    decreases es.len(),
{
    if es.len() > 0 {
        lemma_counter_absent(es.drop_last(), k);
    }
}

/// While the exact sum of a counter's values fits in `u64`, the counter
/// holds that exact sum.
pub proof fn lemma_counter_exact(es: Seq<MetricEvent>, k: Seq<char>)
    requires
        counter_total(es, k) <= u64::MAX,
    ensures
        counter_value(es, k) == counter_total(es, k),
    decreases es.len(),
{
    if es.len() > 0 {
        lemma_counter_exact(es.drop_last(), k);
    }
}

/// Without a latency event named `k`, its series is empty.
pub proof fn lemma_latency_absent(es: Seq<MetricEvent>, k: Seq<char>)
    requires
        !has_latency(es, k),
    ensures
        latency_series(es, k) == Seq::<Duration>::empty(),
    decreases es.len(),
{
    if es.len() > 0 {
        lemma_latency_absent(es.drop_last(), k);
    }
}

/// One ingested event moves the counter aggregates one step.
proof fn lemma_ingest_counters(
    es0: Seq<MetricEvent>,
    e: MetricEvent,
    c0: Map<Seq<char>, u64>,
    c1: Map<Seq<char>, u64>,
)
    requires
        forall|k: Seq<char>| #[trigger] c0.contains_key(k) <==> has_counter(es0, k),
        forall|k: Seq<char>| #[trigger] c0.contains_key(k) ==> c0[k] == counter_value(es0, k),
        c1 == (match e {
            MetricEvent::Counter { name, value } => c0.insert(
                name@,
                wrap_add(if c0.contains_key(name@) { c0[name@] } else { 0 }, value),
            ),
            _ => c0,
        }),
    ensures
        forall|k: Seq<char>| #[trigger] c1.contains_key(k) <==> has_counter(es0.push(e), k),
        forall|k: Seq<char>| #[trigger]
            c1.contains_key(k) ==> c1[k] == counter_value(es0.push(e), k),
{
    let es = es0.push(e);
    assert(es.drop_last() =~= es0);
    assert forall|k: Seq<char>| #[trigger] c1.contains_key(k) <==> has_counter(es, k) by {}
    assert forall|k: Seq<char>| #[trigger] c1.contains_key(k) implies c1[k] == counter_value(
        es,
        k,
    ) by {
        if !c0.contains_key(k) {
            lemma_counter_absent(es0, k);
        }
    }
}

/// One ingested event moves the latency aggregates one step.
proof fn lemma_ingest_latencies(
    es0: Seq<MetricEvent>,
    e: MetricEvent,
    l0: Map<Seq<char>, Seq<Duration>>,
    l1: Map<Seq<char>, Seq<Duration>>,
)
    requires
        forall|k: Seq<char>| #[trigger] l0.contains_key(k) <==> has_latency(es0, k),
        forall|k: Seq<char>| #[trigger] l0.contains_key(k) ==> l0[k] == latency_series(es0, k),
        l1 == (match e {
            MetricEvent::Latency { name, value } => l0.insert(
                name@,
                (if l0.contains_key(name@) {
                    l0[name@]
                } else {
                    Seq::<Duration>::empty()
                }).push(value),
            ),
            _ => l0,
        }),
    ensures
        forall|k: Seq<char>| #[trigger] l1.contains_key(k) <==> has_latency(es0.push(e), k),
        forall|k: Seq<char>| #[trigger]
            l1.contains_key(k) ==> l1[k] == latency_series(es0.push(e), k),
{
    let es = es0.push(e);
    assert(es.drop_last() =~= es0);
    assert forall|k: Seq<char>| #[trigger] l1.contains_key(k) <==> has_latency(es, k) by {}
    assert forall|k: Seq<char>| #[trigger] l1.contains_key(k) implies l1[k] == latency_series(
        es,
        k,
    ) by {
        if !l0.contains_key(k) {
            lemma_latency_absent(es0, k);
        }
    }
}

/// Aggregate of metric events: per-name counter totals, per-name latency
/// samples, and every event in arrival order.
pub struct MetricsStore {
    counters: KeyedList<u64>,
    latencies: KeyedList<Vec<Duration>>,
    events: Vec<MetricEvent>,
}

impl MetricsStore {
    /// Every event ingested so far, in order.
    pub closed spec fn events(self) -> Seq<MetricEvent> {
        self.events@
    }

    /// Counter totals by name.
    pub closed spec fn counters(self) -> Map<Seq<char>, u64> {
        self.counters.as_map()
    }

    /// Latency samples by name.
    pub closed spec fn latencies(self) -> Map<Seq<char>, Seq<Duration>> {
        self.latencies.as_map().map_values(|v: Vec<Duration>| v@)
    }

    /// The counter names, in the order they first appeared.
    pub closed spec fn counter_names(self) -> Seq<Seq<char>> {
        self.counters.keys()
    }

    /// The latency names, in the order they first appeared.
    pub closed spec fn latency_names(self) -> Seq<Seq<char>> {
        self.latencies.keys()
    }

    /// The aggregates are exactly those of the ingested events; the lists
    /// hold no name twice.
    #[verifier::type_invariant]
    spec fn inv(self) -> bool {
        &&& self.counters.wf()
        &&& self.latencies.wf()
        &&& forall|k: Seq<char>| #[trigger]
            self.counters().contains_key(k) <==> has_counter(self.events(), k)
        &&& forall|k: Seq<char>| #[trigger]
            self.counters().contains_key(k) ==> self.counters()[k] == counter_value(
                self.events(),
                k,
            )
        &&& forall|k: Seq<char>| #[trigger]
            self.latencies().contains_key(k) <==> has_latency(self.events(), k)
        &&& forall|k: Seq<char>| #[trigger]
            self.latencies().contains_key(k) ==> self.latencies()[k] == latency_series(
                self.events(),
                k,
            )
    }

    /// An empty store.
    pub fn new() -> (r: Self)
        ensures
            r.events() == Seq::<MetricEvent>::empty(),
    {
        let counters: KeyedList<u64> = KeyedList::new();
        let latencies: KeyedList<Vec<Duration>> = KeyedList::new();
        assert(latencies.as_map().map_values(|v: Vec<Duration>| v@) =~= Map::<
            Seq<char>,
            Seq<Duration>,
        >::empty());
        MetricsStore { counters, latencies, events: Vec::new() }
    }

    /// Add one event to the aggregates.
    pub fn ingest(&mut self, event: MetricEvent)
        ensures
            final(self).events() == old(self).events().push(event),
    {
        proof {
            use_type_invariant(&*self);
        }
        let mut taken = MetricsStore::new();
        std::mem::swap(&mut taken, self);
        proof {
            use_type_invariant(&taken);
        }
        let ghost c0 = taken.counters();
        let ghost l0 = taken.latencies();
        let ghost es0 = taken.events();
        let MetricsStore { mut counters, mut latencies, mut events } = taken;
        match &event {
            MetricEvent::Counter { name, value } => {
                let cur: u64 = match counters.get(name.as_str()) {
                    Some(c) => *c,
                    None => 0,
                };
                counters.insert(name.clone(), cur.wrapping_add(*value));
            },
            MetricEvent::Latency { name, value } => {
                let d: Duration = *value;
                match latencies.find(name.as_str()) {
                    Some(i) => {
                        let ghost before = latencies;
                        let series = latencies.value_mut(i);
                        series.push(d);
                        proof {
                            before.lemma_update_value(latencies, i as int, *series);
                            before.lemma_position(i as int);
                        }
                    },
                    None => {
                        let mut series: Vec<Duration> = Vec::new();
                        series.push(d);
                        latencies.insert(name.clone(), series);
                        proof {
                            assert(series@ =~= Seq::<Duration>::empty().push(d));
                        }
                    },
                }
                proof {
                    let k = name@;
                    let prev = if l0.contains_key(k) {
                        l0[k]
                    } else {
                        Seq::<Duration>::empty()
                    };
                    assert(latencies.as_map().map_values(|v: Vec<Duration>| v@) =~= l0.insert(
                        k,
                        prev.push(d),
                    ));
                }
            },
            MetricEvent::Event { .. } => {},
        }
        events.push(event);
        proof {
            let l1 = latencies.as_map().map_values(|v: Vec<Duration>| v@);
            if !(event is Latency) {
                assert(l1 =~= l0);
            }
            lemma_ingest_counters(es0, event, c0, counters.as_map());
            lemma_ingest_latencies(es0, event, l0, l1);
        }
        *self = MetricsStore { counters, latencies, events };
    }

    /// Aggregate a whole sequence of events.
    pub fn from_events(events: Vec<MetricEvent>) -> (r: Self)
        ensures
            r.events() == events@,
    {
        let mut store = MetricsStore::new();
        let mut i: usize = 0;
        while i < events.len()
            invariant
                i <= events.len(),
                store.events() == events@.take(i as int),
            decreases events.len() - i,
        {
            store.ingest(events[i].clone());
            assert(events@.take(i + 1) =~= events@.take(i as int).push(events@[i as int]));
            i = i + 1;
        }
        assert(events@.take(events.len() as int) =~= events@);
        store
    }

    /// Total of counter `name`, if some counter event carried that name.
    pub fn counter(&self, name: &str) -> (r: Option<u64>)
        ensures
            r is Some <==> has_counter(self.events(), name@),
            r matches Some(v) ==> v == counter_value(self.events(), name@),
    {
        proof {
            use_type_invariant(self);
        }
        assert(self.counters().contains_key(name@) == self.counters.as_map().contains_key(name@));
        match self.counters.get(name) {
            Some(v) => Some(*v),
            None => None,
        }
    }

    /// Samples of latency `name`, if some latency event carried that name.
    pub fn latency_samples(&self, name: &str) -> (r: Option<&Vec<Duration>>)
        ensures
            r is Some <==> has_latency(self.events(), name@),
            r matches Some(v) ==> v@ == latency_series(self.events(), name@),
    {
        proof {
            use_type_invariant(self);
        }
        assert(self.latencies().contains_key(name@) == self.latencies.as_map().contains_key(
            name@,
        ));
        self.latencies.get(name)
    }

    /// The counter totals as an ordered list.
    pub fn counter_list(&self) -> (r: &KeyedList<u64>)
        ensures
            r.wf(),
            r.as_map() == self.counters(),
            r.keys() == self.counter_names(),
            forall|k: Seq<char>| #[trigger]
                self.counters().contains_key(k) <==> has_counter(self.events(), k),
            forall|k: Seq<char>| #[trigger]
                self.counters().contains_key(k) ==> self.counters()[k] == counter_value(
                    self.events(),
                    k,
                ),
    {
        proof {
            use_type_invariant(self);
        }
        &self.counters
    }

    /// The latency series as an ordered list.
    pub fn latency_list(&self) -> (r: &KeyedList<Vec<Duration>>)
        ensures
            r.wf(),
            r.as_map().map_values(|v: Vec<Duration>| v@) == self.latencies(),
            r.keys() == self.latency_names(),
            forall|k: Seq<char>| #[trigger]
                self.latencies().contains_key(k) <==> has_latency(self.events(), k),
            forall|k: Seq<char>| #[trigger]
                self.latencies().contains_key(k) ==> self.latencies()[k] == latency_series(
                    self.events(),
                    k,
                ),
    {
        proof {
            use_type_invariant(self);
        }
        &self.latencies
    }

    /// Every event, in arrival order.
    pub fn all_events(&self) -> (r: &Vec<MetricEvent>)
        ensures
            r@ == self.events(),
    {
        &self.events
    }
}

} // verus!
