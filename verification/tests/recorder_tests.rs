use otel_metrics::{
    GaugeUpdate, HandleUpdate, Kind, KindMask, MeterRecorder, MetricHandle, MetricKey,
    Observation, ObservedValue, RecorderConfig,
};

fn key(name: &str, labels: &[(&str, &str)]) -> MetricKey {
    let pairs: Vec<(String, String)> = labels
        .iter()
        .map(|(k, v)| (k.to_string(), v.to_string()))
        .collect();
    MetricKey::new(name.to_string(), pairs)
}

fn counter_value(obs: &Observation) -> u64 {
    match &obs.value {
        ObservedValue::Counter(v) => *v,
        _ => panic!("expected a counter observation"),
    }
}

fn gauge_value(obs: &Observation) -> i64 {
    match &obs.value {
        ObservedValue::Gauge(v) => *v,
        _ => panic!("expected a gauge observation"),
    }
}

fn histogram_samples(obs: &Observation) -> Vec<u64> {
    match &obs.value {
        ObservedValue::Histogram(s) => s.clone(),
        _ => panic!("expected a histogram observation"),
    }
}

#[test]
fn counter_increments_sum_to_total() {
    let mut rec = MeterRecorder::new(None);
    let k = key("requests", &[]);
    rec.increment_counter(&k, 10);
    rec.increment_counter(&k, 20);
    rec.increment_counter(&k, 12);
    let batch = rec.export_pass_at(0);
    assert_eq!(batch.len(), 1);
    assert_eq!(batch[0].kind, Kind::Counter);
    assert_eq!(counter_value(&batch[0]), 42);
}

#[test]
fn counter_accumulator_wraps() {
    let mut rec = MeterRecorder::new(None);
    let k = key("wrapping", &[]);
    rec.increment_counter(&k, u64::MAX);
    rec.increment_counter(&k, 5);
    let batch = rec.export_pass_at(0);
    assert_eq!(counter_value(&batch[0]), 4);
}

#[test]
fn histogram_samples_delivered_exactly_once() {
    let mut rec = MeterRecorder::new(None);
    let k = key("latency", &[("route", "/a")]);
    rec.record_histogram(&k, 7);
    rec.record_histogram(&k, 9);
    rec.record_histogram(&k, 7);
    let first = rec.export_pass_at(0);
    assert_eq!(first.len(), 1);
    assert_eq!(histogram_samples(&first[0]), vec![7, 9, 7]);
    let second = rec.export_pass_at(1);
    assert_eq!(second.len(), 1);
    assert_eq!(histogram_samples(&second[0]), Vec::<u64>::new());
}

#[test]
fn histogram_samples_recorded_between_passes_appear_in_next_pass() {
    let mut rec = MeterRecorder::new(None);
    let k = key("latency", &[]);
    rec.record_histogram(&k, 1);
    let first = rec.export_pass_at(0);
    assert_eq!(histogram_samples(&first[0]), vec![1]);
    rec.record_histogram(&k, 2);
    rec.record_histogram(&k, 3);
    let second = rec.export_pass_at(1);
    assert_eq!(histogram_samples(&second[0]), vec![2, 3]);
}

#[test]
fn idle_metric_evicted_then_revived() {
    // Idle timeout of 100 time units over every kind.
    let mut rec = MeterRecorder::new(Some(100));
    let k = key("sessions", &[("node", "a")]);
    rec.increment_counter(&k, 3);

    // First export: first sighting, reported, record taken at t=0.
    let b0 = rec.export_pass_at(0);
    assert_eq!(b0.len(), 1);
    assert_eq!(counter_value(&b0[0]), 3);

    // No new activity, within the timeout: still reported.
    let b1 = rec.export_pass_at(50);
    assert_eq!(b1.len(), 1);
    assert_eq!(counter_value(&b1[0]), 3);

    // No new activity for longer than the timeout: excluded and evicted.
    let b2 = rec.export_pass_at(201);
    assert_eq!(b2.len(), 0);
    assert_eq!(rec.registry.len(), 0);

    // A later update starts a fresh lifecycle: the metric is reportable
    // again, starting over from zero.
    rec.increment_counter(&k, 8);
    let b3 = rec.export_pass_at(300);
    assert_eq!(b3.len(), 1);
    assert_eq!(counter_value(&b3[0]), 8);
}

#[test]
fn activity_resets_the_idle_clock() {
    let mut rec = MeterRecorder::new(Some(100));
    let k = key("busy", &[]);
    rec.increment_counter(&k, 1);
    let b0 = rec.export_pass_at(0);
    assert_eq!(b0.len(), 1);
    // New activity before the next pass: generation moved, so the metric is
    // fresh however much time has passed.
    rec.increment_counter(&k, 1);
    let b1 = rec.export_pass_at(500);
    assert_eq!(b1.len(), 1);
    assert_eq!(counter_value(&b1[0]), 2);
}

#[test]
fn registration_metadata_first_write_wins() {
    let mut rec = MeterRecorder::new(None);
    let k = key("queue_depth", &[]);
    rec.register_counter(
        &k,
        &Some("items".to_string()),
        &Some("first description".to_string()),
    );
    rec.register_counter(
        &k,
        &Some("bytes".to_string()),
        &Some("second description".to_string()),
    );
    let batch = rec.export_pass_at(0);
    assert_eq!(batch.len(), 1);
    assert_eq!(batch[0].description, Some("first description".to_string()));
    assert_eq!(batch[0].unit, Some("items".to_string()));
}

#[test]
fn registration_is_idempotent() {
    let mut rec = MeterRecorder::new(None);
    let k = key("conns", &[]);
    rec.register_gauge(&k, &None, &None);
    rec.register_gauge(&k, &None, &None);
    assert_eq!(rec.registry.len(), 1);
    rec.update_gauge(&k, GaugeUpdate::Increment(5));
    let batch = rec.export_pass_at(0);
    assert_eq!(batch.len(), 1);
    assert_eq!(gauge_value(&batch[0]), 5);
}

#[test]
fn racing_updates_share_one_slot() {
    // Sequential form of the get-or-create race: updates for one
    // never-before-seen key all land on a single slot, and the slot
    // accumulates the arithmetic sum of the individual deltas.
    let mut rec = MeterRecorder::new(None);
    let k = key("raced", &[]);
    rec.increment_counter(&k, 11);
    rec.increment_counter(&k, 31);
    assert_eq!(rec.registry.len(), 1);
    let batch = rec.export_pass_at(0);
    assert_eq!(batch.len(), 1);
    assert_eq!(counter_value(&batch[0]), 42);
}

#[test]
fn end_to_end_requests_total() {
    let mut rec = MeterRecorder::new(None);
    let k = key("requests_total", &[("route", "/a")]);
    rec.register_counter(&k, &None, &None);
    // Three writers, each adding one a hundred times.
    for _ in 0..3 {
        for _ in 0..100 {
            rec.increment_counter(&k, 1);
        }
    }
    let batch = rec.export_pass_at(0);
    assert_eq!(batch.len(), 1);
    assert_eq!(batch[0].kind, Kind::Counter);
    assert!(batch[0].key.key_eq(&k));
    assert_eq!(counter_value(&batch[0]), 300);
    // The pass right after reports nothing new for that key: the counter
    // still stands at 300, with no extra observation and no eviction.
    let again = rec.export_pass_at(1);
    assert_eq!(again.len(), 1);
    assert_eq!(counter_value(&again[0]), 300);
}

#[test]
fn gauge_update_variants() {
    let mut rec = MeterRecorder::new(None);
    let k = key("level", &[]);
    rec.update_gauge(&k, GaugeUpdate::Increment(10));
    rec.update_gauge(&k, GaugeUpdate::Decrement(25));
    let b0 = rec.export_pass_at(0);
    assert_eq!(gauge_value(&b0[0]), -15);
    rec.update_gauge(&k, GaugeUpdate::Absolute(7));
    let b1 = rec.export_pass_at(1);
    assert_eq!(gauge_value(&b1[0]), 7);
}

#[test]
fn same_name_under_two_kinds_yields_two_slots() {
    let mut rec = MeterRecorder::new(None);
    let k = key("mixed", &[]);
    rec.increment_counter(&k, 2);
    rec.record_histogram(&k, 9);
    assert_eq!(rec.registry.len(), 2);
    let batch = rec.export_pass_at(0);
    assert_eq!(batch.len(), 2);
    let counters: Vec<&Observation> = batch.iter().filter(|o| o.kind == Kind::Counter).collect();
    let histograms: Vec<&Observation> =
        batch.iter().filter(|o| o.kind == Kind::Histogram).collect();
    assert_eq!(counters.len(), 1);
    assert_eq!(histograms.len(), 1);
    assert_eq!(counter_value(counters[0]), 2);
    assert_eq!(histogram_samples(histograms[0]), vec![9]);
}

#[test]
fn keys_differ_by_labels() {
    let mut rec = MeterRecorder::new(None);
    let ka = key("requests", &[("route", "/a")]);
    let kb = key("requests", &[("route", "/b")]);
    assert!(!ka.key_eq(&kb));
    assert!(ka.key_eq(&ka.clone()));
    rec.increment_counter(&ka, 1);
    rec.increment_counter(&kb, 2);
    let batch = rec.export_pass_at(0);
    assert_eq!(batch.len(), 2);
    let va: u64 = batch
        .iter()
        .filter(|o| o.key.key_eq(&ka))
        .map(counter_value)
        .sum();
    let vb: u64 = batch
        .iter()
        .filter(|o| o.key.key_eq(&kb))
        .map(counter_value)
        .sum();
    assert_eq!(va, 1);
    assert_eq!(vb, 2);
}

#[test]
fn untracked_kind_never_evicted() {
    // Timeout applies to histograms only; counters are never stale.
    let config = RecorderConfig::new().timeout(
        KindMask {
            counter: false,
            gauge: false,
            histogram: true,
        },
        Some(10),
    );
    let mut rec = MeterRecorder::with_config(config);
    let k = key("stays", &[]);
    rec.increment_counter(&k, 5);
    let b0 = rec.export_pass_at(0);
    assert_eq!(b0.len(), 1);
    let b1 = rec.export_pass_at(1_000_000);
    assert_eq!(b1.len(), 1);
    assert_eq!(counter_value(&b1[0]), 5);
}

#[test]
fn timeout_with_none_disables_mask() {
    let config = RecorderConfig::new().timeout(KindMask::all(), None);
    assert_eq!(config.idle_timeout, None);
    assert_eq!(config.mask, KindMask::none());
}

#[test]
fn enumerate_lists_every_slot() {
    let mut rec = MeterRecorder::new(None);
    let ka = key("a", &[]);
    let kb = key("b", &[]);
    rec.increment_counter(&ka, 1);
    rec.record_histogram(&kb, 2);
    let listing = rec.registry.enumerate();
    assert_eq!(listing.len(), 2);
    assert_eq!(listing[0].0, Kind::Counter);
    assert!(listing[0].1.key_eq(&ka));
    assert_eq!(listing[1].0, Kind::Histogram);
    assert!(listing[1].1.key_eq(&kb));
}

#[test]
fn export_now_uses_the_real_clock() {
    let mut rec = MeterRecorder::new(None);
    let k = key("wall_clock", &[]);
    rec.increment_counter(&k, 9);
    let batch = rec.export_now();
    assert_eq!(batch.len(), 1);
    assert_eq!(counter_value(&batch[0]), 9);
}

#[test]
fn handle_reads_and_read_and_clear() {
    let mut c = MetricHandle::fresh(Kind::Counter);
    c.apply(HandleUpdate::IncrementCounter(41));
    c.apply(HandleUpdate::IncrementCounter(1));
    assert_eq!(c.read_counter(), 42);

    let mut g = MetricHandle::fresh(Kind::Gauge);
    g.apply(HandleUpdate::UpdateGauge(GaugeUpdate::Decrement(8)));
    assert_eq!(g.read_gauge(), -8);

    let mut h = MetricHandle::fresh(Kind::Histogram);
    h.apply(HandleUpdate::RecordHistogram(3));
    h.apply(HandleUpdate::RecordHistogram(5));
    assert_eq!(h.take_histogram(), vec![3, 5]);
    assert_eq!(h.take_histogram(), Vec::<u64>::new());
}

#[test]
fn kind_mismatched_update_is_a_silent_no_op() {
    let mut c = MetricHandle::fresh(Kind::Counter);
    c.apply(HandleUpdate::IncrementCounter(7));
    // A histogram record aimed at a counter handle changes nothing.
    c.apply(HandleUpdate::RecordHistogram(99));
    assert_eq!(c.read_counter(), 7);
    assert_eq!(c.read_gauge(), 0);
}
