//! One export pass: enumerate the registry, filter out stale metrics
//! (evicting them), read counters and gauges non-destructively, drain
//! histogram buffers exactly once, resolve metadata, and assemble the batch
//! of observations handed to the backend as one unit.

use vstd::prelude::*;
use crate::details::{names_lookup, DetailsCache};
use crate::handle::{MetricHandle, MetricHandleView};
use crate::key::{Kind, MetricKey, MetricKeyView};
use crate::recency::{RecencyTracker, RecencyTrackerView};
use crate::registry::{
    entry_is, has_entry, lemma_entry_index_unique, MetricRegistry, RegistryEntryView,
};

verus! {

/// The value carried by one observation: a point-in-time accumulator
/// reading, or the drained contents of a histogram buffer.
pub enum ObservedValue {
    Counter(u64),
    Gauge(i64),
    Histogram(Vec<u64>),
}

/// The mathematical view of an observed value.
#[verifier::ext_equal]
pub ghost enum ObservedValueView {
    Counter(u64),
    Gauge(i64),
    Histogram(Seq<u64>),
}

impl View for ObservedValue {
    type V = ObservedValueView;

    open spec fn view(&self) -> ObservedValueView {
        match self {
            ObservedValue::Counter(v) => ObservedValueView::Counter(*v),
            ObservedValue::Gauge(v) => ObservedValueView::Gauge(*v),
            ObservedValue::Histogram(samples) => ObservedValueView::Histogram(samples@),
        }
    }
}

/// One metric's contribution to an export batch: its identity, its
/// first-registered metadata, and the value read for this pass.
pub struct Observation {
    pub kind: Kind,
    pub key: MetricKey,
    pub description: Option<String>,
    pub unit: Option<String>,
    pub value: ObservedValue,
}

/// The mathematical view of an observation.
#[verifier::ext_equal]
pub ghost struct ObservationView {
    pub kind: Kind,
    pub key: MetricKeyView,
    pub description: Option<Seq<char>>,
    pub unit: Option<Seq<char>>,
    pub value: ObservedValueView,
}

impl View for Observation {
    type V = ObservationView;

    open spec fn view(&self) -> ObservationView {
        ObservationView {
            kind: self.kind,
            key: self.key@,
            description: match self.description {
                Some(d) => Some(d@),
                None => None,
            },
            unit: match self.unit {
                Some(u) => Some(u@),
                None => None,
            },
            value: self.value@,
        }
    }
}

/// The value an export pass reads off a handle: the current accumulator for
/// counters and gauges, the whole sample buffer for histograms.
pub open spec fn observed_of(h: MetricHandleView) -> ObservedValueView {
    match h {
        MetricHandleView::Counter { value } => ObservedValueView::Counter(value),
        MetricHandleView::Gauge { value } => ObservedValueView::Gauge(value),
        MetricHandleView::Histogram { samples } => ObservedValueView::Histogram(samples),
    }
}

/// A handle after an export read: counters and gauges are untouched, a
/// histogram's buffer is exchanged for an empty one so each sample is
/// reported exactly once.
pub open spec fn drained_handle(h: MetricHandleView) -> MetricHandleView {
    match h {
        MetricHandleView::Histogram { .. } => MetricHandleView::Histogram {
            samples: Seq::empty(),
        },
        _ => h,
    }
}

/// A registry slot after an export read: the handle is drained and the
/// generation stays put, since reading is not activity.
pub open spec fn drained_entry(e: RegistryEntryView) -> RegistryEntryView {
    RegistryEntryView { handle: drained_handle(e.handle), ..e }
}

/// The observation one fresh slot contributes, given the metadata tables.
pub open spec fn observation_of(
    e: RegistryEntryView,
    descriptions: Seq<(Seq<char>, Seq<char>)>,
    units: Seq<(Seq<char>, Seq<char>)>,
) -> ObservationView {
    ObservationView {
        kind: e.kind,
        key: e.key,
        description: names_lookup(descriptions, e.key.name),
        unit: names_lookup(units, e.key.name),
        value: observed_of(e.handle),
    }
}

/// What one export pass does, slot by slot in registry order: each slot is
/// checked against the recency tracker; a fresh slot contributes one
/// observation and stays (drained) in the registry; a stale slot contributes
/// nothing and is evicted.  Returns the batch, the registry listing after
/// the pass, and the tracker after the pass.
pub open spec fn pass_model(
    entries: Seq<RegistryEntryView>,
    rec: RecencyTrackerView,
    descriptions: Seq<(Seq<char>, Seq<char>)>,
    units: Seq<(Seq<char>, Seq<char>)>,
    now: u64,
) -> (Seq<ObservationView>, Seq<RegistryEntryView>, RecencyTrackerView)
    decreases entries.len(),
{
    if entries.len() == 0 {
        (Seq::empty(), Seq::empty(), rec)
    } else {
        let e = entries[0];
        let fresh = rec.judges_fresh(e.kind, e.key, e.generation, now);
        let rec1 = rec.after_check(e.kind, e.key, e.generation, now);
        let rest = pass_model(entries.skip(1), rec1, descriptions, units, now);
        if fresh {
            (
                seq![observation_of(e, descriptions, units)] + rest.0,
                seq![drained_entry(e)] + rest.1,
                rest.2,
            )
        } else {
            rest
        }
    }
}

/// Reads the export value off one handle, draining a histogram's buffer in
/// the same step.
fn drain_handle(h: &mut MetricHandle) -> (r: ObservedValue)
    ensures
        r@ == observed_of(old(h)@),
        final(h)@ == drained_handle(old(h)@),
{
    match h {
        MetricHandle::Counter { value } => ObservedValue::Counter(*value),
        MetricHandle::Gauge { value } => ObservedValue::Gauge(*value),
        MetricHandle::Histogram { samples } => {
            let mut out: Vec<u64> = Vec::new();
            core::mem::swap(samples, &mut out);
            ObservedValue::Histogram(out)
        },
    }
}

/// Produces one export batch.
///
/// Enumerates the registry once, consults the recency tracker per slot,
/// evicts slots judged stale, reads counter and gauge accumulators
/// non-destructively, drains each histogram buffer exactly once, resolves
/// each metric name's first-registered description and unit, and returns the
/// whole batch for the backend to receive as one unit.  The outcome is
/// exactly [`pass_model`] applied to the starting state.
pub fn export_pass(
    registry: &mut MetricRegistry,
    recency: &mut RecencyTracker,
    details: &DetailsCache,
    now: u64,
) -> (batch: Vec<Observation>)
    requires
        old(registry).wf(),
        old(recency).wf(),
        details.wf(),
    ensures
        final(registry).wf(),
        final(recency).wf(),
        ({
            let m = pass_model(
                old(registry)@,
                old(recency)@,
                details.descriptions@,
                details.units@,
                now,
            );
            &&& batch@.map_values(|o: Observation| o@) == m.0
            &&& final(registry)@ == m.1
            &&& final(recency)@ == m.2
        }),
{
    let ghost reg0 = registry@;
    let ghost rec0 = recency@;
    let ghost descs = details.descriptions@;
    let ghost units = details.units@;
    let ghost m = pass_model(reg0, rec0, descs, units, now);
    let snapshot = registry.enumerate();
    let mut batch: Vec<Observation> = Vec::new();
    let ghost mut prefix = Seq::<RegistryEntryView>::empty();
    let n = snapshot.len();
    proof {
        assert(reg0.skip(0) =~= reg0);
        assert(registry@ =~= prefix + reg0.skip(0));
        assert(batch@.map_values(|o: Observation| o@) =~= Seq::<ObservationView>::empty());
    }
    for i in 0..n
        invariant
            registry.wf(),
            recency.wf(),
            details.wf(),
            descs == details.descriptions@,
            units == details.units@,
            n == reg0.len() == snapshot@.len(),
            forall|j: int|
                0 <= j < n ==> {
                    &&& #[trigger] snapshot@[j].0 == reg0[j].kind
                    &&& snapshot@[j].1@ == reg0[j].key
                    &&& snapshot@[j].2 == reg0[j].generation
                },
            registry@ == prefix + reg0.skip(i as int),
            m == pass_model(reg0, rec0, descs, units, now),
            ({
                let pm = pass_model(reg0.skip(i as int), recency@, descs, units, now);
                &&& m.0 == batch@.map_values(|o: Observation| o@) + pm.0
                &&& m.1 == prefix + pm.1
                &&& m.2 == pm.2
            }),
    {
        let kind = snapshot[i].0;
        let gen = snapshot[i].2;
        let key = &snapshot[i].1;
        let ghost e = reg0[i as int];
        let ghost rec_before = recency@;
        let ghost pm = pass_model(reg0.skip(i as int), rec_before, descs, units, now);
        proof {
            assert(reg0.skip(i as int)[0] == e);
            assert(reg0.skip(i as int).skip(1) =~= reg0.skip(i + 1));
        }
        let fresh = recency.should_store(kind, key, gen, now);
        let ghost pm_next = pass_model(reg0.skip(i + 1), recency@, descs, units, now);
        if fresh {
            proof {
                assert((prefix + reg0.skip(i as int))[prefix.len() as int] == e);
                assert(entry_is(registry@[prefix.len() as int], kind, key@));
                lemma_entry_index_unique(registry@, kind, key@, prefix.len() as int);
            }
            let j = match registry.find(kind, key) {
                Some(j) => j,
                None => {
                    proof {
                        assert(has_entry(registry@, kind, key@));
                    }
                    unreached()
                },
            };
            let ghost regv = registry@;
            let entry = &mut registry.entries[j];
            let value = drain_handle(&mut entry.handle);
            proof {
                assert(registry@ =~= regv.update(j as int, drained_entry(e)));
                assert(registry@ =~= (prefix + seq![drained_entry(e)]) + reg0.skip(i + 1));
                assert forall|p: int, q: int| 0 <= p < q < registry@.len() implies !(
                registry@[p].kind == registry@[q].kind && registry@[p].key
                    == registry@[q].key) by {
                    assert(registry@[p].kind == regv[p].kind && registry@[p].key == regv[p].key);
                    assert(registry@[q].kind == regv[q].kind && registry@[q].key == regv[q].key);
                }
            }
            let description = details.descriptions.lookup(&key.name);
            let unit = details.units.lookup(&key.name);
            let obs = Observation { kind, key: key.clone(), description, unit, value };
            proof {
                assert(obs@ =~= observation_of(e, descs, units));
            }
            batch.push(obs);
            proof {
                prefix = prefix + seq![drained_entry(e)];
                assert(batch@.map_values(|o: Observation| o@) =~= batch@.subrange(
                    0,
                    batch@.len() - 1,
                ).map_values(|o: Observation| o@) + seq![observation_of(e, descs, units)]);
                assert(m.0 =~= batch@.map_values(|o: Observation| o@) + pm_next.0);
                assert(m.1 =~= prefix + pm_next.1);
            }
        } else {
            proof {
                assert((prefix + reg0.skip(i as int))[prefix.len() as int] == e);
                assert(entry_is(registry@[prefix.len() as int], kind, key@));
                lemma_entry_index_unique(registry@, kind, key@, prefix.len() as int);
            }
            let ghost regv = registry@;
            registry.remove(kind, key);
            proof {
                assert(registry@ == regv.remove(prefix.len() as int));
                assert(registry@ =~= prefix + reg0.skip(i + 1));
            }
        }
    }
    proof {
        assert(reg0.skip(n as int) =~= Seq::<RegistryEntryView>::empty());
        assert(registry@ =~= prefix);
        let pm_end = pass_model(reg0.skip(n as int), recency@, descs, units, now);
        assert(pm_end.0 =~= Seq::<ObservationView>::empty());
        assert(m.0 =~= batch@.map_values(|o: Observation| o@));
        assert(m.1 =~= prefix);
    }
    batch
}

} // verus!
