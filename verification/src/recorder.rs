//! The recorder: the operations application code calls to register and
//! update metrics, and the export entry points, over one registry, one
//! recency tracker and one details cache.

use vstd::prelude::*;
use crate::clock::{clock_now_nanos, new_clock};
use crate::details::{names_has, DetailsCache};
use crate::export::{export_pass, pass_model, Observation};
use crate::handle::{GaugeUpdate, HandleUpdate};
use crate::key::{Kind, KindMask, MetricKey};
use crate::recency::RecencyTracker;
use crate::registry::{op_applied, MetricRegistry};

verus! {

/// Whether `(batch, registry, tracker)` is exactly the outcome of one export
/// pass over the given starting state at time `now`.
pub open spec fn pass_outcome_at(
    reg0: Seq<crate::registry::RegistryEntryView>,
    rec0: crate::recency::RecencyTrackerView,
    descriptions: Seq<(Seq<char>, Seq<char>)>,
    units: Seq<(Seq<char>, Seq<char>)>,
    now: u64,
    batch: Seq<Observation>,
    reg1: Seq<crate::registry::RegistryEntryView>,
    rec1: crate::recency::RecencyTrackerView,
) -> bool {
    let m = pass_model(reg0, rec0, descriptions, units, now);
    batch.map_values(|o: Observation| o@) == m.0 && reg1 == m.1 && rec1 == m.2
}

/// The two timing knobs of the recorder: the idle timeout (in the clock's
/// nanosecond units) after which a silent metric is evicted, and the mask of
/// kinds the timeout applies to.
#[derive(Clone, Copy, PartialEq, Eq, Structural, Debug)]
pub struct RecorderConfig {
    pub idle_timeout: Option<u64>,
    pub mask: KindMask,
}

impl RecorderConfig {
    /// The default configuration: no idle timeout, so no metric is ever
    /// evicted, and every kind in the mask.
    pub fn new() -> (r: RecorderConfig)
        ensures
            r.idle_timeout is None,
            r.mask == KindMask::all(),
    {
        RecorderConfig { idle_timeout: None, mask: KindMask::all() }
    }

    /// Sets the idle timeout and the kinds it applies to.  With no timeout
    /// the mask is forced empty, since staleness tracking is then disabled
    /// outright.
    pub fn timeout(self, mask: KindMask, timeout: Option<u64>) -> (r: RecorderConfig)
        ensures
            r.idle_timeout == timeout,
            r.mask == if timeout is None {
                KindMask::none()
            } else {
                mask
            },
    {
        RecorderConfig {
            idle_timeout: timeout,
            mask: if timeout.is_none() {
                KindMask::none()
            } else {
                mask
            },
        }
    }
}

/// The public-facing recorder: a registry of live metric handles, the
/// recency tracker that filters exports, the first-write-wins metadata
/// cache, and the clock that timestamps export passes.
pub struct MeterRecorder {
    pub registry: MetricRegistry,
    pub recency: RecencyTracker,
    pub details: DetailsCache,
    pub clock: quanta::Clock,
}

impl MeterRecorder {
    /// The recorder's internal invariant.
    pub open spec fn wf(&self) -> bool {
        self.registry.wf() && self.recency.wf() && self.details.wf()
    }

    /// A recorder with the given configuration and no metrics yet.
    pub fn with_config(config: RecorderConfig) -> (r: MeterRecorder)
        ensures
            r.wf(),
            r.registry@.len() == 0,
            r.recency@.idle_timeout == config.idle_timeout,
            r.recency@.mask == config.mask,
            r.recency@.seen.len() == 0,
            r.details.descriptions@.len() == 0,
            r.details.units@.len() == 0,
    {
        MeterRecorder {
            registry: MetricRegistry::new(),
            recency: RecencyTracker::new(config.idle_timeout, config.mask),
            details: DetailsCache::new(),
            clock: new_clock(),
        }
    }

    /// A recorder with the given configuration, reading time off the given
    /// clock, and no metrics yet.
    pub fn with_clock(config: RecorderConfig, clock: quanta::Clock) -> (r: MeterRecorder)
        ensures
            r.wf(),
            r.registry@.len() == 0,
            r.recency@.idle_timeout == config.idle_timeout,
            r.recency@.mask == config.mask,
            r.recency@.seen.len() == 0,
            r.details.descriptions@.len() == 0,
            r.details.units@.len() == 0,
    {
        MeterRecorder {
            registry: MetricRegistry::new(),
            recency: RecencyTracker::new(config.idle_timeout, config.mask),
            details: DetailsCache::new(),
            clock,
        }
    }

    /// A recorder with the given idle timeout applied to every kind, and no
    /// metrics yet.
    pub fn new(idle_timeout: Option<u64>) -> (r: MeterRecorder)
        ensures
            r.wf(),
            r.registry@.len() == 0,
            r.recency@.idle_timeout == idle_timeout,
            r.recency@.mask == KindMask::all(),
            r.recency@.seen.len() == 0,
            r.details.descriptions@.len() == 0,
            r.details.units@.len() == 0,
    {
        MeterRecorder::with_config(RecorderConfig { idle_timeout, mask: KindMask::all() })
    }

    /// Idempotently ensures a handle exists for `(kind, key)` and records
    /// the offered description and unit for the key's name, first write
    /// wins.  Registering again changes nothing but the handle's activity
    /// generation.
    pub fn register(
        &mut self,
        kind: Kind,
        key: &MetricKey,
        unit: &Option<String>,
        description: &Option<String>,
    )
        requires
            old(self).wf(),
        ensures
            final(self).wf(),
            final(self).registry@ == op_applied(
                old(self).registry@,
                kind,
                key@,
                HandleUpdate::Touch,
            ),
            final(self).recency == old(self).recency,
            final(self).details.descriptions@ == (match description {
                Some(d) => if names_has(old(self).details.descriptions@, key@.name) {
                    old(self).details.descriptions@
                } else {
                    old(self).details.descriptions@.push((key@.name, d@))
                },
                None => old(self).details.descriptions@,
            }),
            final(self).details.units@ == (match unit {
                Some(u) => if names_has(old(self).details.units@, key@.name) {
                    old(self).details.units@
                } else {
                    old(self).details.units@.push((key@.name, u@))
                },
                None => old(self).details.units@,
            }),
    {
        self.details.add_details_if_missing(&key.name, description, unit);
        self.registry.op(kind, key, HandleUpdate::Touch);
    }

    /// Registers a counter under `key` (see [`Self::register`]).
    pub fn register_counter(
        &mut self,
        key: &MetricKey,
        unit: &Option<String>,
        description: &Option<String>,
    )
        requires
            old(self).wf(),
        ensures
            final(self).wf(),
            final(self).registry@ == op_applied(
                old(self).registry@,
                Kind::Counter,
                key@,
                HandleUpdate::Touch,
            ),
            final(self).recency == old(self).recency,
            final(self).details.descriptions@ == (match description {
                Some(d) => if names_has(old(self).details.descriptions@, key@.name) {
                    old(self).details.descriptions@
                } else {
                    old(self).details.descriptions@.push((key@.name, d@))
                },
                None => old(self).details.descriptions@,
            }),
            final(self).details.units@ == (match unit {
                Some(u) => if names_has(old(self).details.units@, key@.name) {
                    old(self).details.units@
                } else {
                    old(self).details.units@.push((key@.name, u@))
                },
                None => old(self).details.units@,
            }),
    {
        self.register(Kind::Counter, key, unit, description);
    }

    /// Registers a gauge under `key` (see [`Self::register`]).
    pub fn register_gauge(
        &mut self,
        key: &MetricKey,
        unit: &Option<String>,
        description: &Option<String>,
    )
        requires
            old(self).wf(),
        ensures
            final(self).wf(),
            final(self).registry@ == op_applied(
                old(self).registry@,
                Kind::Gauge,
                key@,
                HandleUpdate::Touch,
            ),
            final(self).recency == old(self).recency,
            final(self).details.descriptions@ == (match description {
                Some(d) => if names_has(old(self).details.descriptions@, key@.name) {
                    old(self).details.descriptions@
                } else {
                    old(self).details.descriptions@.push((key@.name, d@))
                },
                None => old(self).details.descriptions@,
            }),
            final(self).details.units@ == (match unit {
                Some(u) => if names_has(old(self).details.units@, key@.name) {
                    old(self).details.units@
                } else {
                    old(self).details.units@.push((key@.name, u@))
                },
                None => old(self).details.units@,
            }),
    {
        self.register(Kind::Gauge, key, unit, description);
    }

    /// Registers a histogram under `key` (see [`Self::register`]).
    pub fn register_histogram(
        &mut self,
        key: &MetricKey,
        unit: &Option<String>,
        description: &Option<String>,
    )
        requires
            old(self).wf(),
        ensures
            final(self).wf(),
            final(self).registry@ == op_applied(
                old(self).registry@,
                Kind::Histogram,
                key@,
                HandleUpdate::Touch,
            ),
            final(self).recency == old(self).recency,
            final(self).details.descriptions@ == (match description {
                Some(d) => if names_has(old(self).details.descriptions@, key@.name) {
                    old(self).details.descriptions@
                } else {
                    old(self).details.descriptions@.push((key@.name, d@))
                },
                None => old(self).details.descriptions@,
            }),
            final(self).details.units@ == (match unit {
                Some(u) => if names_has(old(self).details.units@, key@.name) {
                    old(self).details.units@
                } else {
                    old(self).details.units@.push((key@.name, u@))
                },
                None => old(self).details.units@,
            }),
    {
        self.register(Kind::Histogram, key, unit, description);
    }

    /// Adds `value` to the counter under `key`, creating it at zero first if
    /// it was never registered; the accumulator wraps on overflow.
    pub fn increment_counter(&mut self, key: &MetricKey, value: u64)
        requires
            old(self).wf(),
        ensures
            final(self).wf(),
            final(self).registry@ == op_applied(
                old(self).registry@,
                Kind::Counter,
                key@,
                HandleUpdate::IncrementCounter(value),
            ),
            final(self).recency == old(self).recency,
            final(self).details == old(self).details,
    {
        self.registry.op(Kind::Counter, key, HandleUpdate::IncrementCounter(value));
    }

    /// Applies one gauge change (increment, decrement or absolute set) to
    /// the gauge under `key`, creating it at zero first if it was never
    /// registered.
    pub fn update_gauge(&mut self, key: &MetricKey, update: GaugeUpdate)
        requires
            old(self).wf(),
        ensures
            final(self).wf(),
            final(self).registry@ == op_applied(
                old(self).registry@,
                Kind::Gauge,
                key@,
                HandleUpdate::UpdateGauge(update),
            ),
            final(self).recency == old(self).recency,
            final(self).details == old(self).details,
    {
        self.registry.op(Kind::Gauge, key, HandleUpdate::UpdateGauge(update));
    }

    /// Appends one sample word to the histogram under `key`, creating it
    /// empty first if it was never registered.
    pub fn record_histogram(&mut self, key: &MetricKey, value: u64)
        requires
            old(self).wf(),
        ensures
            final(self).wf(),
            final(self).registry@ == op_applied(
                old(self).registry@,
                Kind::Histogram,
                key@,
                HandleUpdate::RecordHistogram(value),
            ),
            final(self).recency == old(self).recency,
            final(self).details == old(self).details,
    {
        self.registry.op(Kind::Histogram, key, HandleUpdate::RecordHistogram(value));
    }

    /// One export pass taken as of time `now` (in the clock's nanosecond
    /// units): exactly [`pass_model`] over the recorder's state.
    pub fn export_pass_at(&mut self, now: u64) -> (batch: Vec<Observation>)
        requires
            old(self).wf(),
        ensures
            final(self).wf(),
            final(self).details == old(self).details,
            ({
                let m = pass_model(
                    old(self).registry@,
                    old(self).recency@,
                    old(self).details.descriptions@,
                    old(self).details.units@,
                    now,
                );
                &&& batch@.map_values(|o: Observation| o@) == m.0
                &&& final(self).registry@ == m.1
                &&& final(self).recency@ == m.2
            }),
    {
        export_pass(&mut self.registry, &mut self.recency, &self.details, now)
    }

    /// One export pass taken at the current clock reading: a single pass of
    /// [`pass_model`] at one instant, whose value depends on when the call
    /// happens.
    pub fn export_now(&mut self) -> (batch: Vec<Observation>)
        requires
            old(self).wf(),
        ensures
            final(self).wf(),
            final(self).details == old(self).details,
            exists|now: u64|
                #[trigger] pass_outcome_at(
                    old(self).registry@,
                    old(self).recency@,
                    old(self).details.descriptions@,
                    old(self).details.units@,
                    now,
                    batch@,
                    final(self).registry@,
                    final(self).recency@,
                ),
    {
        let now = clock_now_nanos(&self.clock);
        let batch = export_pass(&mut self.registry, &mut self.recency, &self.details, now);
        proof {
            assert(pass_outcome_at(
                old(self).registry@,
                old(self).recency@,
                old(self).details.descriptions@,
                old(self).details.units@,
                now,
                batch@,
                self.registry@,
                self.recency@,
            ));
        }
        batch
    }
}

} // verus!
