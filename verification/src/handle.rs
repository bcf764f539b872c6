//! The live value cell backing one metric instance: a monotonic counter, a
//! bidirectional gauge, or an append-only histogram sample buffer.

use vstd::prelude::*;
use crate::key::Kind;

verus! {

/// The mutable cell holding the live value of one metric instance.
///
/// Accumulator arithmetic wraps, matching the semantics of an atomic
/// fetch-and-add cell; histogram samples are held as raw 64-bit sample words
/// so that the buffer is a plain sequence of integers.
#[allow(inconsistent_fields)]
pub enum MetricHandle {
    Counter { value: u64 },
    Gauge { value: i64 },
    Histogram { samples: Vec<u64> },
}

/// The mathematical view of a handle.
#[verifier::ext_equal]
#[allow(inconsistent_fields)]
pub ghost enum MetricHandleView {
    Counter { value: u64 },
    Gauge { value: i64 },
    Histogram { samples: Seq<u64> },
}

impl View for MetricHandle {
    type V = MetricHandleView;

    open spec fn view(&self) -> MetricHandleView {
        match self {
            MetricHandle::Counter { value } => MetricHandleView::Counter { value: *value },
            MetricHandle::Gauge { value } => MetricHandleView::Gauge { value: *value },
            MetricHandle::Histogram { samples } => MetricHandleView::Histogram {
                samples: samples@,
            },
        }
    }
}

/// The three ways a gauge accumulator can change.
#[derive(Clone, Copy, PartialEq, Eq, Structural, Debug)]
pub enum GaugeUpdate {
    /// Add the amount to the current value.
    Increment(i64),
    /// Subtract the amount from the current value.
    Decrement(i64),
    /// Replace the current value outright.
    Absolute(i64),
}

/// One mutation of a handle, as passed through the registry's single update
/// entry point.
#[derive(Clone, Copy, PartialEq, Eq, Structural, Debug)]
pub enum HandleUpdate {
    /// No value change: ensure the handle exists and mark it as active.
    Touch,
    /// Add an amount to a counter accumulator.
    IncrementCounter(u64),
    /// Change a gauge accumulator.
    UpdateGauge(GaugeUpdate),
    /// Append one sample word to a histogram buffer.
    RecordHistogram(u64),
}

impl MetricHandleView {
    /// The handle a freshly created `(kind, key)` entry starts from: a zero
    /// accumulator or an empty sample buffer.
    pub open spec fn fresh(kind: Kind) -> MetricHandleView {
        match kind {
            Kind::Counter => MetricHandleView::Counter { value: 0 },
            Kind::Gauge => MetricHandleView::Gauge { value: 0 },
            Kind::Histogram => MetricHandleView::Histogram { samples: Seq::empty() },
        }
    }

    /// What one update does to a handle.
    ///
    /// An update aimed at a different kind than the handle holds is a silent
    /// no-op: the mismatched operation has no effect rather than corrupting
    /// state, and no error reaches the caller.
    pub open spec fn applied(self, u: HandleUpdate) -> MetricHandleView {
        match (self, u) {
            (MetricHandleView::Counter { value }, HandleUpdate::IncrementCounter(d)) => {
                MetricHandleView::Counter { value: vstd::wrapping::u64_specs::wrapping_add(value, d) }
            },
            (MetricHandleView::Gauge { value }, HandleUpdate::UpdateGauge(g)) => {
                MetricHandleView::Gauge {
                    value: match g {
                        GaugeUpdate::Increment(d) => vstd::wrapping::i64_specs::wrapping_add(
                            value,
                            d,
                        ),
                        GaugeUpdate::Decrement(d) => vstd::wrapping::i64_specs::wrapping_sub(
                            value,
                            d,
                        ),
                        GaugeUpdate::Absolute(v) => v,
                    },
                }
            },
            (MetricHandleView::Histogram { samples }, HandleUpdate::RecordHistogram(v)) => {
                MetricHandleView::Histogram { samples: samples.push(v) }
            },
            (h, _) => h,
        }
    }
}

impl MetricHandle {
    /// A freshly created handle for `kind`: a zero accumulator or an empty
    /// sample buffer.
    pub fn fresh(kind: Kind) -> (r: MetricHandle)
        ensures
            r@ == MetricHandleView::fresh(kind),
    {
        match kind {
            Kind::Counter => MetricHandle::Counter { value: 0 },
            Kind::Gauge => MetricHandle::Gauge { value: 0 },
            Kind::Histogram => MetricHandle::Histogram { samples: Vec::new() },
        }
    }

    /// Applies one update to this handle; a kind-mismatched update leaves the
    /// handle unchanged.
    pub fn apply(&mut self, u: HandleUpdate)
        ensures
            final(self)@ == old(self)@.applied(u),
    {
        match self {
            MetricHandle::Counter { value } => {
                if let HandleUpdate::IncrementCounter(d) = u {
                    *value = value.wrapping_add(d);
                }
            },
            MetricHandle::Gauge { value } => {
                if let HandleUpdate::UpdateGauge(g) = u {
                    *value = match g {
                        GaugeUpdate::Increment(d) => value.wrapping_add(d),
                        GaugeUpdate::Decrement(d) => value.wrapping_sub(d),
                        GaugeUpdate::Absolute(v) => v,
                    };
                }
            },
            MetricHandle::Histogram { samples } => {
                if let HandleUpdate::RecordHistogram(v) = u {
                    samples.push(v);
                }
            },
        }
    }

    /// Reads a counter accumulator non-destructively; reading a non-counter
    /// handle as a counter yields zero.
    pub fn read_counter(&self) -> (r: u64)
        ensures
            r == (match self@ {
                MetricHandleView::Counter { value } => value,
                _ => 0u64,
            }),
    {
        match self {
            MetricHandle::Counter { value } => *value,
            _ => 0,
        }
    }

    /// Reads a gauge accumulator non-destructively; reading a non-gauge
    /// handle as a gauge yields zero.
    pub fn read_gauge(&self) -> (r: i64)
        ensures
            r == (match self@ {
                MetricHandleView::Gauge { value } => value,
                _ => 0i64,
            }),
    {
        match self {
            MetricHandle::Gauge { value } => *value,
            _ => 0,
        }
    }

    /// Atomically exchanges a histogram's sample buffer for an empty one and
    /// returns the former contents, so each sample is handed out exactly
    /// once.  On a non-histogram handle it returns an empty buffer and
    /// changes nothing.
    pub fn take_histogram(&mut self) -> (r: Vec<u64>)
        ensures
            match old(self)@ {
                MetricHandleView::Histogram { samples } => {
                    &&& r@ == samples
                    &&& final(self)@ == (MetricHandleView::Histogram { samples: Seq::<u64>::empty() })
                },
                _ => {
                    &&& r@ == Seq::<u64>::empty()
                    &&& final(self)@ == old(self)@
                },
            },
    {
        match self {
            MetricHandle::Histogram { samples } => {
                let mut out: Vec<u64> = Vec::new();
                core::mem::swap(samples, &mut out);
                out
            },
            _ => Vec::new(),
        }
    }
}

} // verus!
