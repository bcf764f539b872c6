//! A verified metric registry and export-snapshot core.
//!
//! Application code records counters, gauges and histograms through the
//! [`MeterRecorder`] operations; an export pass periodically enumerates the
//! registry, filters out metrics that have gone idle, reads (and, for
//! histograms, drains) the accumulated values, and produces a batch of
//! observations for a telemetry backend to push.

mod clock;
mod details;
mod export;
mod handle;
mod key;
mod laws;
mod recency;
mod recorder;
mod registry;

pub use details::{names_has, names_index, names_lookup, unique_names, DetailsCache, NameTable};
pub use export::{
    drained_entry, drained_handle, export_pass, observation_of, observed_of, pass_model,
    Observation, ObservationView, ObservedValue, ObservedValueView,
};
pub use handle::{GaugeUpdate, HandleUpdate, MetricHandle, MetricHandleView};
pub use key::{Kind, KindMask, Label, LabelView, MetricKey, MetricKeyView};
pub use laws::{
    after_increments, checked_record, fresh_by_record, histograms_empty,
    lemma_check_changes_one_record, lemma_counter_increments_sum, lemma_counter_total_reported, lemma_details_first_write_wins,
    lemma_has_entry_skip, lemma_histogram_samples_never_repeat, lemma_obs_count_prepend,
    lemma_pass_drains_every_histogram, lemma_pass_on_drained_reports_no_samples,
    lemma_pass_per_entry, lemma_pass_preserves_foreign_record, lemma_pass_structure,
    lemma_racing_increments_share_one_slot, lemma_stale_metric_evicted, lemma_sum_of_nonneg,
    lemma_unique_skip, lemma_untracked_pass_reports_all, lemma_verdict_by_record, obs_count,
    sum_of,
};
pub use recency::{
    elapsed, seen_has, seen_index, seen_is, seen_record, unique_seen, RecencyTracker,
    RecencyTrackerView, SeenEntry, SeenEntryView,
};
pub use recorder::{pass_outcome_at, MeterRecorder, RecorderConfig};
pub use registry::{
    entry_created, entry_index, entry_is, entry_updated, has_entry, op_applied, unique_entries,
    MetricRegistry, RegistryEntry, RegistryEntryView,
};
