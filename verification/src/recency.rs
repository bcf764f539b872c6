//! Per-metric recency bookkeeping: decides at export time whether a metric
//! is still live, and whether a silent one has been idle long enough to be
//! evicted from the registry.

use vstd::prelude::*;
use crate::key::{Kind, KindMask, MetricKey, MetricKeyView};

verus! {

/// The tracker's record of one metric: the generation observed at the last
/// export check, and the time at which new activity was last seen.
pub struct SeenEntry {
    pub kind: Kind,
    pub key: MetricKey,
    pub generation: u64,
    pub touched: u64,
}

/// The mathematical view of one tracker record.
#[verifier::ext_equal]
pub ghost struct SeenEntryView {
    pub kind: Kind,
    pub key: MetricKeyView,
    pub generation: u64,
    pub touched: u64,
}

impl View for SeenEntry {
    type V = SeenEntryView;

    open spec fn view(&self) -> SeenEntryView {
        SeenEntryView {
            kind: self.kind,
            key: self.key@,
            generation: self.generation,
            touched: self.touched,
        }
    }
}

/// Whether record `e` is the record of metric `(kind, key)`.
pub open spec fn seen_is(e: SeenEntryView, kind: Kind, key: MetricKeyView) -> bool {
    e.kind == kind && e.key == key
}

/// Whether the records `s` hold one for `(kind, key)`.
pub open spec fn seen_has(s: Seq<SeenEntryView>, kind: Kind, key: MetricKeyView) -> bool {
    exists|i: int| 0 <= i < s.len() && seen_is(s[i], kind, key)
}

/// The position of the record for `(kind, key)` in `s`; meaningful only when
/// `seen_has` holds and positions are unique.
pub open spec fn seen_index(s: Seq<SeenEntryView>, kind: Kind, key: MetricKeyView) -> int {
    choose|i: int| 0 <= i < s.len() && seen_is(s[i], kind, key)
}

/// The record for `(kind, key)` in `s`, if any; meaningful only when
/// positions are unique.
pub open spec fn seen_record(s: Seq<SeenEntryView>, kind: Kind, key: MetricKeyView) -> Option<
    SeenEntryView,
> {
    if seen_has(s, kind, key) {
        Some(s[seen_index(s, kind, key)])
    } else {
        None
    }
}

/// At most one record per `(kind, key)`.
pub open spec fn unique_seen(s: Seq<SeenEntryView>) -> bool {
    forall|i: int, j: int|
        0 <= i < j < s.len() ==> !(s[i].kind == s[j].kind && s[i].key == s[j].key)
}

/// In a duplicate-free record list any two positions holding `(kind, key)`
/// coincide, so `seen_index` names the one matching position.
pub proof fn lemma_seen_index_unique(s: Seq<SeenEntryView>, kind: Kind, key: MetricKeyView, j: int)
    requires
        unique_seen(s),
        0 <= j < s.len(),
        seen_is(s[j], kind, key),
    ensures
        seen_has(s, kind, key),
        seen_index(s, kind, key) == j,
{
    assert(seen_has(s, kind, key));
    let i = seen_index(s, kind, key);
    if i < j {
        assert(!(s[i].kind == s[j].kind && s[i].key == s[j].key));
    } else if j < i {
        assert(!(s[j].kind == s[i].kind && s[j].key == s[i].key));
    }
}

/// Wall-clock time elapsed since `touched`, treating a clock that appears to
/// have gone backwards as no elapsed time.
pub open spec fn elapsed(touched: u64, now: u64) -> int {
    if now >= touched {
        now - touched
    } else {
        0
    }
}

/// The mathematical view of the tracker.
#[verifier::ext_equal]
pub ghost struct RecencyTrackerView {
    pub idle_timeout: Option<u64>,
    pub mask: KindMask,
    pub seen: Seq<SeenEntryView>,
}

impl RecencyTrackerView {
    /// Whether staleness tracking applies to `kind` at all.
    pub open spec fn tracking_applies(self, kind: Kind) -> bool {
        self.idle_timeout is Some && self.mask.spec_tracks(kind)
    }

    /// The check's verdict for metric `(kind, key)` showing generation `gen`
    /// at time `now`: `true` means report it, `false` means it is stale.
    ///
    /// A metric is stale exactly when tracking applies to its kind, the
    /// tracker has a record of it, the generation has not moved since that
    /// record, and more than the idle timeout has elapsed since the record's
    /// timestamp.
    pub open spec fn judges_fresh(self, kind: Kind, key: MetricKeyView, gen: u64, now: u64) -> bool {
        if self.tracking_applies(kind) && seen_has(self.seen, kind, key) {
            let e = self.seen[seen_index(self.seen, kind, key)];
            e.generation == gen ==> elapsed(e.touched, now) <= self.idle_timeout->0
        } else {
            true
        }
    }

    /// The records after one check of `(kind, key, gen)` at time `now`:
    /// untracked kinds leave them untouched; a first sighting is recorded at
    /// `now`; new activity refreshes the record; a stale metric's record is
    /// dropped, so a revived metric starts a fresh lifecycle.
    pub open spec fn seen_after(self, kind: Kind, key: MetricKeyView, gen: u64, now: u64) -> Seq<
        SeenEntryView,
    > {
        if !self.tracking_applies(kind) {
            self.seen
        } else if seen_has(self.seen, kind, key) {
            let i = seen_index(self.seen, kind, key);
            let e = self.seen[i];
            if e.generation != gen {
                self.seen.update(
                    i,
                    SeenEntryView { generation: gen, touched: now, ..e },
                )
            } else if elapsed(e.touched, now) > self.idle_timeout->0 {
                self.seen.remove(i)
            } else {
                self.seen
            }
        } else {
            self.seen.push(SeenEntryView { kind: kind, key: key, generation: gen, touched: now })
        }
    }

    /// The whole tracker after one check.
    pub open spec fn after_check(self, kind: Kind, key: MetricKeyView, gen: u64, now: u64) -> RecencyTrackerView {
        RecencyTrackerView { seen: self.seen_after(kind, key, gen, now), ..self }
    }
}

/// Decides, per `(kind, key)` at export time, whether the metric is fresh
/// enough to report, and keeps the bookkeeping that the decision rests on.
///
/// With no idle timeout configured, or for kinds outside the mask, every
/// metric is always judged fresh and the tracker keeps no records for it.
pub struct RecencyTracker {
    pub idle_timeout: Option<u64>,
    pub mask: KindMask,
    pub seen: Vec<SeenEntry>,
}

impl View for RecencyTracker {
    type V = RecencyTrackerView;

    open spec fn view(&self) -> RecencyTrackerView {
        RecencyTrackerView {
            idle_timeout: self.idle_timeout,
            mask: self.mask,
            seen: self.seen@.map_values(|e: SeenEntry| e@),
        }
    }
}

impl RecencyTracker {
    /// The tracker's internal invariant.
    pub open spec fn wf(&self) -> bool {
        unique_seen(self@.seen)
    }

    /// A tracker with the given idle timeout (in the clock's nanosecond
    /// units) and kind mask, with no metrics seen yet.
    pub fn new(idle_timeout: Option<u64>, mask: KindMask) -> (r: RecencyTracker)
        ensures
            r.wf(),
            r@.idle_timeout == idle_timeout,
            r@.mask == mask,
            r@.seen == Seq::<SeenEntryView>::empty(),
    {
        let r = RecencyTracker { idle_timeout, mask, seen: Vec::new() };
        proof {
            assert(r@.seen =~= Seq::<SeenEntryView>::empty());
        }
        r
    }

    /// Finds the position of the record for `(kind, key)`, if one exists.
    fn find(&self, kind: Kind, key: &MetricKey) -> (r: Option<usize>)
        requires
            self.wf(),
        ensures
            match r {
                Some(i) => {
                    &&& i < self@.seen.len()
                    &&& seen_is(self@.seen[i as int], kind, key@)
                    &&& seen_has(self@.seen, kind, key@)
                    &&& seen_index(self@.seen, kind, key@) == i
                },
                None => !seen_has(self@.seen, kind, key@),
            },
    {
        let n = self.seen.len();
        for i in 0..n
            invariant
                self.wf(),
                n == self@.seen.len(),
                forall|j: int| 0 <= j < i ==> !seen_is(self@.seen[j], kind, key@),
        {
            let e = &self.seen[i];
            if e.kind == kind && e.key.key_eq(key) {
                proof {
                    lemma_seen_index_unique(self@.seen, kind, key@, i as int);
                }
                return Some(i);
            }
        }
        None
    }

    /// One export-time check of metric `(kind, key)` showing generation
    /// `generation` at time `now`.  Returns the freshness verdict and
    /// updates the bookkeeping; on a stale verdict the caller is expected to
    /// evict the metric from the registry.
    pub fn should_store(&mut self, kind: Kind, key: &MetricKey, generation: u64, now: u64) -> (r:
        bool)
        requires
            old(self).wf(),
        ensures
            final(self).wf(),
            r == old(self)@.judges_fresh(kind, key@, generation, now),
            final(self)@ == old(self)@.after_check(kind, key@, generation, now),
    {
        let applies = match self.idle_timeout {
            Some(_) => self.mask.tracks(kind),
            None => false,
        };
        if !applies {
            proof {
                assert(self@ =~= old(self)@.after_check(kind, key@, generation, now));
            }
            return true;
        }
        let timeout = match self.idle_timeout {
            Some(d) => d,
            None => 0,
        };
        let ghost s0 = self@.seen;
        match self.find(kind, key) {
            Some(i) => {
                let e = &mut self.seen[i];
                if e.generation != generation {
                    e.generation = generation;
                    e.touched = now;
                    proof {
                        assert(self@.seen =~= s0.update(
                            i as int,
                            SeenEntryView { generation: generation, touched: now, ..s0[i as int] },
                        ));
                        assert(self@ =~= old(self)@.after_check(kind, key@, generation, now));
                        assert forall|p: int, q: int| 0 <= p < q < self@.seen.len() implies !(
                        self@.seen[p].kind == self@.seen[q].kind && self@.seen[p].key
                            == self@.seen[q].key) by {
                            assert(self@.seen[p].kind == s0[p].kind && self@.seen[p].key
                                == s0[p].key);
                            assert(self@.seen[q].kind == s0[q].kind && self@.seen[q].key
                                == s0[q].key);
                        }
                    }
                    true
                } else if now > e.touched && now - e.touched > timeout {
                    let ghost removed = i as int;
                    self.seen.remove(i);
                    proof {
                        assert(self@.seen =~= s0.remove(removed));
                        assert(self@ =~= old(self)@.after_check(kind, key@, generation, now));
                        assert forall|p: int, q: int| 0 <= p < q < self@.seen.len() implies !(
                        self@.seen[p].kind == self@.seen[q].kind && self@.seen[p].key
                            == self@.seen[q].key) by {
                            let p0 = if p < removed {
                                p
                            } else {
                                p + 1
                            };
                            let q0 = if q < removed {
                                q
                            } else {
                                q + 1
                            };
                            assert(self@.seen[p] == s0[p0] && self@.seen[q] == s0[q0]);
                        }
                    }
                    false
                } else {
                    proof {
                        assert(self@ =~= old(self)@.after_check(kind, key@, generation, now));
                    }
                    true
                }
            },
            None => {
                self.seen.push(
                    SeenEntry { kind, key: key.clone(), generation, touched: now },
                );
                proof {
                    assert(self@.seen =~= s0.push(
                        SeenEntryView {
                            kind: kind,
                            key: key@,
                            generation: generation,
                            touched: now,
                        },
                    ));
                    assert(self@ =~= old(self)@.after_check(kind, key@, generation, now));
                    assert forall|p: int, q: int| 0 <= p < q < self@.seen.len() implies !(
                    self@.seen[p].kind == self@.seen[q].kind && self@.seen[p].key
                        == self@.seen[q].key) by {
                        if q == s0.len() {
                            assert(!seen_is(s0[p], kind, key@));
                        }
                    }
                }
                true
            },
        }
    }
}

} // verus!
