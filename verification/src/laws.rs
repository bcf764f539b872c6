//! The library's laws: properties relating several operations, stated over
//! the same spec functions the operations' own contracts use, and proved
//! once and for all.

use vstd::prelude::*;
use crate::details::{names_has, names_lookup, unique_names, lemma_names_index_unique};
use crate::export::{
    drained_entry, observation_of, pass_model, ObservationView,
};
use crate::handle::{HandleUpdate, MetricHandleView};
use crate::key::{Kind, MetricKeyView};
use crate::recency::{
    seen_has, seen_index, seen_is, seen_record, unique_seen, lemma_seen_index_unique,
    RecencyTrackerView, SeenEntryView,
};
use crate::registry::{
    entry_created, entry_index, entry_is, entry_updated, has_entry, lemma_entry_index_unique,
    op_applied, unique_entries, RegistryEntryView,
};

verus! {

/// The arithmetic total of a sequence of counter increments.
pub open spec fn sum_of(deltas: Seq<u64>) -> int
    decreases deltas.len(),
{
    if deltas.len() == 0 {
        0
    } else {
        sum_of(deltas.drop_last()) + deltas.last()
    }
}

/// A total of unsigned increments is never negative.
pub proof fn lemma_sum_of_nonneg(deltas: Seq<u64>)
    ensures
        sum_of(deltas) >= 0,
    decreases deltas.len(),
{
    if deltas.len() > 0 {
        lemma_sum_of_nonneg(deltas.drop_last());
    }
}

/// The registry listing after one counter increment per element of
/// `deltas`, in order, all on the same `key`.
pub open spec fn after_increments(
    s: Seq<RegistryEntryView>,
    key: MetricKeyView,
    deltas: Seq<u64>,
) -> Seq<RegistryEntryView>
    decreases deltas.len(),
{
    if deltas.len() == 0 {
        s
    } else {
        op_applied(
            after_increments(s, key, deltas.drop_last()),
            Kind::Counter,
            key,
            HandleUpdate::IncrementCounter(deltas.last()),
        )
    }
}

/// Any sequence of counter increments on one never-seen key, summing to a
/// total that fits in the accumulator, leaves the registry with exactly one
/// new slot for that key whose counter holds exactly the total; no other
/// slot is touched.
pub proof fn lemma_counter_increments_sum(
    s: Seq<RegistryEntryView>,
    key: MetricKeyView,
    deltas: Seq<u64>,
)
    requires
        unique_entries(s),
        !has_entry(s, Kind::Counter, key),
        1 <= deltas.len() <= u64::MAX,
        sum_of(deltas) <= u64::MAX,
    ensures
        after_increments(s, key, deltas) == s.push(
            RegistryEntryView {
                kind: Kind::Counter,
                key: key,
                generation: deltas.len() as u64,
                handle: MetricHandleView::Counter { value: sum_of(deltas) as u64 },
            },
        ),
    decreases deltas.len(),
{
    let full = after_increments(s, key, deltas);
    if deltas.len() == 1 {
        assert(deltas.drop_last().len() == 0);
        assert(after_increments(s, key, deltas.drop_last()) == s);
        assert(sum_of(deltas.drop_last()) == 0);
        assert(sum_of(deltas) == deltas.last());
        assert(full == op_applied(
            s,
            Kind::Counter,
            key,
            HandleUpdate::IncrementCounter(deltas.last()),
        ));
        assert(full =~= s.push(
            entry_created(Kind::Counter, key, HandleUpdate::IncrementCounter(deltas.last())),
        ));
        assert(entry_created(Kind::Counter, key, HandleUpdate::IncrementCounter(deltas.last()))
            =~= (RegistryEntryView {
            kind: Kind::Counter,
            key: key,
            generation: 1,
            handle: MetricHandleView::Counter { value: sum_of(deltas) as u64 },
        }));
    } else {
        let dl = deltas.drop_last();
        let last = deltas.last();
        lemma_sum_of_nonneg(dl);
        assert(sum_of(deltas) == sum_of(dl) + last);
        assert(0 <= sum_of(dl) <= u64::MAX);
        lemma_counter_increments_sum(s, key, dl);
        let prev = after_increments(s, key, dl);
        let created = RegistryEntryView {
            kind: Kind::Counter,
            key: key,
            generation: dl.len() as u64,
            handle: MetricHandleView::Counter { value: sum_of(dl) as u64 },
        };
        assert(prev == s.push(created));
        let i = s.len() as int;
        assert(prev[i] == created);
        assert forall|p: int, q: int| 0 <= p < q < prev.len() implies !(prev[p].kind
            == prev[q].kind && prev[p].key == prev[q].key) by {
            if q == i {
                assert(prev[p] == s[p]);
                assert(!entry_is(s[p], Kind::Counter, key));
            } else {
                assert(prev[p] == s[p] && prev[q] == s[q]);
            }
        }
        lemma_entry_index_unique(prev, Kind::Counter, key, i);
        assert(full == prev.update(i, entry_updated(created, HandleUpdate::IncrementCounter(last))));
        assert(vstd::wrapping::u64_specs::wrapping_add(sum_of(dl) as u64, last) == sum_of(deltas) as u64);
        assert(vstd::wrapping::u64_specs::wrapping_add(dl.len() as u64, 1) == deltas.len() as u64);
        assert(entry_updated(created, HandleUpdate::IncrementCounter(last))
            =~= (RegistryEntryView {
            kind: Kind::Counter,
            key: key,
            generation: deltas.len() as u64,
            handle: MetricHandleView::Counter { value: sum_of(deltas) as u64 },
        }));
        assert(full =~= s.push(
            RegistryEntryView {
                kind: Kind::Counter,
                key: key,
                generation: deltas.len() as u64,
                handle: MetricHandleView::Counter { value: sum_of(deltas) as u64 },
            },
        ));
    }
}

/// Sequential form of the get-or-create race: two updates racing on one
/// never-seen counter key land on a single slot — the registry grows by
/// exactly one — and the slot accumulates the arithmetic sum of both
/// increments.
pub proof fn lemma_racing_increments_share_one_slot(
    s: Seq<RegistryEntryView>,
    key: MetricKeyView,
    d1: u64,
    d2: u64,
)
    requires
        unique_entries(s),
        !has_entry(s, Kind::Counter, key),
        d1 + d2 <= u64::MAX,
    ensures
        ({
            let s1 = op_applied(s, Kind::Counter, key, HandleUpdate::IncrementCounter(d1));
            let s2 = op_applied(s1, Kind::Counter, key, HandleUpdate::IncrementCounter(d2));
            &&& s2.len() == s.len() + 1
            &&& has_entry(s2, Kind::Counter, key)
            &&& s2[entry_index(s2, Kind::Counter, key)].handle == (MetricHandleView::Counter {
                value: (d1 + d2) as u64,
            })
        }),
{
    let deltas = seq![d1, d2];
    let one = seq![d1];
    assert(deltas.len() == 2 && deltas[0] == d1 && deltas[1] == d2);
    assert(deltas.last() == d2 && one.last() == d1);
    assert(deltas.drop_last() =~= one);
    assert(one.drop_last() =~= Seq::<u64>::empty());
    assert(sum_of(Seq::<u64>::empty()) == 0);
    assert(sum_of(one) == sum_of(one.drop_last()) + d1 == d1);
    assert(sum_of(deltas) == sum_of(one) + d2 == d1 + d2);
    lemma_counter_increments_sum(s, key, deltas);
    let s1 = op_applied(s, Kind::Counter, key, HandleUpdate::IncrementCounter(d1));
    let s2 = op_applied(s1, Kind::Counter, key, HandleUpdate::IncrementCounter(d2));
    assert(after_increments(s, key, Seq::<u64>::empty()) == s);
    assert(after_increments(s, key, one) == op_applied(
        after_increments(s, key, one.drop_last()),
        Kind::Counter,
        key,
        HandleUpdate::IncrementCounter(d1),
    ));
    assert(after_increments(s, key, one) == s1);
    assert(after_increments(s, key, deltas) == op_applied(
        after_increments(s, key, deltas.drop_last()),
        Kind::Counter,
        key,
        HandleUpdate::IncrementCounter(d2),
    ));
    assert(after_increments(s, key, deltas) == s2);
    let e = RegistryEntryView {
        kind: Kind::Counter,
        key: key,
        generation: 2,
        handle: MetricHandleView::Counter { value: (d1 + d2) as u64 },
    };
    assert(s2 == s.push(e));
    assert(entry_is(s2[s.len() as int], Kind::Counter, key));
    assert forall|p: int, q: int| 0 <= p < q < s2.len() implies !(s2[p].kind == s2[q].kind
        && s2[p].key == s2[q].key) by {
        if q == s.len() as int {
            assert(s2[p] == s[p]);
            assert(!entry_is(s[p], Kind::Counter, key));
        } else {
            assert(s2[p] == s[p] && s2[q] == s[q]);
        }
    }
    lemma_entry_index_unique(s2, Kind::Counter, key, s.len() as int);
}

/// Registering a name's metadata twice keeps the first-registered value:
/// after a first write and then a second write with a different value, the
/// table is what the first write alone made it, and the name resolves to the
/// first value.
pub proof fn lemma_details_first_write_wins(
    t: Seq<(Seq<char>, Seq<char>)>,
    name: Seq<char>,
    first: Seq<char>,
    second: Seq<char>,
)
    requires
        unique_names(t),
        !names_has(t, name),
    ensures
        ({
            let t1 = t.push((name, first));
            let t2 = if names_has(t1, name) {
                t1
            } else {
                t1.push((name, second))
            };
            &&& t2 == t1
            &&& names_lookup(t2, name) == Some(first)
        }),
{
    let t1 = t.push((name, first));
    assert(t1[t.len() as int].0 == name);
    assert forall|p: int, q: int| 0 <= p < q < t1.len() implies t1[p].0 != t1[q].0 by {
        if q == t.len() as int {
            assert(t1[p] == t[p]);
            assert(!(exists|i: int| 0 <= i < t.len() && t[i].0 == name));
        } else {
            assert(t1[p] == t[p] && t1[q] == t[q]);
        }
    }
    lemma_names_index_unique(t1, name, t.len() as int);
}

/// With no idle timeout configured, an export pass reports every metric,
/// in registry order, with exactly the value its handle holds; the registry
/// keeps every slot (histograms drained), and the tracker keeps no records.
pub proof fn lemma_untracked_pass_reports_all(
    entries: Seq<RegistryEntryView>,
    rec: RecencyTrackerView,
    descriptions: Seq<(Seq<char>, Seq<char>)>,
    units: Seq<(Seq<char>, Seq<char>)>,
    now: u64,
)
    requires
        rec.idle_timeout is None,
    ensures
        ({
            let m = pass_model(entries, rec, descriptions, units, now);
            &&& m.0 == entries.map_values(
                |e: RegistryEntryView| observation_of(e, descriptions, units),
            )
            &&& m.1 == entries.map_values(|e: RegistryEntryView| drained_entry(e))
            &&& m.2 == rec
        }),
    decreases entries.len(),
{
    let m = pass_model(entries, rec, descriptions, units, now);
    let obs_fn = |e: RegistryEntryView| observation_of(e, descriptions, units);
    let drain_fn = |e: RegistryEntryView| drained_entry(e);
    if entries.len() == 0 {
        assert(m.0 =~= entries.map_values(obs_fn));
        assert(m.1 =~= entries.map_values(drain_fn));
    } else {
        let e = entries[0];
        assert(!rec.tracking_applies(e.kind));
        assert(rec.judges_fresh(e.kind, e.key, e.generation, now));
        assert(rec.after_check(e.kind, e.key, e.generation, now) =~= rec);
        lemma_untracked_pass_reports_all(entries.skip(1), rec, descriptions, units, now);
        let r = pass_model(entries.skip(1), rec, descriptions, units, now);
        assert(m.0 == seq![observation_of(e, descriptions, units)] + r.0);
        assert(m.0 =~= entries.map_values(obs_fn));
        assert(m.1 =~= entries.map_values(drain_fn));
    }
}

/// Whether every histogram slot in a listing holds an empty buffer.
pub open spec fn histograms_empty(s: Seq<RegistryEntryView>) -> bool {
    forall|j: int|
        0 <= j < s.len() ==> (#[trigger] s[j].handle matches MetricHandleView::Histogram {
            samples,
        } ==> samples.len() == 0)
}

/// Half of exactly-once delivery: an export pass leaves every histogram
/// slot that stays in the registry with an empty buffer, so a sample read
/// by one pass can never be read by a later one.
pub proof fn lemma_pass_drains_every_histogram(
    entries: Seq<RegistryEntryView>,
    rec: RecencyTrackerView,
    descriptions: Seq<(Seq<char>, Seq<char>)>,
    units: Seq<(Seq<char>, Seq<char>)>,
    now: u64,
)
    ensures
        histograms_empty(pass_model(entries, rec, descriptions, units, now).1),
    decreases entries.len(),
{
    let m = pass_model(entries, rec, descriptions, units, now);
    if entries.len() == 0 {
    } else {
        let e = entries[0];
        let rec1 = rec.after_check(e.kind, e.key, e.generation, now);
        lemma_pass_drains_every_histogram(entries.skip(1), rec1, descriptions, units, now);
        let r = pass_model(entries.skip(1), rec1, descriptions, units, now);
        if rec.judges_fresh(e.kind, e.key, e.generation, now) {
            assert forall|j: int| 0 <= j < m.1.len() implies (#[trigger] m.1[j].handle
                matches MetricHandleView::Histogram { samples } ==> samples.len() == 0) by {
                if j > 0 {
                    assert(m.1[j] == r.1[j - 1]);
                }
            }
        }
    }
}

/// The other half of exactly-once delivery: if every histogram slot is
/// already empty when a pass begins, no histogram observation in that
/// pass's batch carries any sample.
pub proof fn lemma_pass_on_drained_reports_no_samples(
    entries: Seq<RegistryEntryView>,
    rec: RecencyTrackerView,
    descriptions: Seq<(Seq<char>, Seq<char>)>,
    units: Seq<(Seq<char>, Seq<char>)>,
    now: u64,
)
    requires
        histograms_empty(entries),
    ensures
        ({
            let m = pass_model(entries, rec, descriptions, units, now);
            forall|j: int|
                0 <= j < m.0.len() ==> (#[trigger] m.0[j].value
                    matches crate::export::ObservedValueView::Histogram { 0: samples }
                    ==> samples.len() == 0)
        }),
    decreases entries.len(),
{
    let m = pass_model(entries, rec, descriptions, units, now);
    if entries.len() == 0 {
    } else {
        let e = entries[0];
        let rec1 = rec.after_check(e.kind, e.key, e.generation, now);
        assert(histograms_empty(entries.skip(1))) by {
            assert forall|j: int| 0 <= j < entries.skip(1).len() implies (
            #[trigger] entries.skip(1)[j].handle matches MetricHandleView::Histogram { samples }
                ==> samples.len() == 0) by {
                assert(entries.skip(1)[j] == entries[j + 1]);
            }
        }
        lemma_pass_on_drained_reports_no_samples(entries.skip(1), rec1, descriptions, units, now);
        let r = pass_model(entries.skip(1), rec1, descriptions, units, now);
        if rec.judges_fresh(e.kind, e.key, e.generation, now) {
            assert forall|j: int| 0 <= j < m.0.len() implies (#[trigger] m.0[j].value
                matches crate::export::ObservedValueView::Histogram { 0: samples }
                ==> samples.len() == 0) by {
                if j == 0 {
                    assert(entries[0].handle matches MetricHandleView::Histogram { samples }
                        ==> samples.len() == 0);
                } else {
                    assert(m.0[j] == r.0[j - 1]);
                }
            }
        }
    }
}

/// The record a check leaves for the checked key itself, as a function of
/// the record it found: untracked kinds change nothing; a first sighting is
/// recorded at `now`; new activity refreshes the record; a stale record is
/// dropped.
pub open spec fn checked_record(
    idle_timeout: Option<u64>,
    mask: crate::key::KindMask,
    r: Option<SeenEntryView>,
    kind: Kind,
    key: MetricKeyView,
    gen: u64,
    now: u64,
) -> Option<SeenEntryView> {
    if !(idle_timeout is Some && mask.spec_tracks(kind)) {
        r
    } else {
        match r {
            Some(e) => if e.generation != gen {
                Some(SeenEntryView { generation: gen, touched: now, ..e })
            } else if crate::recency::elapsed(e.touched, now) > idle_timeout->0 {
                None
            } else {
                Some(e)
            },
            None => Some(SeenEntryView { kind: kind, key: key, generation: gen, touched: now }),
        }
    }
}

/// The freshness verdict as a function of the checked key's record alone.
pub open spec fn fresh_by_record(
    idle_timeout: Option<u64>,
    mask: crate::key::KindMask,
    r: Option<SeenEntryView>,
    gen: u64,
    now: u64,
    kind: Kind,
) -> bool {
    if idle_timeout is Some && mask.spec_tracks(kind) {
        match r {
            Some(e) => e.generation == gen ==> crate::recency::elapsed(e.touched, now)
                <= idle_timeout->0,
            None => true,
        }
    } else {
        true
    }
}

/// The tracker's verdict is a function of the checked key's own record and
/// the configuration, nothing else.
pub proof fn lemma_verdict_by_record(
    rec: RecencyTrackerView,
    kind: Kind,
    key: MetricKeyView,
    gen: u64,
    now: u64,
)
    requires
        unique_seen(rec.seen),
    ensures
        rec.judges_fresh(kind, key, gen, now) == fresh_by_record(
            rec.idle_timeout,
            rec.mask,
            seen_record(rec.seen, kind, key),
            gen,
            now,
            kind,
        ),
{
}

/// One check changes exactly the checked key's record, by
/// [`checked_record`], and no other key's; and it keeps the records unique.
pub proof fn lemma_check_changes_one_record(
    rec: RecencyTrackerView,
    kind2: Kind,
    key2: MetricKeyView,
    gen2: u64,
    now: u64,
    kind: Kind,
    key: MetricKeyView,
)
    requires
        unique_seen(rec.seen),
    ensures
        unique_seen(rec.seen_after(kind2, key2, gen2, now)),
        seen_record(rec.seen_after(kind2, key2, gen2, now), kind, key) == if kind == kind2 && key
            == key2 {
            checked_record(
                rec.idle_timeout,
                rec.mask,
                seen_record(rec.seen, kind2, key2),
                kind2,
                key2,
                gen2,
                now,
            )
        } else {
            seen_record(rec.seen, kind, key)
        },
{
    let s = rec.seen;
    let s2 = rec.seen_after(kind2, key2, gen2, now);
    if !rec.tracking_applies(kind2) {
    } else if seen_has(s, kind2, key2) {
        let i2 = seen_index(s, kind2, key2);
        let e2 = s[i2];
        assert(seen_is(e2, kind2, key2));
        if e2.generation != gen2 {
            let e2new = SeenEntryView { generation: gen2, touched: now, ..e2 };
            assert(s2 == s.update(i2, e2new));
            assert forall|p: int, q: int| 0 <= p < q < s2.len() implies !(s2[p].kind == s2[q].kind
                && s2[p].key == s2[q].key) by {
                assert(s2[p].kind == s[p].kind && s2[p].key == s[p].key);
                assert(s2[q].kind == s[q].kind && s2[q].key == s[q].key);
            }
            if kind == kind2 && key == key2 {
                lemma_seen_index_unique(s2, kind, key, i2);
            } else {
                if seen_has(s, kind, key) {
                    let i = seen_index(s, kind, key);
                    assert(i != i2);
                    assert(s2[i] == s[i]);
                    lemma_seen_index_unique(s2, kind, key, i);
                } else {
                    assert forall|j: int| 0 <= j < s2.len() implies !seen_is(s2[j], kind, key) by {
                        if j != i2 {
                            assert(s2[j] == s[j]);
                        }
                    }
                }
            }
        } else if crate::recency::elapsed(e2.touched, now) > rec.idle_timeout->0 {
            assert(s2 == s.remove(i2));
            assert forall|p: int, q: int| 0 <= p < q < s2.len() implies !(s2[p].kind == s2[q].kind
                && s2[p].key == s2[q].key) by {
                let p0 = if p < i2 {
                    p
                } else {
                    p + 1
                };
                let q0 = if q < i2 {
                    q
                } else {
                    q + 1
                };
                assert(s2[p] == s[p0] && s2[q] == s[q0]);
            }
            if kind == kind2 && key == key2 {
                assert forall|j: int| 0 <= j < s2.len() implies !seen_is(s2[j], kind, key) by {
                    let j0 = if j < i2 {
                        j
                    } else {
                        j + 1
                    };
                    assert(s2[j] == s[j0]);
                    if j0 != i2 {
                        lemma_seen_index_unique(s, kind2, key2, i2);
                    }
                }
            } else {
                if seen_has(s, kind, key) {
                    let i = seen_index(s, kind, key);
                    assert(i != i2);
                    let i_new = if i < i2 {
                        i
                    } else {
                        i - 1
                    };
                    assert(s2[i_new] == s[i]);
                    lemma_seen_index_unique(s2, kind, key, i_new);
                } else {
                    assert forall|j: int| 0 <= j < s2.len() implies !seen_is(s2[j], kind, key) by {
                        let j0 = if j < i2 {
                            j
                        } else {
                            j + 1
                        };
                        assert(s2[j] == s[j0]);
                    }
                }
            }
        } else {
            assert(s2 == s);
        }
    } else {
        let e2new = SeenEntryView { kind: kind2, key: key2, generation: gen2, touched: now };
        assert(s2 == s.push(e2new));
        assert forall|p: int, q: int| 0 <= p < q < s2.len() implies !(s2[p].kind == s2[q].kind
            && s2[p].key == s2[q].key) by {
            if q == s.len() as int {
                assert(s2[p] == s[p]);
                assert(!seen_is(s[p], kind2, key2));
            } else {
                assert(s2[p] == s[p] && s2[q] == s[q]);
            }
        }
        if kind == kind2 && key == key2 {
            lemma_seen_index_unique(s2, kind, key, s.len() as int);
        } else {
            if seen_has(s, kind, key) {
                let i = seen_index(s, kind, key);
                assert(s2[i] == s[i]);
                lemma_seen_index_unique(s2, kind, key, i);
            } else {
                assert forall|j: int| 0 <= j < s2.len() implies !seen_is(s2[j], kind, key) by {
                    if j != s.len() as int {
                        assert(s2[j] == s[j]);
                    }
                }
            }
        }
    }
}

/// How many observations a batch holds for one metric.
pub open spec fn obs_count(batch: Seq<ObservationView>, kind: Kind, key: MetricKeyView) -> int
    decreases batch.len(),
{
    if batch.len() == 0 {
        0
    } else {
        (if batch[0].kind == kind && batch[0].key == key {
            1int
        } else {
            0int
        }) + obs_count(batch.skip(1), kind, key)
    }
}

/// Counting over a batch with one observation put in front.
pub proof fn lemma_obs_count_prepend(
    x: ObservationView,
    rest: Seq<ObservationView>,
    kind: Kind,
    key: MetricKeyView,
)
    ensures
        obs_count(seq![x] + rest, kind, key) == (if x.kind == kind && x.key == key {
            1int
        } else {
            0int
        }) + obs_count(rest, kind, key),
{
    let c = seq![x] + rest;
    assert(c[0] == x);
    assert(c.skip(1) =~= rest);
}

/// A key present in a listing's tail is present in the listing.
pub proof fn lemma_has_entry_skip(entries: Seq<RegistryEntryView>, kind: Kind, key: MetricKeyView)
    requires
        entries.len() >= 1,
        has_entry(entries.skip(1), kind, key),
    ensures
        has_entry(entries, kind, key),
{
    let i = choose|i: int|
        0 <= i < entries.skip(1).len() && entry_is(entries.skip(1)[i], kind, key);
    assert(entries[i + 1] == entries.skip(1)[i]);
}

/// Structural facts about one export pass: the registry it leaves is
/// duplicate-free and holds only keys it started with; the batch mentions
/// only keys the registry started with; the tracker keeps its configuration
/// and stays duplicate-free.
pub proof fn lemma_pass_structure(
    entries: Seq<RegistryEntryView>,
    rec: RecencyTrackerView,
    descriptions: Seq<(Seq<char>, Seq<char>)>,
    units: Seq<(Seq<char>, Seq<char>)>,
    now: u64,
)
    requires
        unique_entries(entries),
        unique_seen(rec.seen),
    ensures
        ({
            let m = pass_model(entries, rec, descriptions, units, now);
            &&& unique_entries(m.1)
            &&& unique_seen(m.2.seen)
            &&& m.2.idle_timeout == rec.idle_timeout
            &&& m.2.mask == rec.mask
            &&& forall|kind: Kind, key: MetricKeyView|
                #[trigger] has_entry(m.1, kind, key) ==> has_entry(entries, kind, key)
            &&& forall|kind: Kind, key: MetricKeyView|
                (#[trigger] obs_count(m.0, kind, key)) != 0 ==> has_entry(entries, kind, key)
        }),
    decreases entries.len(),
{
    let m = pass_model(entries, rec, descriptions, units, now);
    if entries.len() == 0 {
        assert forall|kind: Kind, key: MetricKeyView| !(#[trigger] has_entry(
            m.1,
            kind,
            key,
        )) by {}
    } else {
        let e = entries[0];
        let rec1 = rec.after_check(e.kind, e.key, e.generation, now);
        lemma_check_changes_one_record(rec, e.kind, e.key, e.generation, now, e.kind, e.key);
        assert forall|p: int, q: int| 0 <= p < q < entries.skip(1).len() implies !(entries.skip(
            1,
        )[p].kind == entries.skip(1)[q].kind && entries.skip(1)[p].key == entries.skip(
            1,
        )[q].key) by {
            assert(entries.skip(1)[p] == entries[p + 1] && entries.skip(1)[q] == entries[q + 1]);
        }
        lemma_pass_structure(entries.skip(1), rec1, descriptions, units, now);
        let r = pass_model(entries.skip(1), rec1, descriptions, units, now);
        let fresh = rec.judges_fresh(e.kind, e.key, e.generation, now);
        if fresh {
            assert(m.1 == seq![drained_entry(e)] + r.1);
            assert(m.1[0] == drained_entry(e));
            assert forall|p: int, q: int| 0 <= p < q < m.1.len() implies !(m.1[p].kind
                == m.1[q].kind && m.1[p].key == m.1[q].key) by {
                if p == 0 {
                    assert(m.1[q] == r.1[q - 1]);
                    if m.1[q].kind == e.kind && m.1[q].key == e.key {
                        assert(entry_is(r.1[q - 1], e.kind, e.key));
                        assert(has_entry(r.1, e.kind, e.key));
                        assert(has_entry(entries.skip(1), e.kind, e.key));
                        let w = choose|w: int|
                            0 <= w < entries.skip(1).len() && entry_is(
                                entries.skip(1)[w],
                                e.kind,
                                e.key,
                            );
                        assert(entries[w + 1] == entries.skip(1)[w]);
                        assert(entry_is(entries[0], e.kind, e.key));
                    }
                } else {
                    assert(m.1[p] == r.1[p - 1] && m.1[q] == r.1[q - 1]);
                }
            }
            assert forall|kind: Kind, key: MetricKeyView| #[trigger] has_entry(
                m.1,
                kind,
                key,
            ) implies has_entry(entries, kind, key) by {
                let j = choose|j: int| 0 <= j < m.1.len() && entry_is(m.1[j], kind, key);
                if j == 0 {
                    assert(entry_is(entries[0], kind, key));
                } else {
                    assert(m.1[j] == r.1[j - 1]);
                    assert(has_entry(r.1, kind, key));
                    assert(has_entry(entries.skip(1), kind, key));
                    lemma_has_entry_skip(entries, kind, key);
                }
            }
            assert forall|kind: Kind, key: MetricKeyView| (#[trigger] obs_count(
                m.0,
                kind,
                key,
            )) != 0 implies has_entry(entries, kind, key) by {
                lemma_obs_count_prepend(
                    observation_of(e, descriptions, units),
                    r.0,
                    kind,
                    key,
                );
                if e.kind == kind && e.key == key {
                    assert(entry_is(entries[0], kind, key));
                    assert(has_entry(entries, kind, key));
                } else {
                    assert(obs_count(r.0, kind, key) != 0);
                    assert(has_entry(entries.skip(1), kind, key));
                    lemma_has_entry_skip(entries, kind, key);
                }
            }
        } else {
            assert(m == r);
            assert forall|kind: Kind, key: MetricKeyView| #[trigger] has_entry(
                m.1,
                kind,
                key,
            ) implies has_entry(entries, kind, key) by {
                assert(has_entry(entries.skip(1), kind, key));
                lemma_has_entry_skip(entries, kind, key);
            }
            assert forall|kind: Kind, key: MetricKeyView| (#[trigger] obs_count(
                m.0,
                kind,
                key,
            )) != 0 implies has_entry(entries, kind, key) by {
                assert(has_entry(entries.skip(1), kind, key));
                lemma_has_entry_skip(entries, kind, key);
            }
        }
    }
}

/// Exactly-once delivery across passes: whatever one export pass did, a
/// second pass over the state it left — with nothing recorded in between —
/// carries no histogram sample at all, so no sample can ever be reported
/// twice.
pub proof fn lemma_histogram_samples_never_repeat(
    entries: Seq<RegistryEntryView>,
    rec: RecencyTrackerView,
    descriptions: Seq<(Seq<char>, Seq<char>)>,
    units: Seq<(Seq<char>, Seq<char>)>,
    now1: u64,
    now2: u64,
)
    ensures
        ({
            let m1 = pass_model(entries, rec, descriptions, units, now1);
            let m2 = pass_model(m1.1, m1.2, descriptions, units, now2);
            forall|j: int|
                0 <= j < m2.0.len() ==> (#[trigger] m2.0[j].value
                    matches crate::export::ObservedValueView::Histogram { 0: samples }
                    ==> samples.len() == 0)
        }),
{
    let m1 = pass_model(entries, rec, descriptions, units, now1);
    lemma_pass_drains_every_histogram(entries, rec, descriptions, units, now1);
    lemma_pass_on_drained_reports_no_samples(m1.1, m1.2, descriptions, units, now2);
}

/// A duplicate-free listing stays duplicate-free without its head.
pub proof fn lemma_unique_skip(entries: Seq<RegistryEntryView>)
    requires
        unique_entries(entries),
        entries.len() >= 1,
    ensures
        unique_entries(entries.skip(1)),
{
    assert forall|p: int, q: int| 0 <= p < q < entries.skip(1).len() implies !(entries.skip(
        1,
    )[p].kind == entries.skip(1)[q].kind && entries.skip(1)[p].key == entries.skip(1)[q].key) by {
        assert(entries.skip(1)[p] == entries[p + 1] && entries.skip(1)[q] == entries[q + 1]);
    }
}

/// An export pass leaves the tracker record of any key outside its registry
/// untouched.
pub proof fn lemma_pass_preserves_foreign_record(
    entries: Seq<RegistryEntryView>,
    rec: RecencyTrackerView,
    descriptions: Seq<(Seq<char>, Seq<char>)>,
    units: Seq<(Seq<char>, Seq<char>)>,
    now: u64,
    kind: Kind,
    key: MetricKeyView,
)
    requires
        unique_seen(rec.seen),
        !has_entry(entries, kind, key),
    ensures
        seen_record(pass_model(entries, rec, descriptions, units, now).2.seen, kind, key)
            == seen_record(rec.seen, kind, key),
    decreases entries.len(),
{
    if entries.len() == 0 {
    } else {
        let e0 = entries[0];
        assert(!(e0.kind == kind && e0.key == key)) by {
            if e0.kind == kind && e0.key == key {
                assert(entry_is(entries[0], kind, key));
                assert(has_entry(entries, kind, key));
            }
        }
        let rec1 = rec.after_check(e0.kind, e0.key, e0.generation, now);
        lemma_check_changes_one_record(rec, e0.kind, e0.key, e0.generation, now, kind, key);
        assert(!has_entry(entries.skip(1), kind, key)) by {
            if has_entry(entries.skip(1), kind, key) {
                lemma_has_entry_skip(entries, kind, key);
            }
        }
        lemma_pass_preserves_foreign_record(
            entries.skip(1),
            rec1,
            descriptions,
            units,
            now,
            kind,
            key,
        );
    }
}

/// The heart of the export contract, per metric: one export pass reports a
/// metric exactly once if the tracker judges it fresh by its own record, and
/// not at all otherwise; a fresh metric stays in the registry with its
/// handle drained, a stale one is evicted; and the metric's tracker record
/// afterwards is exactly what its own check leaves, by [`checked_record`].
pub proof fn lemma_pass_per_entry(
    entries: Seq<RegistryEntryView>,
    rec: RecencyTrackerView,
    descriptions: Seq<(Seq<char>, Seq<char>)>,
    units: Seq<(Seq<char>, Seq<char>)>,
    now: u64,
    i: int,
)
    requires
        unique_entries(entries),
        unique_seen(rec.seen),
        0 <= i < entries.len(),
    ensures
        ({
            let e = entries[i];
            let d = rec.judges_fresh(e.kind, e.key, e.generation, now);
            let m = pass_model(entries, rec, descriptions, units, now);
            &&& obs_count(m.0, e.kind, e.key) == if d {
                1int
            } else {
                0int
            }
            &&& d ==> m.0.contains(observation_of(e, descriptions, units))
            &&& has_entry(m.1, e.kind, e.key) == d
            &&& d ==> m.1[entry_index(m.1, e.kind, e.key)] == drained_entry(e)
            &&& seen_record(m.2.seen, e.kind, e.key) == checked_record(
                rec.idle_timeout,
                rec.mask,
                seen_record(rec.seen, e.kind, e.key),
                e.kind,
                e.key,
                e.generation,
                now,
            )
        }),
    decreases entries.len(),
{
    let e = entries[i];
    let e0 = entries[0];
    let d = rec.judges_fresh(e.kind, e.key, e.generation, now);
    let m = pass_model(entries, rec, descriptions, units, now);
    let rec1 = rec.after_check(e0.kind, e0.key, e0.generation, now);
    let r = pass_model(entries.skip(1), rec1, descriptions, units, now);
    let fresh0 = rec.judges_fresh(e0.kind, e0.key, e0.generation, now);
    let obs0 = observation_of(e0, descriptions, units);
    lemma_unique_skip(entries);
    lemma_check_changes_one_record(rec, e0.kind, e0.key, e0.generation, now, e.kind, e.key);
    lemma_pass_structure(entries, rec, descriptions, units, now);
    lemma_pass_structure(entries.skip(1), rec1, descriptions, units, now);
    if i == 0 {
        assert(!has_entry(entries.skip(1), e.kind, e.key)) by {
            if has_entry(entries.skip(1), e.kind, e.key) {
                let w = choose|w: int|
                    0 <= w < entries.skip(1).len() && entry_is(entries.skip(1)[w], e.kind, e.key);
                assert(entries[w + 1] == entries.skip(1)[w]);
                assert(entry_is(entries[0], e.kind, e.key));
            }
        }
        assert(obs_count(r.0, e.kind, e.key) == 0) by {
            if obs_count(r.0, e.kind, e.key) != 0 {
                assert(has_entry(entries.skip(1), e.kind, e.key));
            }
        }
        assert(!has_entry(r.1, e.kind, e.key)) by {
            if has_entry(r.1, e.kind, e.key) {
                assert(has_entry(entries.skip(1), e.kind, e.key));
            }
        }
        lemma_pass_preserves_foreign_record(
            entries.skip(1),
            rec1,
            descriptions,
            units,
            now,
            e.kind,
            e.key,
        );
        if fresh0 {
            assert(m.0 == seq![obs0] + r.0);
            lemma_obs_count_prepend(obs0, r.0, e.kind, e.key);
            assert(m.0[0] == obs0);
            assert(m.0.contains(obs0)) by {
                assert(exists|k: int| 0 <= k < m.0.len() && m.0[k] == obs0);
            }
            assert(m.1 == seq![drained_entry(e)] + r.1);
            assert(entry_is(m.1[0], e.kind, e.key));
            lemma_entry_index_unique(m.1, e.kind, e.key, 0);
        } else {
            assert(m == r);
            assert(has_entry(m.1, e.kind, e.key) == false);
        }
    } else {
        assert(e == entries.skip(1)[i - 1]);
        assert(!(e0.kind == e.kind && e0.key == e.key));
        assert(seen_record(rec1.seen, e.kind, e.key) == seen_record(rec.seen, e.kind, e.key));
        lemma_verdict_by_record(rec, e.kind, e.key, e.generation, now);
        lemma_verdict_by_record(rec1, e.kind, e.key, e.generation, now);
        assert(rec1.judges_fresh(e.kind, e.key, e.generation, now) == d);
        lemma_pass_per_entry(entries.skip(1), rec1, descriptions, units, now, i - 1);
        if fresh0 {
            assert(m.0 == seq![obs0] + r.0);
            lemma_obs_count_prepend(obs0, r.0, e.kind, e.key);
            assert(!(obs0.kind == e.kind && obs0.key == e.key));
            assert(obs_count(m.0, e.kind, e.key) == obs_count(r.0, e.kind, e.key));
            if d {
                assert(r.0.contains(observation_of(e, descriptions, units)));
                let w = choose|w: int|
                    0 <= w < r.0.len() && r.0[w] == observation_of(e, descriptions, units);
                assert(m.0[w + 1] == r.0[w]);
                assert(m.0.contains(observation_of(e, descriptions, units)));
            }
            assert(m.1 == seq![drained_entry(e0)] + r.1);
            assert(has_entry(m.1, e.kind, e.key) == d) by {
                if has_entry(r.1, e.kind, e.key) {
                    let w = choose|w: int|
                        0 <= w < r.1.len() && entry_is(r.1[w], e.kind, e.key);
                    assert(m.1[w + 1] == r.1[w]);
                    assert(has_entry(m.1, e.kind, e.key));
                }
                if has_entry(m.1, e.kind, e.key) {
                    let w = choose|w: int|
                        0 <= w < m.1.len() && entry_is(m.1[w], e.kind, e.key);
                    if w == 0 {
                        assert(drained_entry(e0).kind == e0.kind && drained_entry(e0).key
                            == e0.key);
                    } else {
                        assert(m.1[w] == r.1[w - 1]);
                        assert(has_entry(r.1, e.kind, e.key));
                    }
                }
            }
            if d {
                let wr = entry_index(r.1, e.kind, e.key);
                lemma_entry_index_unique(r.1, e.kind, e.key, wr);
                assert(m.1[wr + 1] == r.1[wr]);
                lemma_entry_index_unique(m.1, e.kind, e.key, wr + 1);
            }
        } else {
            assert(m == r);
        }
    }
}

/// The counter-total law, end to end: any sequence of increments on one
/// never-seen counter key with no intervening export — so the tracker has
/// no record of the key — is followed by an export pass that reports that
/// key exactly once, with exactly the arithmetic total of the increments;
/// and the pass leaves the accumulator untouched, so no later reading ever
/// reports less.
pub proof fn lemma_counter_total_reported(
    s: Seq<RegistryEntryView>,
    key: MetricKeyView,
    deltas: Seq<u64>,
    rec: RecencyTrackerView,
    descriptions: Seq<(Seq<char>, Seq<char>)>,
    units: Seq<(Seq<char>, Seq<char>)>,
    now: u64,
)
    requires
        unique_entries(s),
        !has_entry(s, Kind::Counter, key),
        1 <= deltas.len() <= u64::MAX,
        sum_of(deltas) <= u64::MAX,
        unique_seen(rec.seen),
        seen_record(rec.seen, Kind::Counter, key) is None,
    ensures
        ({
            let e = RegistryEntryView {
                kind: Kind::Counter,
                key: key,
                generation: deltas.len() as u64,
                handle: MetricHandleView::Counter { value: sum_of(deltas) as u64 },
            };
            let m = pass_model(
                after_increments(s, key, deltas),
                rec,
                descriptions,
                units,
                now,
            );
            &&& obs_count(m.0, Kind::Counter, key) == 1
            &&& m.0.contains(observation_of(e, descriptions, units))
            &&& observation_of(e, descriptions, units).value
                == crate::export::ObservedValueView::Counter(sum_of(deltas) as u64)
            &&& has_entry(m.1, Kind::Counter, key)
            &&& m.1[entry_index(m.1, Kind::Counter, key)] == e
        }),
{
    let e = RegistryEntryView {
        kind: Kind::Counter,
        key: key,
        generation: deltas.len() as u64,
        handle: MetricHandleView::Counter { value: sum_of(deltas) as u64 },
    };
    lemma_counter_increments_sum(s, key, deltas);
    let s1 = after_increments(s, key, deltas);
    assert(s1 == s.push(e));
    let i = s.len() as int;
    assert(entry_is(s1[i], Kind::Counter, key));
    assert forall|p: int, q: int| 0 <= p < q < s1.len() implies !(s1[p].kind == s1[q].kind
        && s1[p].key == s1[q].key) by {
        if q == i {
            assert(s1[p] == s[p]);
            assert(!entry_is(s[p], Kind::Counter, key));
        } else {
            assert(s1[p] == s[p] && s1[q] == s[q]);
        }
    }
    lemma_verdict_by_record(rec, Kind::Counter, key, deltas.len() as u64, now);
    assert(rec.judges_fresh(Kind::Counter, key, deltas.len() as u64, now));
    lemma_pass_per_entry(s1, rec, descriptions, units, now, i);
    assert(drained_entry(e) =~= e);
}

/// The eviction law: a metric whose generation has not moved since the
/// tracker's record and whose idle time exceeds the configured timeout is
/// left out of the export batch, removed from the registry, and forgotten
/// by the tracker; the next update on its key then starts a fresh lifecycle
/// in a brand-new slot at generation one, and the tracker will judge the
/// revived metric fresh at any later export.
pub proof fn lemma_stale_metric_evicted(
    entries: Seq<RegistryEntryView>,
    rec: RecencyTrackerView,
    descriptions: Seq<(Seq<char>, Seq<char>)>,
    units: Seq<(Seq<char>, Seq<char>)>,
    now: u64,
    i: int,
    u: HandleUpdate,
)
    requires
        unique_entries(entries),
        unique_seen(rec.seen),
        0 <= i < entries.len(),
        rec.idle_timeout is Some,
        rec.mask.spec_tracks(entries[i].kind),
        ({
            let r = seen_record(rec.seen, entries[i].kind, entries[i].key);
            &&& r is Some
            &&& r->0.generation == entries[i].generation
            &&& crate::recency::elapsed(r->0.touched, now) > rec.idle_timeout->0
        }),
    ensures
        ({
            let e = entries[i];
            let m = pass_model(entries, rec, descriptions, units, now);
            &&& obs_count(m.0, e.kind, e.key) == 0
            &&& !has_entry(m.1, e.kind, e.key)
            &&& seen_record(m.2.seen, e.kind, e.key) is None
            &&& op_applied(m.1, e.kind, e.key, u) == m.1.push(entry_created(e.kind, e.key, u))
            &&& entry_created(e.kind, e.key, u).generation == 1
            &&& forall|gen2: u64, now2: u64| #[trigger] m.2.judges_fresh(e.kind, e.key, gen2, now2)
        }),
{
    let e = entries[i];
    let m = pass_model(entries, rec, descriptions, units, now);
    lemma_verdict_by_record(rec, e.kind, e.key, e.generation, now);
    assert(!rec.judges_fresh(e.kind, e.key, e.generation, now));
    lemma_pass_per_entry(entries, rec, descriptions, units, now, i);
    lemma_pass_structure(entries, rec, descriptions, units, now);
    assert(seen_record(m.2.seen, e.kind, e.key) is None);
    assert forall|gen2: u64, now2: u64| #[trigger] m.2.judges_fresh(e.kind, e.key, gen2, now2) by {
        lemma_verdict_by_record(m.2, e.kind, e.key, gen2, now2);
    }
}

} // verus!
