//! The metric registry: a map from `(kind, key)` to a generation-tagged
//! handle, supporting get-or-create, a single mutate-in-place entry point,
//! point removal, and a full-snapshot enumeration.

use vstd::prelude::*;
use crate::handle::{HandleUpdate, MetricHandle, MetricHandleView};
use crate::key::{Kind, MetricKey, MetricKeyView};

verus! {

/// One registry slot: the metric's identity, the generation of its last
/// mutation, and its live handle.
pub struct RegistryEntry {
    pub kind: Kind,
    pub key: MetricKey,
    pub generation: u64,
    pub handle: MetricHandle,
}

/// The mathematical view of a registry slot.
#[verifier::ext_equal]
pub ghost struct RegistryEntryView {
    pub kind: Kind,
    pub key: MetricKeyView,
    pub generation: u64,
    pub handle: MetricHandleView,
}

impl View for RegistryEntry {
    type V = RegistryEntryView;

    open spec fn view(&self) -> RegistryEntryView {
        RegistryEntryView {
            kind: self.kind,
            key: self.key@,
            generation: self.generation,
            handle: self.handle@,
        }
    }
}

/// Whether slot `e` is the slot of metric `(kind, key)`.
pub open spec fn entry_is(e: RegistryEntryView, kind: Kind, key: MetricKeyView) -> bool {
    e.kind == kind && e.key == key
}

/// Whether the listing `s` holds a slot for `(kind, key)`.
pub open spec fn has_entry(s: Seq<RegistryEntryView>, kind: Kind, key: MetricKeyView) -> bool {
    exists|i: int| 0 <= i < s.len() && entry_is(s[i], kind, key)
}

/// The position of the slot for `(kind, key)` in `s`; meaningful only when
/// `has_entry` holds and positions are unique.
pub open spec fn entry_index(s: Seq<RegistryEntryView>, kind: Kind, key: MetricKeyView) -> int {
    choose|i: int| 0 <= i < s.len() && entry_is(s[i], kind, key)
}

/// `e` after one update: the handle changes as the update says and the
/// generation advances by one (wrapping), marking new activity.
pub open spec fn entry_updated(e: RegistryEntryView, u: HandleUpdate) -> RegistryEntryView {
    RegistryEntryView {
        generation: vstd::wrapping::u64_specs::wrapping_add(e.generation, 1),
        handle: e.handle.applied(u),
        ..e
    }
}

/// The slot a first update on a never-seen `(kind, key)` creates: a fresh
/// handle with the update already applied, at generation one.
pub open spec fn entry_created(kind: Kind, key: MetricKeyView, u: HandleUpdate) -> RegistryEntryView {
    RegistryEntryView {
        kind: kind,
        key: key,
        generation: 1,
        handle: MetricHandleView::fresh(kind).applied(u),
    }
}

/// What one `op` call does to the whole listing: update the one matching
/// slot in place, or append a newly created slot.
pub open spec fn op_applied(
    s: Seq<RegistryEntryView>,
    kind: Kind,
    key: MetricKeyView,
    u: HandleUpdate,
) -> Seq<RegistryEntryView> {
    if has_entry(s, kind, key) {
        let i = entry_index(s, kind, key);
        s.update(i, entry_updated(s[i], u))
    } else {
        s.push(entry_created(kind, key, u))
    }
}

/// A concurrent map from `(kind, key)` to a generation-tagged metric handle.
///
/// The listing holds at most one slot per `(kind, key)`; that uniqueness is
/// the registry's well-formedness invariant, established at construction and
/// preserved by every operation.
pub struct MetricRegistry {
    pub entries: Vec<RegistryEntry>,
}

impl View for MetricRegistry {
    type V = Seq<RegistryEntryView>;

    open spec fn view(&self) -> Seq<RegistryEntryView> {
        self.entries@.map_values(|e: RegistryEntry| e@)
    }
}

/// At most one slot per `(kind, key)`.
pub open spec fn unique_entries(s: Seq<RegistryEntryView>) -> bool {
    forall|i: int, j: int|
        0 <= i < j < s.len() ==> !(s[i].kind == s[j].kind && s[i].key == s[j].key)
}

/// In a duplicate-free listing any two positions holding `(kind, key)`
/// coincide, so `entry_index` names the one matching position.
pub proof fn lemma_entry_index_unique(
    s: Seq<RegistryEntryView>,
    kind: Kind,
    key: MetricKeyView,
    j: int,
)
    requires
        unique_entries(s),
        0 <= j < s.len(),
        entry_is(s[j], kind, key),
    ensures
        has_entry(s, kind, key),
        entry_index(s, kind, key) == j,
{
    assert(has_entry(s, kind, key));
    let i = entry_index(s, kind, key);
    if i < j {
        assert(!(s[i].kind == s[j].kind && s[i].key == s[j].key));
    } else if j < i {
        assert(!(s[j].kind == s[i].kind && s[j].key == s[i].key));
    }
}

impl MetricRegistry {
    /// The registry's internal invariant.
    pub open spec fn wf(&self) -> bool {
        unique_entries(self@)
    }

    /// An empty registry.
    pub fn new() -> (r: MetricRegistry)
        ensures
            r.wf(),
            r@ == Seq::<RegistryEntryView>::empty(),
    {
        let r = MetricRegistry { entries: Vec::new() };
        proof {
            assert(r@ =~= Seq::<RegistryEntryView>::empty());
        }
        r
    }

    /// How many metrics the registry currently holds.
    pub fn len(&self) -> (n: usize)
        ensures
            n == self@.len(),
    {
        self.entries.len()
    }

    /// Finds the position of the slot for `(kind, key)`, if one exists.
    pub fn find(&self, kind: Kind, key: &MetricKey) -> (r: Option<usize>)
        requires
            self.wf(),
        ensures
            match r {
                Some(i) => {
                    &&& i < self@.len()
                    &&& entry_is(self@[i as int], kind, key@)
                    &&& has_entry(self@, kind, key@)
                    &&& entry_index(self@, kind, key@) == i
                },
                None => !has_entry(self@, kind, key@),
            },
    {
        let n = self.entries.len();
        for i in 0..n
            invariant
                self.wf(),
                n == self@.len(),
                forall|j: int| 0 <= j < i ==> !entry_is(self@[j], kind, key@),
        {
            let e = &self.entries[i];
            if e.kind == kind && e.key.key_eq(key) {
                proof {
                    lemma_entry_index_unique(self@, kind, key@, i as int);
                }
                return Some(i);
            }
        }
        None
    }

    /// Returns the position of the slot for `(kind, key)`, creating the slot
    /// if none exists yet.  Racing creators of the same key observe one
    /// winning slot: if the slot already exists the registry is unchanged and
    /// the existing position is returned.
    pub fn get_or_create(&mut self, kind: Kind, key: &MetricKey) -> (i: usize)
        requires
            old(self).wf(),
        ensures
            final(self).wf(),
            i < final(self)@.len(),
            entry_is(final(self)@[i as int], kind, key@),
            if has_entry(old(self)@, kind, key@) {
                &&& final(self)@ == old(self)@
                &&& i == entry_index(old(self)@, kind, key@)
            } else {
                &&& final(self)@ == old(self)@.push(RegistryEntryView {
                    kind: kind,
                    key: key@,
                    generation: 0,
                    handle: MetricHandleView::fresh(kind),
                })
                &&& i == old(self)@.len()
            },
    {
        match self.find(kind, key) {
            Some(i) => i,
            None => {
                let i = self.entries.len();
                self.entries.push(
                    RegistryEntry {
                        kind,
                        key: key.clone(),
                        generation: 0,
                        handle: MetricHandle::fresh(kind),
                    },
                );
                proof {
                    assert(self@ =~= old(self)@.push(RegistryEntryView {
                        kind: kind,
                        key: key@,
                        generation: 0,
                        handle: MetricHandleView::fresh(kind),
                    }));
                    assert forall|p: int, q: int| 0 <= p < q < self@.len() implies !(self@[p].kind
                        == self@[q].kind && self@[p].key == self@[q].key) by {
                        if q == i as int {
                            assert(!entry_is(old(self)@[p], kind, key@));
                        }
                    }
                }
                i
            },
        }
    }

    /// The single entry point for all value updates: looks up or creates the
    /// slot for `(kind, key)`, applies the update to its handle, and advances
    /// its generation.  Registration is implicit: a first update on a
    /// never-seen key creates a usable slot.
    pub fn op(&mut self, kind: Kind, key: &MetricKey, u: HandleUpdate)
        requires
            old(self).wf(),
        ensures
            final(self).wf(),
            final(self)@ == op_applied(old(self)@, kind, key@, u),
    {
        let ghost s0 = self@;
        let i = self.get_or_create(kind, key);
        let ghost s1 = self@;
        let entry = &mut self.entries[i];
        entry.generation = entry.generation.wrapping_add(1);
        entry.handle.apply(u);
        proof {
            assert(self@ =~= s1.update(i as int, entry_updated(s1[i as int], u)));
            if has_entry(s0, kind, key@) {
                assert(self@ =~= op_applied(s0, kind, key@, u));
            } else {
                assert(s1[i as int].handle == MetricHandleView::fresh(kind));
                assert(self@ =~= s0.push(entry_created(kind, key@, u)));
                assert(!has_entry(s0, kind, key@));
            }
            assert forall|p: int, q: int| 0 <= p < q < self@.len() implies !(self@[p].kind
                == self@[q].kind && self@[p].key == self@[q].key) by {
                assert(self@[p].kind == s1[p].kind && self@[p].key == s1[p].key);
                assert(self@[q].kind == s1[q].kind && self@[q].key == s1[q].key);
            }
        }
    }

    /// Removes the slot for `(kind, key)`, if present; later updates on the
    /// same key then start a fresh lifecycle through get-or-create.
    pub fn remove(&mut self, kind: Kind, key: &MetricKey)
        requires
            old(self).wf(),
        ensures
            final(self).wf(),
            final(self)@ == if has_entry(old(self)@, kind, key@) {
                old(self)@.remove(entry_index(old(self)@, kind, key@))
            } else {
                old(self)@
            },
            !has_entry(final(self)@, kind, key@),
    {
        let ghost s0 = self@;
        match self.find(kind, key) {
            Some(i) => {
                self.entries.remove(i);
                proof {
                    assert(self@ =~= s0.remove(i as int));
                    assert forall|p: int, q: int| 0 <= p < q < self@.len() implies !(self@[p].kind
                        == self@[q].kind && self@[p].key == self@[q].key) by {
                        let p0 = if p < i as int { p } else { p + 1 };
                        let q0 = if q < i as int { q } else { q + 1 };
                        assert(self@[p] == s0[p0] && self@[q] == s0[q0]);
                    }
                    assert forall|j: int| 0 <= j < self@.len() implies !entry_is(
                        self@[j],
                        kind,
                        key@,
                    ) by {
                        let j0 = if j < i as int { j } else { j + 1 };
                        assert(self@[j] == s0[j0]);
                        if j0 != i as int {
                            lemma_entry_index_unique(s0, kind, key@, i as int);
                        }
                    }
                }
            },
            None => {},
        }
    }

    /// A consistent point-in-time listing of every metric's identity and
    /// generation, in slot order, used by the export pass.
    pub fn enumerate(&self) -> (r: Vec<(Kind, MetricKey, u64)>)
        ensures
            r@.len() == self@.len(),
            forall|i: int|
                0 <= i < self@.len() ==> {
                    &&& r@[i].0 == self@[i].kind
                    &&& r@[i].1@ == self@[i].key
                    &&& r@[i].2 == self@[i].generation
                },
    {
        let mut out: Vec<(Kind, MetricKey, u64)> = Vec::new();
        let n = self.entries.len();
        for i in 0..n
            invariant
                n == self@.len(),
                out@.len() == i,
                forall|j: int|
                    0 <= j < i ==> {
                        &&& out@[j].0 == self@[j].kind
                        &&& out@[j].1@ == self@[j].key
                        &&& out@[j].2 == self@[j].generation
                    },
        {
            let e = &self.entries[i];
            out.push((e.kind, e.key.clone(), e.generation));
        }
        out
    }
}

} // verus!
