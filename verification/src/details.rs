//! Side tables mapping a metric name to its first-registered description and
//! unit, independent of the per-instance handles.

use vstd::prelude::*;

verus! {

/// Whether the name table `s` holds an entry for `name`.
pub open spec fn names_has(s: Seq<(Seq<char>, Seq<char>)>, name: Seq<char>) -> bool {
    exists|i: int| 0 <= i < s.len() && s[i].0 == name
}

/// The position of the entry for `name` in `s`; meaningful only when
/// `names_has` holds and names are unique.
pub open spec fn names_index(s: Seq<(Seq<char>, Seq<char>)>, name: Seq<char>) -> int {
    choose|i: int| 0 <= i < s.len() && s[i].0 == name
}

/// The value recorded for `name` in `s`, if any.
pub open spec fn names_lookup(s: Seq<(Seq<char>, Seq<char>)>, name: Seq<char>) -> Option<
    Seq<char>,
> {
    if names_has(s, name) {
        Some(s[names_index(s, name)].1)
    } else {
        None
    }
}

/// At most one entry per name.
pub open spec fn unique_names(s: Seq<(Seq<char>, Seq<char>)>) -> bool {
    forall|i: int, j: int| 0 <= i < j < s.len() ==> s[i].0 != s[j].0
}

/// In a duplicate-free name table any two positions holding `name` coincide,
/// so `names_index` names the one matching position.
pub proof fn lemma_names_index_unique(s: Seq<(Seq<char>, Seq<char>)>, name: Seq<char>, j: int)
    requires
        unique_names(s),
        0 <= j < s.len(),
        s[j].0 == name,
    ensures
        names_has(s, name),
        names_index(s, name) == j,
{
    assert(names_has(s, name));
    let i = names_index(s, name);
    if i < j {
        assert(s[i].0 != s[j].0);
    } else if j < i {
        assert(s[j].0 != s[i].0);
    }
}

/// One name table: an association list from metric name to a recorded
/// string, first write wins.
pub struct NameTable {
    pub entries: Vec<(String, String)>,
}

impl View for NameTable {
    type V = Seq<(Seq<char>, Seq<char>)>;

    open spec fn view(&self) -> Seq<(Seq<char>, Seq<char>)> {
        self.entries@.map_values(|p: (String, String)| (p.0@, p.1@))
    }
}

impl NameTable {
    /// The table's internal invariant.
    pub open spec fn wf(&self) -> bool {
        unique_names(self@)
    }

    /// An empty table.
    pub fn new() -> (r: NameTable)
        ensures
            r.wf(),
            r@ == Seq::<(Seq<char>, Seq<char>)>::empty(),
    {
        let r = NameTable { entries: Vec::new() };
        proof {
            assert(r@ =~= Seq::<(Seq<char>, Seq<char>)>::empty());
        }
        r
    }

    /// Records `value` for `name` unless the name already has a recorded
    /// value: the first write wins and later writes are ignored.
    pub fn insert_first_wins(&mut self, name: &String, value: &String)
        requires
            old(self).wf(),
        ensures
            final(self).wf(),
            final(self)@ == if names_has(old(self)@, name@) {
                old(self)@
            } else {
                old(self)@.push((name@, value@))
            },
            names_lookup(final(self)@, name@) is Some,
    {
        let ghost s0 = self@;
        let n = self.entries.len();
        for i in 0..n
            invariant
                self.wf(),
                self@ == s0,
                n == self@.len(),
                forall|j: int| 0 <= j < i ==> self@[j].0 != name@,
        {
            if self.entries[i].0.eq(name) {
                proof {
                    lemma_names_index_unique(s0, name@, i as int);
                }
                return ;
            }
        }
        self.entries.push((name.clone(), value.clone()));
        proof {
            assert(self@ =~= s0.push((name@, value@)));
            assert forall|p: int, q: int| 0 <= p < q < self@.len() implies self@[p].0
                != self@[q].0 by {
                if q == s0.len() {
                    assert(s0[p].0 != name@);
                }
            }
            lemma_names_index_unique(self@, name@, s0.len() as int);
        }
    }

    /// The value recorded for `name`, if any.
    pub fn lookup(&self, name: &String) -> (r: Option<String>)
        requires
            self.wf(),
        ensures
            match r {
                Some(v) => names_lookup(self@, name@) == Some(v@),
                None => names_lookup(self@, name@) is None,
            },
    {
        let n = self.entries.len();
        for i in 0..n
            invariant
                self.wf(),
                n == self@.len(),
                forall|j: int| 0 <= j < i ==> self@[j].0 != name@,
        {
            if self.entries[i].0.eq(name) {
                proof {
                    lemma_names_index_unique(self@, name@, i as int);
                }
                return Some(self.entries[i].1.clone());
            }
        }
        None
    }
}

/// The two first-write-wins side tables: metric name to description, and
/// metric name to unit.
pub struct DetailsCache {
    pub descriptions: NameTable,
    pub units: NameTable,
}

impl DetailsCache {
    /// The cache's internal invariant.
    pub open spec fn wf(&self) -> bool {
        self.descriptions.wf() && self.units.wf()
    }

    /// An empty cache.
    pub fn new() -> (r: DetailsCache)
        ensures
            r.wf(),
            r.descriptions@ == Seq::<(Seq<char>, Seq<char>)>::empty(),
            r.units@ == Seq::<(Seq<char>, Seq<char>)>::empty(),
    {
        DetailsCache { descriptions: NameTable::new(), units: NameTable::new() }
    }

    /// Records the description and unit offered for `name`, each only if the
    /// name has none recorded yet: a metric's metadata is fixed by its first
    /// registration and never overwritten.
    pub fn add_details_if_missing(
        &mut self,
        name: &String,
        description: &Option<String>,
        unit: &Option<String>,
    )
        requires
            old(self).wf(),
        ensures
            final(self).wf(),
            final(self).descriptions@ == (match description {
                Some(d) => if names_has(old(self).descriptions@, name@) {
                    old(self).descriptions@
                } else {
                    old(self).descriptions@.push((name@, d@))
                },
                None => old(self).descriptions@,
            }),
            final(self).units@ == (match unit {
                Some(u) => if names_has(old(self).units@, name@) {
                    old(self).units@
                } else {
                    old(self).units@.push((name@, u@))
                },
                None => old(self).units@,
            }),
    {
        if let Some(d) = description {
            self.descriptions.insert_first_wins(name, d);
        }
        if let Some(u) = unit {
            self.units.insert_first_wins(name, u);
        }
    }
}

} // verus!
