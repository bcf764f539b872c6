//! Metric identity: a name plus an ordered list of label pairs, and the
//! closed set of metric kinds.

use vstd::prelude::*;

verus! {

/// One label: a key/value pair of strings.
pub struct Label {
    pub key: String,
    pub value: String,
}

/// The mathematical view of a label: its key and value as character sequences.
#[verifier::ext_equal]
pub ghost struct LabelView {
    pub key: Seq<char>,
    pub value: Seq<char>,
}

impl View for Label {
    type V = LabelView;

    open spec fn view(&self) -> LabelView {
        LabelView { key: self.key@, value: self.value@ }
    }
}

impl Clone for Label {
    fn clone(&self) -> (r: Self)
        ensures
            r@ == self@,
    {
        Label { key: self.key.clone(), value: self.value.clone() }
    }
}

/// Identifies one metric instance: a name together with an ordered sequence
/// of label pairs.  Two keys are the same metric exactly when both the name
/// and the label sequence agree.
pub struct MetricKey {
    pub name: String,
    pub labels: Vec<Label>,
}

/// The mathematical view of a metric key.
#[verifier::ext_equal]
pub ghost struct MetricKeyView {
    pub name: Seq<char>,
    pub labels: Seq<LabelView>,
}

impl View for MetricKey {
    type V = MetricKeyView;

    open spec fn view(&self) -> MetricKeyView {
        MetricKeyView { name: self.name@, labels: self.labels@.map_values(|l: Label| l@) }
    }
}

impl Clone for MetricKey {
    fn clone(&self) -> (r: Self)
        ensures
            r@ == self@,
    {
        let mut labels: Vec<Label> = Vec::new();
        for i in 0..self.labels.len()
            invariant
                labels@.len() == i,
                forall|j: int| 0 <= j < i ==> labels@[j]@ == self.labels@[j]@,
        {
            labels.push(self.labels[i].clone());
        }
        let r = MetricKey { name: self.name.clone(), labels };
        proof {
            assert(r@.labels =~= self@.labels);
        }
        r
    }
}

impl MetricKey {
    /// Builds a key from a name and a list of `(label key, label value)`
    /// string pairs, in order.
    pub fn new(name: String, pairs: Vec<(String, String)>) -> (r: MetricKey)
        ensures
            r@.name == name@,
            r@.labels.len() == pairs@.len(),
            forall|j: int|
                0 <= j < pairs@.len() ==> r@.labels[j] == (LabelView {
                    key: pairs@[j].0@,
                    value: pairs@[j].1@,
                }),
    {
        let mut labels: Vec<Label> = Vec::new();
        let mut pairs = pairs;
        let ghost all = pairs@;
        let n = pairs.len();
        for i in 0..n
            invariant
                n == all.len(),
                pairs@ == all.skip(i as int),
                labels@.len() == i,
                forall|j: int|
                    0 <= j < i ==> labels@[j]@ == (LabelView { key: all[j].0@, value: all[j].1@ }),
        {
            let (k, v) = pairs.remove(0);
            labels.push(Label { key: k, value: v });
            proof {
                assert(all.skip(i as int).skip(1) =~= all.skip(i + 1));
            }
        }
        MetricKey { name, labels }
    }

    /// Decides whether two keys identify the same metric.
    pub fn key_eq(&self, other: &MetricKey) -> (r: bool)
        ensures
            r == (self@ == other@),
    {
        if !self.name.eq(&other.name) {
            return false;
        }
        if self.labels.len() != other.labels.len() {
            proof {
                assert(self@.labels.len() != other@.labels.len());
            }
            return false;
        }
        let n = self.labels.len();
        for i in 0..n
            invariant
                n == self.labels@.len() == other.labels@.len(),
                self@.name == other@.name,
                forall|j: int| 0 <= j < i ==> self.labels@[j]@ == other.labels@[j]@,
        {
            let a = &self.labels[i];
            let b = &other.labels[i];
            if !a.key.eq(&b.key) || !a.value.eq(&b.value) {
                assert(self@.labels[i as int] != other@.labels[i as int]);
                return false;
            }
            proof {
                assert(self.labels@[i as int]@ =~= other.labels@[i as int]@);
            }
        }
        proof {
            assert(self@.labels =~= other@.labels);
        }
        true
    }
}

/// The closed set of metric kinds.
#[derive(Clone, Copy, PartialEq, Eq, Structural, Debug)]
pub enum Kind {
    Counter,
    Gauge,
    Histogram,
}

/// Selects which kinds participate in idle-staleness tracking; kinds outside
/// the mask are always reported and never evicted.
#[derive(Clone, Copy, PartialEq, Eq, Structural, Debug)]
pub struct KindMask {
    pub counter: bool,
    pub gauge: bool,
    pub histogram: bool,
}

impl KindMask {
    /// The mask that tracks every kind.
    pub open spec fn spec_all() -> KindMask {
        KindMask { counter: true, gauge: true, histogram: true }
    }

    /// Executable form of [`Self::spec_all`].
    #[verifier::when_used_as_spec(spec_all)]
    pub fn all() -> (r: KindMask)
        ensures
            r == KindMask::spec_all(),
    {
        KindMask { counter: true, gauge: true, histogram: true }
    }

    /// The mask that tracks no kind at all.
    pub open spec fn spec_none() -> KindMask {
        KindMask { counter: false, gauge: false, histogram: false }
    }

    /// Executable form of [`Self::spec_none`].
    #[verifier::when_used_as_spec(spec_none)]
    pub fn none() -> (r: KindMask)
        ensures
            r == KindMask::spec_none(),
    {
        KindMask { counter: false, gauge: false, histogram: false }
    }

    /// Whether `kind` participates in staleness tracking under this mask.
    pub open spec fn spec_tracks(&self, kind: Kind) -> bool {
        match kind {
            Kind::Counter => self.counter,
            Kind::Gauge => self.gauge,
            Kind::Histogram => self.histogram,
        }
    }

    /// Executable form of [`Self::spec_tracks`].
    #[verifier::when_used_as_spec(spec_tracks)]
    pub fn tracks(&self, kind: Kind) -> (r: bool)
        ensures
            r == self.spec_tracks(kind),
    {
        match kind {
            Kind::Counter => self.counter,
            Kind::Gauge => self.gauge,
            Kind::Histogram => self.histogram,
        }
    }
}

} // verus!
