//! The tagging definition: a closed label vocabulary together with the
//! feature extraction, corpus loading and scoring that a tagger asks of it.

use vstd::hash_map::StringHashMap;
use vstd::prelude::*;
use vstd::string::*;

verus! {

/// A label was looked up that the vocabulary does not hold.
#[derive(Debug, Clone, Copy, PartialEq, Eq, Structural)]
pub struct UnknownLabel;

/// The number of positions below `n` at which `predicts` and `labels` agree.
pub open spec fn agreements(predicts: Seq<usize>, labels: Seq<usize>, n: nat) -> nat
    decreases n,
{
    if n == 0 {
        0
    } else {
        agreements(predicts, labels, (n - 1) as nat) + if predicts[n - 1] == labels[n - 1] {
            1nat
        } else {
            0nat
        }
    }
}

/// A part-of-speech tagging definition over a fixed vocabulary of labels.
///
/// Its view is the vocabulary: the labels in index order.
pub struct POSDefinition {
    to_labels: Vec<String>,
    labels_to: StringHashMap<usize>,
}

impl View for POSDefinition {
    type V = Seq<Seq<char>>;

    closed spec fn view(&self) -> Seq<Seq<char>> {
        self.to_labels.deep_view()
    }
}

impl Default for POSDefinition {
    /// The definition over the empty vocabulary.
    fn default() -> (r: Self)
        ensures
            r.wf(),
            r@ == Seq::<Seq<char>>::empty(),
    {
        let r = POSDefinition { to_labels: Vec::new(), labels_to: StringHashMap::new() };
        r
    }
}

impl PartialEq for POSDefinition {
    /// Two definitions are equal where their vocabularies are.
    fn eq(&self, other: &Self) -> (b: bool) {
        if self.to_labels.len() != other.to_labels.len() {
            assert(self@.len() != other@.len());
            return false;
        }
        let mut i: usize = 0;
        while i < self.to_labels.len()
            invariant
                i <= self.to_labels@.len(),
                self.to_labels@.len() == other.to_labels@.len(),
                forall|j: int| 0 <= j < i ==> (#[trigger] self.to_labels@[j])@ == other.to_labels@[j]@,
            decreases self.to_labels@.len() - i,
        {
            if self.to_labels[i] != other.to_labels[i] {
                assert(self@[i as int] != other@[i as int]);
                return false;
            }
            i += 1;
        }
        assert(self@ =~= other@);
        true
    }
}

impl Eq for POSDefinition {

}

impl vstd::std_specs::cmp::PartialEqSpecImpl for POSDefinition {
    open spec fn obeys_eq_spec() -> bool {
        true
    }

    open spec fn eq_spec(&self, other: &Self) -> bool {
        self@ == other@
    }
}

impl Clone for POSDefinition {
    /// A definition over the same vocabulary.
    fn clone(&self) -> (r: Self)
        ensures
            r@ == self@,
            self.wf() ==> r.wf(),
    {
        proof {
            if self.wf() {
                self.lemma_label_bijection();
            }
        }
        Self::build(self.labels())
    }
}

impl POSDefinition {
    /// The lookup table and the label list say the same thing.
    pub closed spec fn wf(&self) -> bool {
        &&& forall|i: int|
            0 <= i < self.to_labels@.len() ==> {
                &&& self.labels_to@.contains_key(#[trigger] self.to_labels@[i]@)
                &&& self.labels_to@[self.to_labels@[i]@] == i
            }
        &&& forall|l: Seq<char>| #[trigger]
            self.labels_to@.contains_key(l) ==> {
                &&& self.labels_to@[l] < self.to_labels@.len()
                &&& self.to_labels@[self.labels_to@[l] as int]@ == l
            }
    }

    /// Builds the lookup table over `to_labels`.
    fn build(to_labels: Vec<String>) -> (r: Self)
        ensures
            r@ == to_labels.deep_view(),
            to_labels.deep_view().no_duplicates() ==> r.wf(),
    {
        let mut labels_to: StringHashMap<usize> = StringHashMap::new();
        let mut i: usize = 0;
        while i < to_labels.len()
            invariant
                i <= to_labels@.len(),
                to_labels.deep_view().no_duplicates() ==> {
                    &&& forall|j: int|
                        0 <= j < i ==> {
                            &&& labels_to@.contains_key(#[trigger] to_labels@[j]@)
                            &&& labels_to@[to_labels@[j]@] == j
                        }
                    &&& forall|l: Seq<char>| #[trigger]
                        labels_to@.contains_key(l) ==> {
                            &&& labels_to@[l] < i
                            &&& to_labels@[labels_to@[l] as int]@ == l
                        }
                },
            decreases to_labels@.len() - i,
        {
            proof {
                if to_labels.deep_view().no_duplicates() {
                    assert forall|j: int| 0 <= j < i implies to_labels@[j]@ != to_labels@[i as int]@ by {
                        assert(to_labels.deep_view()[j] == to_labels@[j]@);
                        assert(to_labels.deep_view()[i as int] == to_labels@[i as int]@);
                    }
                }
            }
            labels_to.insert(to_labels[i].clone(), i);
            i += 1;
        }
        POSDefinition { to_labels, labels_to }
    }

    /// Builds the definition over `to_labels`, which become the labels
    /// `0, 1, 2, ...` in the order given. No label may occur twice.
    pub fn new(to_labels: Vec<String>) -> (r: Self)
        requires
            to_labels.deep_view().no_duplicates(),
        ensures
            r.wf(),
            r@ == to_labels.deep_view(),
    {
        Self::build(to_labels)
    }

    /// The labels, in index order.
    pub fn labels(&self) -> (labels: Vec<String>)
        ensures
            labels.deep_view() == self@,
    {
        let labels = self.to_labels.clone();
        labels
    }

    /// The number of labels.
    pub fn label_num(&self) -> (n: usize)
        ensures
            n == self@.len(),
    {
        self.to_labels.len()
    }

    /// The index of `label` in the vocabulary.
    pub fn label_to(&self, label: &str) -> (r: Result<usize, UnknownLabel>)
        requires
            self.wf(),
        ensures
            r is Ok <==> self@.contains(label@),
            r matches Ok(i) ==> i < self@.len() && self@[i as int] == label@ && i
                == self@.index_of(label@),
    {
        match self.labels_to.get(label) {
            Some(i) => {
                proof {
                    assert(self@[*i as int] == self.to_labels@[*i as int]@);
                    self.lemma_label_bijection();
                }
                Ok(*i)
            },
            None => Err(UnknownLabel),
        }
    }

    /// The label at `index`.
    pub fn to_label(&self, index: usize) -> (label: &str)
        requires
            index < self@.len(),
        ensures
            label@ == self@[index as int],
    {
        self.to_labels[index].as_str()
    }

    /// The labels at the indices `predicts`, in the same order.
    pub fn predict(&self, predicts: &[usize]) -> (labels: Vec<&str>)
        requires
            forall|i: int| 0 <= i < predicts@.len() ==> (#[trigger] predicts@[i]) < self@.len(),
        ensures
            labels.deep_view() == Seq::new(predicts@.len(), |i: int| self@[predicts@[i] as int]),
    {
        let mut labels: Vec<&str> = Vec::with_capacity(predicts.len());
        let mut i: usize = 0;
        while i < predicts.len()
            invariant
                i <= predicts@.len(),
                labels@.len() == i,
                forall|j: int| 0 <= j < predicts@.len() ==> (#[trigger] predicts@[j]) < self@.len(),
                forall|j: int| 0 <= j < i ==> (#[trigger] labels@[j])@ == self@[predicts@[j] as int],
            decreases predicts@.len() - i,
        {
            labels.push(self.to_label(predicts[i]));
            i += 1;
        }
        labels
    }

    /// Compares predicted with gold labels, position by position: the number
    /// of positions at which they agree, the number of predictions and the
    /// number of gold labels.
    pub fn evaluate(&self, predicts: &[usize], labels: &[usize]) -> (counts: (usize, usize, usize))
        requires
            predicts@.len() == labels@.len(),
        ensures
            counts.0 == agreements(predicts@, labels@, predicts@.len()),
            counts.1 == predicts@.len(),
            counts.2 == labels@.len(),
    {
        let mut correct: usize = 0;
        let mut i: usize = 0;
        while i < predicts.len()
            invariant
                i <= predicts@.len(),
                predicts@.len() == labels@.len(),
                correct == agreements(predicts@, labels@, i as nat),
                correct <= i,
            decreases predicts@.len() - i,
        {
            if predicts[i] == labels[i] {
                correct += 1;
            }
            i += 1;
        }
        (correct, predicts.len(), labels.len())
    }

    /// In a well-formed definition no label occurs twice, so labels and
    /// indices correspond one to one: looking a label up and reading the
    /// label at the index found gives the label back, and reading the label
    /// at an index and looking it up gives the index back.
    pub proof fn lemma_label_bijection(&self)
        requires
            self.wf(),
        ensures
            self@.no_duplicates(),
            forall|l: Seq<char>| #[trigger]
                self@.contains(l) ==> 0 <= self@.index_of(l) < self@.len() && self@[self@.index_of(
                    l,
                )] == l,
            forall|i: int| 0 <= i < self@.len() ==> self@.index_of(#[trigger] self@[i]) == i,
    {
    }
}

} // verus!
