use vstd::prelude::*;

use crate::candidate::{CandidateModel, Factory};

verus! {

/// The model of a sequence of identifier-factory pairs.
pub open spec fn entry_models(s: Seq<(String, Factory)>) -> Seq<(Seq<char>, Factory)> {
    s.map_values(|p: (String, Factory)| (p.0@, p.1))
}

/// Each definition's identifier with its factory, in order.
pub open spec fn factories_of(defs: Seq<(Seq<char>, CandidateModel)>) -> Seq<(Seq<char>, Factory)> {
    defs.map_values(|d: (Seq<char>, CandidateModel)| (d.0, d.1.factory))
}

/// What a successful compile hands over: each defined identifier with its factory.
pub struct Container {
    factories: Vec<(String, Factory)>,
}

impl View for Container {
    type V = Seq<(Seq<char>, Factory)>;

    closed spec fn view(&self) -> Seq<(Seq<char>, Factory)> {
        entry_models(self.factories@)
    }
}

impl Container {
    pub(crate) fn from_entries(factories: Vec<(String, Factory)>) -> (r: Container)
        ensures
            r@ == entry_models(factories@),
    {
        Container { factories }
    }

    /// The number of identifiers in the container.
    pub fn len(&self) -> (r: usize)
        ensures
            r == self@.len(),
    {
        self.factories.len()
    }

    /// The factory registered under `id`, if any.
    pub fn get(&self, id: &str) -> (r: Option<Factory>)
        ensures
            match r {
                Some(f) => exists|i: int| 0 <= i < self@.len() && self@[i] == (id@, f),
                None => forall|i: int| 0 <= i < self@.len() ==> #[trigger] self@[i].0 != id@,
            },
    {
        let key = id.to_owned();
        let mut i: usize = 0;
        while i < self.factories.len()
            invariant
                i <= self.factories.len(),
                key@ == id@,
                forall|k: int| 0 <= k < i ==> #[trigger] self@[k].0 != id@,
            decreases self.factories.len() - i,
        {
            if self.factories[i].0 == key {
                assert(self@[i as int] == (id@, self.factories[i as int].1));
                return Some(self.factories[i].1);
            }
            i = i + 1;
        }
        None
    }
}

} // verus!
