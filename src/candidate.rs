use vstd::prelude::*;

verus! {

/// What the registry reads of a type-erased factory: an opaque handle by which
/// the caller finds the real constructor again, the number of arguments it
/// requires, and a tag for the type of value it produces.
#[derive(Clone, Copy, Debug, PartialEq, Eq)]
pub struct Factory {
    pub handle: u64,
    pub arity: usize,
    pub produced_type: u64,
}

/// A group that aggregates the members registered into it; `element_type` is
/// the tag of the type its members produce.
#[derive(Clone, Copy, Debug, PartialEq, Eq)]
pub struct GroupCandidate {
    pub element_type: u64,
}

/// The mathematical value of a definition candidate.
pub struct CandidateModel {
    pub factory: Factory,
    pub arg_sources: Seq<Seq<char>>,
    pub owning_group: Option<Seq<char>>,
}

/// A pending definition: a factory, the identifiers of its positional
/// arguments, and the group it contributes a member to, if any.
#[derive(Debug)]
pub struct DefinitionCandidate {
    pub factory: Factory,
    pub arg_sources: Vec<String>,
    pub owning_group: Option<String>,
}

impl View for DefinitionCandidate {
    type V = CandidateModel;

    open spec fn view(&self) -> CandidateModel {
        CandidateModel {
            factory: self.factory,
            arg_sources: self.arg_sources.deep_view(),
            owning_group: self.owning_group.deep_view(),
        }
    }
}

impl DefinitionCandidate {
    pub fn new(factory: Factory, arg_sources: Vec<String>, owning_group: Option<String>) -> (r: Self)
        ensures
            r.factory == factory,
            r.arg_sources == arg_sources,
            r.owning_group == owning_group,
    {
        DefinitionCandidate { factory, arg_sources, owning_group }
    }
}

} // verus!
