use vstd::prelude::*;

use crate::candidate::{CandidateModel, Factory};
use crate::registry::Registry;

verus! {

/// Accumulates the argument sources of one definition while holding the
/// registry, then registers it once.
pub struct One<'r> {
    pub registry: &'r mut Registry,
    pub id: String,
    pub factory: Factory,
    pub args: Vec<String>,
}

impl<'r> One<'r> {
    pub fn begin(registry: &'r mut Registry, id: &str, factory: Factory) -> (b: One<'r>)
        ensures
            *b.registry == *old(registry),
            *final(b.registry) == *final(registry),
            b.id@ == id@,
            b.factory == factory,
            b.args@.len() == 0,
    {
        One { registry, id: id.to_owned(), factory, args: Vec::new() }
    }

    /// Appends the argument source `arg`.
    pub fn with_arg(self, arg: &str) -> (b: One<'r>)
        ensures
            *b.registry == *old(self.registry),
            *final(b.registry) == *final(self.registry),
            b.id == self.id,
            b.factory == self.factory,
            b.args.deep_view() == self.args.deep_view().push(arg@),
    {
        let One { registry, id, factory, mut args } = self;
        args.push(arg.to_owned());
        proof {
            assert(args.deep_view() =~= self.args.deep_view().push(arg@));
        }
        One { registry, id, factory, args }
    }

    /// Registers the definition with the sources accumulated so far.
    pub fn insert(self)
        requires
            (*old(self.registry))@.well_formed(),
        ensures
            (*final(self.registry))@ == (*old(self.registry))@.register(
                self.id@,
                CandidateModel { factory: self.factory, arg_sources: self.args.deep_view(), owning_group: None },
            ),
            (*final(self.registry))@.well_formed(),
            (*final(self.registry)).passes() == (*old(self.registry)).passes(),
    {
        let One { registry, id, factory, args } = self;
        registry.finalize(None, id, factory, args);
    }
}

/// Accumulates the argument sources of one member of a group while holding
/// the registry, then registers it once.
pub struct OneOf<'r> {
    pub registry: &'r mut Registry,
    pub collection_id: String,
    pub id: String,
    pub factory: Factory,
    pub args: Vec<String>,
}

impl<'r> OneOf<'r> {
    pub fn begin(registry: &'r mut Registry, collection_id: &str, id: &str, factory: Factory) -> (b: OneOf<'r>)
        ensures
            *b.registry == *old(registry),
            *final(b.registry) == *final(registry),
            b.collection_id@ == collection_id@,
            b.id@ == id@,
            b.factory == factory,
            b.args@.len() == 0,
    {
        OneOf { registry, collection_id: collection_id.to_owned(), id: id.to_owned(), factory, args: Vec::new() }
    }

    /// Appends the argument source `arg`.
    pub fn with_arg(self, arg: &str) -> (b: OneOf<'r>)
        ensures
            *b.registry == *old(self.registry),
            *final(b.registry) == *final(self.registry),
            b.collection_id == self.collection_id,
            b.id == self.id,
            b.factory == self.factory,
            b.args.deep_view() == self.args.deep_view().push(arg@),
    {
        let OneOf { registry, collection_id, id, factory, mut args } = self;
        args.push(arg.to_owned());
        proof {
            assert(args.deep_view() =~= self.args.deep_view().push(arg@));
        }
        OneOf { registry, collection_id, id, factory, args }
    }

    /// Declares the group, unless it is already known, from the factory's
    /// produced type, then registers the member with the sources accumulated
    /// so far.
    pub fn insert(self)
        requires
            (*old(self.registry))@.well_formed(),
        ensures
            (*final(self.registry))@ == (*old(self.registry))@.declare_group(
                self.collection_id@,
                self.factory.produced_type,
            ).register(
                self.id@,
                CandidateModel {
                    factory: self.factory,
                    arg_sources: self.args.deep_view(),
                    owning_group: Some(self.collection_id@),
                },
            ),
            (*final(self.registry))@.well_formed(),
            (*final(self.registry)).passes() == (*old(self.registry)).passes(),
    {
        let OneOf { registry, collection_id, id, factory, args } = self;
        registry.define_group_if_not_exists(collection_id.clone(), factory.produced_type);
        registry.finalize(Some(collection_id), id, factory, args);
    }
}

} // verus!
