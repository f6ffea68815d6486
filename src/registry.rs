use vstd::prelude::*;

use crate::candidate::{CandidateModel, DefinitionCandidate, Factory, GroupCandidate};
use crate::keyed::{has_key, key_index, keys_unique, lemma_key_index, lemma_key_index_unique};
use crate::builder::{One, OneOf};
use crate::container::{entry_models, factories_of, Container};
use crate::error::{error_models, CompileError, ErrorModel};
use crate::validator::{
    arity_error_of, arity_errors, concat, dependency_errors, missing_sources, override_errors,
    pass_reports, pipeline_run, resolvable, ArgumentCountValidator, DependencyValidator,
    NoOverridesValidator, Pass, Validator, lemma_push_pass,
};

verus! {

/// The mathematical value of a registry's tables: its groups, its live
/// definitions and its override log, each keyed by identifier in the order
/// the keys first appeared.
pub struct RegistryModel {
    pub groups: Seq<(Seq<char>, GroupCandidate)>,
    pub definitions: Seq<(Seq<char>, CandidateModel)>,
    pub overridden: Seq<(Seq<char>, Seq<CandidateModel>)>,
}

impl RegistryModel {
    /// Keys are unique in each table; the override log holds only identifiers
    /// that have at least one displaced candidate and a live definition.
    pub open spec fn well_formed(self) -> bool {
        &&& keys_unique(self.groups)
        &&& keys_unique(self.definitions)
        &&& keys_unique(self.overridden)
        &&& forall|j: int|
            0 <= j < self.overridden.len() ==> {
                &&& (#[trigger] self.overridden[j]).1.len() > 0
                &&& has_key(self.definitions, self.overridden[j].0)
            }
    }

    /// The group `id` with element type `element_type`, unless `id` is already a group.
    pub open spec fn declare_group(self, id: Seq<char>, element_type: u64) -> RegistryModel {
        if has_key(self.groups, id) {
            self
        } else {
            RegistryModel {
                groups: self.groups.push((id, GroupCandidate { element_type })),
                ..self
            }
        }
    }

    /// `c` becomes the live definition of `id`; a definition it displaces is
    /// appended to the override log of `id`.
    pub open spec fn register(self, id: Seq<char>, c: CandidateModel) -> RegistryModel {
        let i = key_index(self.definitions, id);
        if i < 0 {
            RegistryModel { definitions: self.definitions.push((id, c)), ..self }
        } else {
            let displaced = self.definitions[i].1;
            let j = key_index(self.overridden, id);
            RegistryModel {
                definitions: self.definitions.update(i, (id, c)),
                overridden: if j < 0 {
                    self.overridden.push((id, seq![displaced]))
                } else {
                    self.overridden.update(j, (id, self.overridden[j].1.push(displaced)))
                },
                ..self
            }
        }
    }

    /// The live definition of `id`, if any.
    pub open spec fn definition(self, id: Seq<char>) -> Option<CandidateModel> {
        let i = key_index(self.definitions, id);
        if i < 0 { None } else { Some(self.definitions[i].1) }
    }

    /// The candidates displaced from `id`, oldest first.
    pub open spec fn displaced(self, id: Seq<char>) -> Seq<CandidateModel> {
        let j = key_index(self.overridden, id);
        if j < 0 { seq![] } else { self.overridden[j].1 }
    }

    /// The group `id`, if any.
    pub open spec fn group(self, id: Seq<char>) -> Option<GroupCandidate> {
        let i = key_index(self.groups, id);
        if i < 0 { None } else { Some(self.groups[i].1) }
    }
}

struct GroupEntry {
    id: String,
    candidate: GroupCandidate,
}

struct DefinitionEntry {
    id: String,
    candidate: DefinitionCandidate,
}

struct OverrideEntry {
    id: String,
    displaced: Vec<DefinitionCandidate>,
}

/// The tables of groups, live definitions and displaced definitions: what
/// the validators read.
pub struct SymbolTable {
    groups: Vec<GroupEntry>,
    definitions: Vec<DefinitionEntry>,
    overridden: Vec<OverrideEntry>,
}

/// The mutable symbol table of definitions and groups, with the validators
/// that `compile` runs over it.
pub struct Registry {
    pub(crate) table: SymbolTable,
    validators: Vec<Pass>,
}

pub open spec fn candidate_models(s: Seq<DefinitionCandidate>) -> Seq<CandidateModel> {
    s.map_values(|c: DefinitionCandidate| c@)
}

/// What compiling `r` may return: with `segments` what each pass appended,
/// in pipeline order, a container of each live definition's factory when no
/// pass appended anything, and otherwise everything appended, in order.
pub open spec fn compiled(r: RegistryModel, passes: Seq<Pass>, out: Result<Container, Vec<CompileError>>) -> bool {
    exists|segments: Seq<Seq<ErrorModel>>|
        {
            &&& pipeline_run(r, passes, segments)
            &&& match out {
                Ok(c) => {
                    &&& concat(segments).len() == 0
                    &&& c@ == factories_of(r.definitions)
                },
                Err(e) => {
                    &&& concat(segments).len() > 0
                    &&& error_models(e@) == concat(segments)
                },
            }
        }
}

impl View for Registry {
    type V = RegistryModel;

    closed spec fn view(&self) -> RegistryModel {
        self.table@
    }
}

impl View for SymbolTable {
    type V = RegistryModel;

    closed spec fn view(&self) -> RegistryModel {
        RegistryModel {
            groups: self.groups@.map_values(|e: GroupEntry| (e.id@, e.candidate)),
            definitions: self.definitions@.map_values(|e: DefinitionEntry| (e.id@, e.candidate@)),
            overridden: self.overridden@.map_values(
                |e: OverrideEntry| (e.id@, candidate_models(e.displaced@)),
            ),
        }
    }
}

impl Registry {
    /// The validator pipeline, in the order the passes run.
    pub closed spec fn passes(&self) -> Seq<Pass> {
        self.validators@
    }

    /// An empty registry whose pipeline holds the argument-count, override and
    /// dependency validators, in that order.
    pub fn new() -> (r: Registry)
        ensures
            r@.well_formed(),
            r@.groups.len() == 0,
            r@.definitions.len() == 0,
            r@.overridden.len() == 0,
            r.passes() == seq![Pass::ArgumentCount, Pass::NoOverrides, Pass::Dependencies],
    {
        let mut registry = Registry {
            table: SymbolTable { groups: Vec::new(), definitions: Vec::new(), overridden: Vec::new() },
            validators: Vec::new(),
        };
        registry.validators.push(Pass::ArgumentCount);
        registry.validators.push(Pass::NoOverrides);
        registry.validators.push(Pass::Dependencies);
        proof {
            assert(registry@.groups =~= Seq::empty());
            assert(registry@.definitions =~= Seq::empty());
            assert(registry@.overridden =~= Seq::empty());
            assert(registry.validators@ =~= seq![Pass::ArgumentCount, Pass::NoOverrides, Pass::Dependencies]);
        }
        registry
    }

    /// Appends a caller-supplied pass to the pipeline; it runs after every
    /// pass already there.
    pub fn push_validator<T: Validator + 'static>(&mut self, validator: T)
        ensures
            final(self)@ == old(self)@,
            final(self).passes().len() == old(self).passes().len() + 1,
            final(self).passes().subrange(0, old(self).passes().len() as int) == old(self).passes(),
            final(self).passes().last() is Custom,
    {
        let pass: Box<dyn Validator> = Box::new(validator);
        let entry = Pass::Custom(pass);
        let ghost added = entry;
        self.validators.push(entry);
        proof {
            assert(self.passes() == old(self).passes().push(added));
            lemma_push_pass(old(self).passes(), added);
        }
    }

    pub(crate) fn define_group_if_not_exists(&mut self, id: String, element_type: u64)
        requires
            old(self)@.well_formed(),
        ensures
            final(self)@ == old(self)@.declare_group(id@, element_type),
            final(self)@.well_formed(),
            final(self).passes() == old(self).passes(),
    {
        self.table.define_group_if_not_exists(id, element_type);
    }

    pub(crate) fn finalize(&mut self, collection_id: Option<String>, id: String, factory: Factory, args: Vec<String>)
        requires
            old(self)@.well_formed(),
        ensures
            final(self)@ == old(self)@.register(
                id@,
                CandidateModel {
                    factory,
                    arg_sources: args.deep_view(),
                    owning_group: collection_id.deep_view(),
                },
            ),
            final(self)@.well_formed(),
            final(self).passes() == old(self).passes(),
    {
        self.table.finalize(collection_id, id, factory, args);
    }

    /// Runs every validator, in pipeline order, over the registry. With no
    /// diagnostic the result is a container of each live definition's factory;
    /// otherwise it is every diagnostic, in order.
    pub fn compile(&self) -> (r: Result<Container, Vec<CompileError>>)
        ensures
            compiled(self@, self.passes(), r),
    {
        let mut errors: Vec<CompileError> = Vec::new();
        let ghost mut segments: Seq<Seq<ErrorModel>> = seq![];
        let mut i: usize = 0;
        proof {
            assert(error_models(errors@) =~= seq![]);
        }
        while i < self.validators.len()
            invariant
                i <= self.validators.len(),
                segments.len() == i,
                forall|k: int| 0 <= k < i ==> pass_reports(self.validators@[k], self@, #[trigger] segments[k]),
                error_models(errors@) == concat(segments),
            decreases self.validators.len() - i,
        {
            let ghost before = errors@;
            match &self.validators[i] {
                Pass::ArgumentCount => ArgumentCountValidator.validate(&self.table, &mut errors),
                Pass::NoOverrides => NoOverridesValidator.validate(&self.table, &mut errors),
                Pass::Dependencies => DependencyValidator.validate(&self.table, &mut errors),
                Pass::Custom(v) => v.validate(&self.table, &mut errors),
            }
            let ghost added = error_models(errors@.subrange(before.len() as int, errors@.len() as int));
            proof {
                assert(errors@ =~= before + errors@.subrange(before.len() as int, errors@.len() as int));
                assert(error_models(errors@) =~= error_models(before) + added);
                let prev = segments;
                segments = segments.push(added);
                assert(segments.drop_last() =~= prev);
            }
            i = i + 1;
        }
        proof {
            assert(pipeline_run(self@, self.passes(), segments));
        }
        if errors.len() == 0 {
            let mut factories: Vec<(String, Factory)> = Vec::new();
            let mut k: usize = 0;
            let ghost target = factories_of(self@.definitions);
            while k < self.table.definitions.len()
                invariant
                    k <= self.table.definitions.len(),
                    target == factories_of(self@.definitions),
                    factories@.len() == k,
                    target.len() == self.table.definitions@.len(),
                    entry_models(factories@) == target.take(k as int),
                decreases self.table.definitions.len() - k,
            {
                let entry = &self.table.definitions[k];
                factories.push((entry.id.clone(), entry.candidate.factory));
                proof {
                    assert(target[k as int] == (entry.id@, entry.candidate.factory));
                    assert(entry_models(factories@) =~= target.take(k + 1));
                }
                k = k + 1;
            }
            proof {
                assert(target.take(k as int) =~= target);
            }
            Ok(Container::from_entries(factories))
        } else {
            Err(errors)
        }
    }

    /// Declares the group `collection_id`, collecting members of type
    /// `element_type`, unless it is already known.
    pub fn has_many(&mut self, collection_id: &str, element_type: u64)
        requires
            old(self)@.well_formed(),
        ensures
            final(self)@ == old(self)@.declare_group(collection_id@, element_type),
            final(self)@.well_formed(),
            final(self).passes() == old(self).passes(),
    {
        self.table.define_group_if_not_exists(collection_id.to_owned(), element_type);
    }

    /// Starts a member `id` of group `collection_id`. Nothing is registered,
    /// not even the group, until the builder's `insert`.
    pub fn one_of<'r>(&'r mut self, collection_id: &str, id: &str, value: Factory) -> (b: OneOf<'r>)
        ensures
            *b.registry == *old(self),
            *final(b.registry) == *final(self),
            b.collection_id@ == collection_id@,
            b.id@ == id@,
            b.factory == value,
            b.args@.len() == 0,
    {
        OneOf::begin(self, collection_id, id, value)
    }

    /// Starts a definition `id`.
    pub fn one<'r>(&'r mut self, id: &str, value: Factory) -> (b: One<'r>)
        ensures
            *b.registry == *old(self),
            *final(b.registry) == *final(self),
            b.id@ == id@,
            b.factory == value,
            b.args@.len() == 0,
    {
        One::begin(self, id, value)
    }

    /// Registers `id` with no argument sources.
    pub fn insert_one(&mut self, id: &str, value: Factory)
        requires
            old(self)@.well_formed(),
        ensures
            final(self)@ == old(self)@.register(
                id@,
                CandidateModel { factory: value, arg_sources: seq![], owning_group: None },
            ),
            final(self)@.well_formed(),
            final(self).passes() == old(self).passes(),
    {
        let args: Vec<String> = Vec::new();
        proof {
            assert(args.deep_view() =~= seq![]);
        }
        self.table.finalize(None, id.to_owned(), value, args);
    }

    /// Registers `id` with the argument sources `arg_sources`.
    pub fn insert_with_args_one(&mut self, id: &str, arg_sources: &[&str], value: Factory)
        requires
            old(self)@.well_formed(),
        ensures
            final(self)@ == old(self)@.register(
                id@,
                CandidateModel { factory: value, arg_sources: arg_sources.deep_view(), owning_group: None },
            ),
            final(self)@.well_formed(),
            final(self).passes() == old(self).passes(),
    {
        self.table.finalize(None, id.to_owned(), value, owned_sources(arg_sources));
    }

    /// Registers `id` with the single argument source `arg_source`.
    pub fn insert_with_arg_one(&mut self, id: &str, arg_source: &str, value: Factory)
        requires
            old(self)@.well_formed(),
        ensures
            final(self)@ == old(self)@.register(
                id@,
                CandidateModel { factory: value, arg_sources: seq![arg_source@], owning_group: None },
            ),
            final(self)@.well_formed(),
            final(self).passes() == old(self).passes(),
    {
        self.table.finalize(None, id.to_owned(), value, single_source(arg_source));
    }

    /// Registers `id` as a member of group `collection_id`, declaring the group
    /// from the factory's produced type unless it is already known.
    pub fn insert_one_of(&mut self, collection_id: &str, id: &str, value: Factory)
        requires
            old(self)@.well_formed(),
        ensures
            final(self)@ == old(self)@.declare_group(collection_id@, value.produced_type).register(
                id@,
                CandidateModel { factory: value, arg_sources: seq![], owning_group: Some(collection_id@) },
            ),
            final(self)@.well_formed(),
            final(self).passes() == old(self).passes(),
    {
        let args: Vec<String> = Vec::new();
        proof {
            assert(args.deep_view() =~= seq![]);
        }
        self.table.define_group_if_not_exists(collection_id.to_owned(), value.produced_type);
        self.table.finalize(Some(collection_id.to_owned()), id.to_owned(), value, args);
    }

    /// As `insert_one_of`, with the argument sources `arg_sources`.
    pub fn insert_with_args_one_of(&mut self, collection_id: &str, id: &str, arg_sources: &[&str], value: Factory)
        requires
            old(self)@.well_formed(),
        ensures
            final(self)@ == old(self)@.declare_group(collection_id@, value.produced_type).register(
                id@,
                CandidateModel {
                    factory: value,
                    arg_sources: arg_sources.deep_view(),
                    owning_group: Some(collection_id@),
                },
            ),
            final(self)@.well_formed(),
            final(self).passes() == old(self).passes(),
    {
        self.table.define_group_if_not_exists(collection_id.to_owned(), value.produced_type);
        self.table.finalize(Some(collection_id.to_owned()), id.to_owned(), value, owned_sources(arg_sources));
    }

    /// As `insert_one_of`, with the single argument source `arg_source`.
    pub fn insert_with_arg_one_of(&mut self, collection_id: &str, id: &str, arg_source: &str, value: Factory)
        requires
            old(self)@.well_formed(),
        ensures
            final(self)@ == old(self)@.declare_group(collection_id@, value.produced_type).register(
                id@,
                CandidateModel {
                    factory: value,
                    arg_sources: seq![arg_source@],
                    owning_group: Some(collection_id@),
                },
            ),
            final(self)@.well_formed(),
            final(self).passes() == old(self).passes(),
    {
        self.table.define_group_if_not_exists(collection_id.to_owned(), value.produced_type);
        self.table.finalize(Some(collection_id.to_owned()), id.to_owned(), value, single_source(arg_source));
    }

    /// The live definition of `id`, if any.
    pub fn definition(&self, id: &str) -> (r: Option<&DefinitionCandidate>)
        requires
            self@.well_formed(),
        ensures
            match r {
                Some(c) => self@.definition(id@) == Some(c@),
                None => self@.definition(id@) is None,
            },
    {
        let key = id.to_owned();
        match self.table.find_definition(&key) {
            Some(i) => {
                proof {
                    lemma_key_index_unique(self@.definitions, i as int);
                }
                Some(&self.table.definitions[i].candidate)
            },
            None => {
                proof {
                    lemma_key_index(self@.definitions, id@);
                }
                None
            },
        }
    }

    /// The candidates displaced from `id`, oldest first; empty where none was.
    pub fn displaced(&self, id: &str) -> (r: &[DefinitionCandidate])
        requires
            self@.well_formed(),
        ensures
            candidate_models(r@) == self@.displaced(id@),
    {
        let key = id.to_owned();
        match self.table.find_overridden(&key) {
            Some(i) => {
                proof {
                    lemma_key_index_unique(self@.overridden, i as int);
                }
                self.table.overridden[i].displaced.as_slice()
            },
            None => {
                proof {
                    lemma_key_index(self@.overridden, id@);
                    assert(candidate_models(Seq::<DefinitionCandidate>::empty()) =~= seq![]);
                }
                &[]
            },
        }
    }

    /// The group `id`, if any.
    pub fn group(&self, id: &str) -> (r: Option<GroupCandidate>)
        requires
            self@.well_formed(),
        ensures
            r == self@.group(id@),
    {
        let key = id.to_owned();
        match self.table.find_group(&key) {
            Some(i) => {
                proof {
                    lemma_key_index_unique(self@.groups, i as int);
                }
                Some(self.table.groups[i].candidate)
            },
            None => {
                proof {
                    lemma_key_index(self@.groups, id@);
                }
                None
            },
        }
    }

    /// The number of declared groups.
    pub fn group_count(&self) -> (r: usize)
        ensures
            r == self@.groups.len(),
    {
        self.table.groups.len()
    }

    /// The number of live definitions.
    pub fn definition_count(&self) -> (r: usize)
        ensures
            r == self@.definitions.len(),
    {
        self.table.definitions.len()
    }
}

impl SymbolTable {
    fn find_group(&self, id: &String) -> (r: Option<usize>)
        ensures
            match r {
                Some(i) => i < self@.groups.len() && self@.groups[i as int].0 == id@,
                None => !has_key(self@.groups, id@),
            },
    {
        let mut i: usize = 0;
        while i < self.groups.len()
            invariant
                i <= self.groups.len(),
                forall|k: int| 0 <= k < i ==> self@.groups[k].0 != id@,
            decreases self.groups.len() - i,
        {
            if self.groups[i].id == *id {
                return Some(i);
            }
            i = i + 1;
        }
        None
    }

    fn find_definition(&self, id: &String) -> (r: Option<usize>)
        ensures
            match r {
                Some(i) => i < self@.definitions.len() && self@.definitions[i as int].0 == id@,
                None => !has_key(self@.definitions, id@),
            },
    {
        let mut i: usize = 0;
        while i < self.definitions.len()
            invariant
                i <= self.definitions.len(),
                forall|k: int| 0 <= k < i ==> self@.definitions[k].0 != id@,
            decreases self.definitions.len() - i,
        {
            if self.definitions[i].id == *id {
                return Some(i);
            }
            i = i + 1;
        }
        None
    }

    fn find_overridden(&self, id: &String) -> (r: Option<usize>)
        ensures
            match r {
                Some(i) => i < self@.overridden.len() && self@.overridden[i as int].0 == id@,
                None => !has_key(self@.overridden, id@),
            },
    {
        let mut i: usize = 0;
        while i < self.overridden.len()
            invariant
                i <= self.overridden.len(),
                forall|k: int| 0 <= k < i ==> self@.overridden[k].0 != id@,
            decreases self.overridden.len() - i,
        {
            if self.overridden[i].id == *id {
                return Some(i);
            }
            i = i + 1;
        }
        None
    }

    /// Declares the group `id` unless it is already known.
    pub(crate) fn define_group_if_not_exists(&mut self, id: String, element_type: u64)
        requires
            old(self)@.well_formed(),
        ensures
            final(self)@ == old(self)@.declare_group(id@, element_type),
            final(self)@.well_formed(),
    {
        match self.find_group(&id) {
            Some(_) => {},
            None => {
                self.groups.push(GroupEntry { id, candidate: GroupCandidate { element_type } });
                proof {
                    let m = old(self)@.declare_group(id@, element_type);
                    assert(self@.groups =~= m.groups);
                    assert(self@.definitions =~= m.definitions);
                    assert(self@.overridden =~= m.overridden);
                }
            },
        }
    }

    /// Installs a new live definition of `id`, moving the one it displaces,
    /// if any, into the override log.
    pub(crate) fn finalize(
        &mut self,
        collection_id: Option<String>,
        id: String,
        factory: Factory,
        args: Vec<String>,
    )
        requires
            old(self)@.well_formed(),
        ensures
            final(self)@ == old(self)@.register(
                id@,
                CandidateModel {
                    factory,
                    arg_sources: args.deep_view(),
                    owning_group: collection_id.deep_view(),
                },
            ),
            final(self)@.well_formed(),
    {
        let ghost c = CandidateModel {
            factory,
            arg_sources: args.deep_view(),
            owning_group: collection_id.deep_view(),
        };
        let ghost target = old(self)@.register(id@, c);
        let candidate = DefinitionCandidate::new(factory, args, collection_id);
        assert(candidate@ == c);
        match self.find_definition(&id) {
            None => {
                proof {
                    lemma_key_index(old(self)@.definitions, id@);
                }
                self.definitions.push(DefinitionEntry { id, candidate });
                proof {
                    assert(self@.definitions =~= target.definitions);
                    assert(self@.groups =~= target.groups);
                    assert(self@.overridden =~= target.overridden);
                    assert forall|j: int| 0 <= j < self@.overridden.len() implies
                        has_key(self@.definitions, #[trigger] self@.overridden[j].0) by {
                        assert(old(self)@.overridden[j] == self@.overridden[j]);
                        let k = choose|k: int| 0 <= k < old(self)@.definitions.len()
                            && #[trigger] old(self)@.definitions[k].0 == self@.overridden[j].0;
                        assert(self@.definitions[k].0 == self@.overridden[j].0);
                    }
                }
            },
            Some(i) => {
                proof {
                    lemma_key_index_unique(old(self)@.definitions, i as int);
                }
                let old_entry = self.definitions.remove(i);
                let ghost displaced = old_entry.candidate@;
                self.definitions.insert(i, DefinitionEntry { id: old_entry.id, candidate });
                proof {
                    assert(self@.definitions =~= target.definitions);
                }
                match self.find_overridden(&id) {
                    None => {
                        proof {
                            lemma_key_index(old(self)@.overridden, id@);
                        }
                        let mut log: Vec<DefinitionCandidate> = Vec::new();
                        log.push(old_entry.candidate);
                        self.overridden.push(OverrideEntry { id, displaced: log });
                        proof {
                            assert(candidate_models(log@) =~= seq![displaced]);
                            assert(self@.overridden =~= target.overridden);
                        }
                    },
                    Some(j) => {
                        proof {
                            lemma_key_index_unique(old(self)@.overridden, j as int);
                        }
                        let mut entry = self.overridden.remove(j);
                        let ghost before = entry.displaced@;
                        entry.displaced.push(old_entry.candidate);
                        proof {
                            assert(candidate_models(entry.displaced@) =~= candidate_models(before).push(displaced));
                        }
                        self.overridden.insert(j, entry);
                        proof {
                            assert(self@.overridden =~= target.overridden);
                        }
                    },
                }
                proof {
                    assert(self@.groups =~= target.groups);
                    assert(self@ == target);
                    assert forall|a: int, b: int|
                        0 <= a < self@.definitions.len() && 0 <= b < self@.definitions.len() && a != b
                        implies self@.definitions[a].0 != self@.definitions[b].0 by {
                        assert(old(self)@.definitions[a].0 == self@.definitions[a].0);
                        assert(old(self)@.definitions[b].0 == self@.definitions[b].0);
                    }
                    assert forall|j: int| 0 <= j < self@.overridden.len() implies
                        has_key(self@.definitions, #[trigger] self@.overridden[j].0) by {
                        if self@.overridden[j].0 == id@ {
                            assert(self@.definitions[i as int].0 == id@);
                        } else {
                            if j < old(self)@.overridden.len() {
                                assert(old(self)@.overridden[j] == self@.overridden[j]);
                            }
                            let k = choose|k: int| 0 <= k < old(self)@.definitions.len()
                                && #[trigger] old(self)@.definitions[k].0 == self@.overridden[j].0;
                            assert(self@.definitions[k].0 == self@.overridden[j].0);
                        }
                    }
                }
            },
        }
    }

    /// Appends the argument-count diagnostics.
    pub(crate) fn check_argument_count(&self, errors: &mut Vec<CompileError>)
        ensures
            error_models(final(errors)@) == error_models(old(errors)@) + arity_errors(self@.definitions),
            old(errors)@.len() <= final(errors)@.len(),
            final(errors)@.subrange(0, old(errors)@.len() as int) == old(errors)@,
    {
        let ghost defs = self@.definitions;
        let mut i: usize = 0;
        while i < self.definitions.len()
            invariant
                i <= self.definitions.len(),
                defs == self@.definitions,
                error_models(errors@) == error_models(old(errors)@) + arity_errors(defs.take(i as int)),
                old(errors)@.len() <= errors@.len(),
                errors@.subrange(0, old(errors)@.len() as int) == old(errors)@,
            decreases self.definitions.len() - i,
        {
            let entry = &self.definitions[i];
            let ghost before = errors@;
            proof {
                assert(defs.take(i + 1).drop_last() =~= defs.take(i as int));
                assert(defs.take(i + 1).last() == defs[i as int]);
            }
            let declared = entry.candidate.arg_sources.len();
            let required = entry.candidate.factory.arity;
            if declared != required {
                errors.push(CompileError::ArityMismatch { id: entry.id.clone(), declared, required });
                proof {
                    assert(error_models(errors@) =~= error_models(before).push(errors@.last()@));
                }
            }
            proof {
                let e = arity_error_of(defs[i as int].0, defs[i as int].1);
                assert(error_models(errors@) =~= error_models(old(errors)@) + arity_errors(defs.take(i as int)) + e);
            }
            proof {
                assert(errors@.subrange(0, old(errors)@.len() as int) =~= old(errors)@);
            }
            i = i + 1;
        }
        proof {
            assert(defs.take(i as int) =~= defs);
        }
    }

    /// Appends one diagnostic per identifier of the override log.
    pub(crate) fn check_overrides(&self, errors: &mut Vec<CompileError>)
        ensures
            error_models(final(errors)@) == error_models(old(errors)@) + override_errors(self@.overridden),
            old(errors)@.len() <= final(errors)@.len(),
            final(errors)@.subrange(0, old(errors)@.len() as int) == old(errors)@,
    {
        let ghost log = self@.overridden;
        let mut i: usize = 0;
        while i < self.overridden.len()
            invariant
                i <= self.overridden.len(),
                log == self@.overridden,
                error_models(errors@) == error_models(old(errors)@) + override_errors(log.take(i as int)),
                old(errors)@.len() <= errors@.len(),
                errors@.subrange(0, old(errors)@.len() as int) == old(errors)@,
            decreases self.overridden.len() - i,
        {
            let entry = &self.overridden[i];
            let ghost before = errors@;
            proof {
                assert(log.take(i + 1).drop_last() =~= log.take(i as int));
                assert(log.take(i + 1).last() == log[i as int]);
            }
            errors.push(CompileError::SilentOverride { id: entry.id.clone(), count: entry.displaced.len() });
            proof {
                assert(error_models(errors@) =~= error_models(before).push(errors@.last()@));
                assert(error_models(errors@) =~= error_models(old(errors)@) + override_errors(log.take(i + 1)));
            }
            proof {
                assert(errors@.subrange(0, old(errors)@.len() as int) =~= old(errors)@);
            }
            i = i + 1;
        }
        proof {
            assert(log.take(i as int) =~= log);
        }
    }

    /// Appends one diagnostic per argument source of definition `index` that
    /// names neither a definition nor a group.
    fn check_sources_of(&self, index: usize, errors: &mut Vec<CompileError>)
        requires
            index < self@.definitions.len(),
        ensures
            error_models(final(errors)@) == error_models(old(errors)@) + missing_sources(
                self@,
                self@.definitions[index as int].0,
                self@.definitions[index as int].1.arg_sources,
            ),
            old(errors)@.len() <= final(errors)@.len(),
            final(errors)@.subrange(0, old(errors)@.len() as int) == old(errors)@,
    {
        let entry = &self.definitions[index];
        let ghost id = self@.definitions[index as int].0;
        let ghost args = self@.definitions[index as int].1.arg_sources;
        let mut k: usize = 0;
        while k < entry.candidate.arg_sources.len()
            invariant
                k <= entry.candidate.arg_sources.len(),
                args == entry.candidate.arg_sources.deep_view(),
                id == entry.id@,
                error_models(errors@) == error_models(old(errors)@) + missing_sources(self@, id, args.take(k as int)),
                old(errors)@.len() <= errors@.len(),
                errors@.subrange(0, old(errors)@.len() as int) == old(errors)@,
            decreases entry.candidate.arg_sources.len() - k,
        {
            let source = &entry.candidate.arg_sources[k];
            let ghost before = errors@;
            proof {
                assert(args.take(k + 1).drop_last() =~= args.take(k as int));
                assert(args.take(k + 1).last() == source@);
            }
            let known = self.find_definition(source).is_some() || self.find_group(source).is_some();
            if !known {
                errors.push(CompileError::UnresolvedDependency { id: entry.id.clone(), missing: source.clone() });
                proof {
                    assert(error_models(errors@) =~= error_models(before).push(errors@.last()@));
                }
            }
            proof {
                assert(known == resolvable(self@, source@));
                assert(error_models(errors@) =~= error_models(old(errors)@) + missing_sources(self@, id, args.take(k + 1)));
            }
            proof {
                assert(errors@.subrange(0, old(errors)@.len() as int) =~= old(errors)@);
            }
            k = k + 1;
        }
        proof {
            assert(args.take(k as int) =~= args);
        }
    }

    /// Appends the dependency diagnostics.
    pub(crate) fn check_dependencies(&self, errors: &mut Vec<CompileError>)
        ensures
            error_models(final(errors)@) == error_models(old(errors)@) + dependency_errors(self@, self@.definitions),
            old(errors)@.len() <= final(errors)@.len(),
            final(errors)@.subrange(0, old(errors)@.len() as int) == old(errors)@,
    {
        let ghost defs = self@.definitions;
        let mut i: usize = 0;
        while i < self.definitions.len()
            invariant
                i <= self.definitions.len(),
                defs == self@.definitions,
                error_models(errors@) == error_models(old(errors)@) + dependency_errors(self@, defs.take(i as int)),
                old(errors)@.len() <= errors@.len(),
                errors@.subrange(0, old(errors)@.len() as int) == old(errors)@,
            decreases self.definitions.len() - i,
        {
            let ghost before = errors@;
            proof {
                assert(defs.take(i + 1).drop_last() =~= defs.take(i as int));
                assert(defs.take(i + 1).last() == defs[i as int]);
            }
            self.check_sources_of(i, errors);
            proof {
                assert(error_models(errors@) =~= error_models(old(errors)@) + dependency_errors(self@, defs.take(i + 1)));
            }
            proof {
                assert(errors@.subrange(0, old(errors)@.len() as int) =~= old(errors)@);
            }
            i = i + 1;
        }
        proof {
            assert(defs.take(i as int) =~= defs);
        }
    }
}

/// Owned copies of `ids`, in order.
fn owned_sources(ids: &[&str]) -> (r: Vec<String>)
    ensures
        r.deep_view() == ids.deep_view(),
{
    let mut r: Vec<String> = Vec::new();
    let mut i: usize = 0;
    while i < ids.len()
        invariant
            i <= ids.len(),
            r@.len() == i,
            r.deep_view() == ids.deep_view().take(i as int),
        decreases ids.len() - i,
    {
        let ghost prev = r@;
        let item: &str = ids[i];
        let owned = item.to_owned();
        r.push(owned);
        proof {
            assert(ids.deep_view()[i as int] == item@);
            assert(r@ == prev.push(owned));
            assert(r.deep_view()[i as int] == owned@);
            assert(r.deep_view() =~= ids.deep_view().take(i + 1));
        }
        i = i + 1;
    }
    proof {
        assert(ids.deep_view().take(i as int) =~= ids.deep_view());
    }
    r
}

/// A one-element list holding an owned copy of `id`.
fn single_source(id: &str) -> (r: Vec<String>)
    ensures
        r.deep_view() == seq![id@],
{
    let mut r: Vec<String> = Vec::new();
    r.push(id.to_owned());
    proof {
        assert(r.deep_view() =~= seq![id@]);
    }
    r
}

} // verus!
