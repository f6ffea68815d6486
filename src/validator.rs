use vstd::prelude::*;

use crate::candidate::CandidateModel;
use crate::error::{error_models, CompileError, ErrorModel};
use crate::keyed::has_key;
use crate::registry::{RegistryModel, SymbolTable};

verus! {

/// The diagnostic, if any, for definition `id` whose argument count differs from its factory's arity.
pub open spec fn arity_error_of(id: Seq<char>, c: CandidateModel) -> Seq<ErrorModel> {
    if c.arg_sources.len() == c.factory.arity {
        seq![]
    } else {
        seq![ErrorModel::ArityMismatch { id, declared: c.arg_sources.len(), required: c.factory.arity as nat }]
    }
}

/// What the argument-count validator reports, definition by definition.
pub open spec fn arity_errors(defs: Seq<(Seq<char>, CandidateModel)>) -> Seq<ErrorModel>
    decreases defs.len(),
{
    if defs.len() == 0 {
        seq![]
    } else {
        arity_errors(defs.drop_last()) + arity_error_of(defs.last().0, defs.last().1)
    }
}

/// What the override validator reports: one diagnostic per entry of the override log.
pub open spec fn override_errors(log: Seq<(Seq<char>, Seq<CandidateModel>)>) -> Seq<ErrorModel>
    decreases log.len(),
{
    if log.len() == 0 {
        seq![]
    } else {
        override_errors(log.drop_last()).push(
            ErrorModel::SilentOverride { id: log.last().0, count: log.last().1.len() },
        )
    }
}

/// `k` names a live definition or a group of `r`.
pub open spec fn resolvable(r: RegistryModel, k: Seq<char>) -> bool {
    has_key(r.definitions, k) || has_key(r.groups, k)
}

/// One diagnostic for each of `args`, in order, that `r` cannot resolve.
pub open spec fn missing_sources(r: RegistryModel, id: Seq<char>, args: Seq<Seq<char>>) -> Seq<ErrorModel>
    decreases args.len(),
{
    if args.len() == 0 {
        seq![]
    } else if resolvable(r, args.last()) {
        missing_sources(r, id, args.drop_last())
    } else {
        missing_sources(r, id, args.drop_last()).push(
            ErrorModel::UnresolvedDependency { id, missing: args.last() },
        )
    }
}

/// What the dependency validator reports for `defs`, definition by definition.
pub open spec fn dependency_errors(r: RegistryModel, defs: Seq<(Seq<char>, CandidateModel)>) -> Seq<ErrorModel>
    decreases defs.len(),
{
    if defs.len() == 0 {
        seq![]
    } else {
        dependency_errors(r, defs.drop_last()) + missing_sources(r, defs.last().0, defs.last().1.arg_sources)
    }
}

/// A static-analysis pass over the whole registry. It may only append
/// diagnostics, and `reports` says what it appends for a registry.
pub trait Validator {
    /// Holds when `added` is what this pass appends for `r`. A pass that
    /// does not say otherwise may append anything.
    open spec fn reports(&self, r: RegistryModel, added: Seq<ErrorModel>) -> bool {
        true
    }

    fn validate(&self, registry: &SymbolTable, errors: &mut Vec<CompileError>)
        ensures
            old(errors)@.len() <= final(errors)@.len(),
            final(errors)@.subrange(0, old(errors)@.len() as int) == old(errors)@,
            self.reports(
                registry@,
                error_models(final(errors)@.subrange(old(errors)@.len() as int, final(errors)@.len() as int)),
            ),
    ;
}

/// Each definition lists as many argument sources as its factory requires.
pub struct ArgumentCountValidator;

/// No identifier has displaced definitions.
pub struct NoOverridesValidator;

/// Each argument source names a live definition or a group.
pub struct DependencyValidator;

/// What a built-in pass appended, given that it kept `before` as a prefix.
proof fn lemma_appended(before: Seq<CompileError>, errors: Seq<CompileError>, added: Seq<ErrorModel>)
    requires
        before.len() <= errors.len(),
        errors.subrange(0, before.len() as int) == before,
        error_models(errors) == error_models(before) + added,
    ensures
        error_models(errors.subrange(before.len() as int, errors.len() as int)) == added,
{
    assert(error_models(errors).len() == errors.len());
    assert(error_models(errors.subrange(before.len() as int, errors.len() as int)) =~= added) by {
        assert forall|k: int| 0 <= k < added.len() implies
            #[trigger] added[k] == errors[before.len() + k]@ by {
            assert(error_models(errors)[before.len() + k] == errors[before.len() + k]@);
        }
    }
}

impl Validator for ArgumentCountValidator {
    open spec fn reports(&self, r: RegistryModel, added: Seq<ErrorModel>) -> bool {
        added == arity_errors(r.definitions)
    }

    fn validate(&self, registry: &SymbolTable, errors: &mut Vec<CompileError>) {
        registry.check_argument_count(errors);
        proof { lemma_appended(old(errors)@, errors@, arity_errors(registry@.definitions)); }
    }
}

impl Validator for NoOverridesValidator {
    open spec fn reports(&self, r: RegistryModel, added: Seq<ErrorModel>) -> bool {
        added == override_errors(r.overridden)
    }

    fn validate(&self, registry: &SymbolTable, errors: &mut Vec<CompileError>) {
        registry.check_overrides(errors);
        proof { lemma_appended(old(errors)@, errors@, override_errors(registry@.overridden)); }
    }
}

impl Validator for DependencyValidator {
    open spec fn reports(&self, r: RegistryModel, added: Seq<ErrorModel>) -> bool {
        added == dependency_errors(r, r.definitions)
    }

    fn validate(&self, registry: &SymbolTable, errors: &mut Vec<CompileError>) {
        registry.check_dependencies(errors);
        proof { lemma_appended(old(errors)@, errors@, dependency_errors(registry@, registry@.definitions)); }
    }
}

/// One entry of a registry's pipeline: a built-in pass, or one a caller supplied.
pub enum Pass {
    ArgumentCount,
    NoOverrides,
    Dependencies,
    Custom(Box<dyn Validator>),
}

/// Holds when `added` is what pass `p` appends for `r`: exactly the built-in
/// diagnostics, or what a caller's pass says of itself.
pub open spec fn pass_reports(p: Pass, r: RegistryModel, added: Seq<ErrorModel>) -> bool {
    match p {
        Pass::ArgumentCount => added == arity_errors(r.definitions),
        Pass::NoOverrides => added == override_errors(r.overridden),
        Pass::Dependencies => added == dependency_errors(r, r.definitions),
        Pass::Custom(v) => v.reports(r, added),
    }
}

/// The parts of `segments`, joined in order.
pub open spec fn concat(segments: Seq<Seq<ErrorModel>>) -> Seq<ErrorModel>
    decreases segments.len(),
{
    if segments.len() == 0 {
        seq![]
    } else {
        concat(segments.drop_last()) + segments.last()
    }
}

/// `segments` holds, pass by pass in order, what each of `passes` appended for `r`.
pub open spec fn pipeline_run(r: RegistryModel, passes: Seq<Pass>, segments: Seq<Seq<ErrorModel>>) -> bool {
    &&& segments.len() == passes.len()
    &&& forall|i: int| 0 <= i < segments.len() ==> pass_reports(passes[i], r, #[trigger] segments[i])
}

/// Each of `passes` appends one determined sequence for `r`.
pub open spec fn deterministic_passes(r: RegistryModel, passes: Seq<Pass>) -> bool {
    forall|i: int, a: Seq<ErrorModel>, b: Seq<ErrorModel>|
        #![trigger pass_reports(passes[i], r, a), pass_reports(passes[i], r, b)]
        0 <= i < passes.len() && pass_reports(passes[i], r, a)
            && pass_reports(passes[i], r, b) ==> a == b
}

} // verus!

verus! {

/// Appending a pass keeps the passes before it.
pub proof fn lemma_push_pass(s: Seq<Pass>, p: Pass)
    ensures
        s.push(p).len() == s.len() + 1,
        s.push(p).subrange(0, s.len() as int) == s,
        s.push(p).last() == p,
{
    assert(s.push(p).subrange(0, s.len() as int) =~= s);
}

} // verus!
