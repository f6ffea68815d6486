use vstd::prelude::*;

use crate::candidate::{CandidateModel, GroupCandidate};
use crate::container::Container;
use crate::error::{error_models, CompileError, ErrorModel};
use crate::keyed::{has_key, keys_unique, key_index, lemma_key_index, lemma_key_index_unique};
use crate::registry::{compiled, RegistryModel};
use crate::validator::{concat, deterministic_passes, pass_reports, pipeline_run, resolvable, Pass};

verus! {

/// After `register(id, c)`, `c` is the live definition of `id`, and the table
/// of groups is untouched.
pub proof fn lemma_register_installs(r: RegistryModel, id: Seq<char>, c: CandidateModel)
    requires
        r.well_formed(),
    ensures
        r.register(id, c).definition(id) == Some(c),
        r.register(id, c).groups == r.groups,
{
    let n = r.register(id, c);
    lemma_key_index(r.definitions, id);
    let i = key_index(r.definitions, id);
    if i < 0 {
        assert(n.definitions == r.definitions.push((id, c)));
    } else {
        assert(keys_unique(n.definitions)) by {
            assert forall|a: int, b: int|
                0 <= a < n.definitions.len() && 0 <= b < n.definitions.len() && a != b
                implies n.definitions[a].0 != n.definitions[b].0 by {
                assert(n.definitions[a].0 == r.definitions[a].0);
                assert(n.definitions[b].0 == r.definitions[b].0);
            }
        }
        lemma_key_index_unique(n.definitions, i);
    }
}

/// Registering keeps a registry well formed.
pub proof fn lemma_register_well_formed(r: RegistryModel, id: Seq<char>, c: CandidateModel)
    requires
        r.well_formed(),
    ensures
        r.register(id, c).well_formed(),
{
    let n = r.register(id, c);
    lemma_key_index(r.definitions, id);
    lemma_key_index(r.overridden, id);
    let i = key_index(r.definitions, id);
    if i < 0 {
        assert(n.definitions == r.definitions.push((id, c)));
        assert forall|a: int, b: int|
            0 <= a < n.definitions.len() && 0 <= b < n.definitions.len() && a != b
            implies n.definitions[a].0 != n.definitions[b].0 by {
            if a < r.definitions.len() {
                assert(n.definitions[a] == r.definitions[a]);
            }
            if b < r.definitions.len() {
                assert(n.definitions[b] == r.definitions[b]);
            }
        }
        assert forall|j: int| 0 <= j < n.overridden.len() implies
            has_key(n.definitions, #[trigger] n.overridden[j].0) by {
            assert(r.overridden[j] == n.overridden[j]);
            let k = choose|k: int| 0 <= k < r.definitions.len()
                && #[trigger] r.definitions[k].0 == r.overridden[j].0;
            assert(n.definitions[k].0 == r.overridden[j].0);
        }
    } else {
        assert forall|a: int, b: int|
            0 <= a < n.definitions.len() && 0 <= b < n.definitions.len() && a != b
            implies n.definitions[a].0 != n.definitions[b].0 by {
            assert(n.definitions[a].0 == r.definitions[a].0);
            assert(n.definitions[b].0 == r.definitions[b].0);
        }
        let j = key_index(r.overridden, id);
        assert forall|a: int, b: int|
            0 <= a < n.overridden.len() && 0 <= b < n.overridden.len() && a != b
            implies n.overridden[a].0 != n.overridden[b].0 by {
            if a < r.overridden.len() {
                assert(n.overridden[a].0 == r.overridden[a].0);
            }
            if b < r.overridden.len() {
                assert(n.overridden[b].0 == r.overridden[b].0);
            }
        }
        assert forall|k: int| 0 <= k < n.overridden.len() implies {
            &&& (#[trigger] n.overridden[k]).1.len() > 0
            &&& has_key(n.definitions, n.overridden[k].0)
        } by {
            if n.overridden[k].0 == id {
                assert(n.definitions[i].0 == id);
            } else {
                assert(n.overridden[k] == r.overridden[k]);
                let m = choose|m: int| 0 <= m < r.definitions.len()
                    && #[trigger] r.definitions[m].0 == r.overridden[k].0;
                assert(n.definitions[m].0 == r.overridden[k].0);
            }
        }
    }
}

/// Registering an identifier that has no definition yet twice, first with
/// `first` and then with `second`, leaves `second` as its live definition and
/// `first` as the one entry of its override log.
pub proof fn lemma_override_append(r: RegistryModel, id: Seq<char>, first: CandidateModel, second: CandidateModel)
    requires
        r.well_formed(),
        r.definition(id) is None,
    ensures
        r.register(id, first).register(id, second).definition(id) == Some(second),
        r.register(id, first).register(id, second).displaced(id) == seq![first],
{
    let r1 = r.register(id, first);
    lemma_key_index(r.definitions, id);
    lemma_key_index(r.overridden, id);
    if key_index(r.overridden, id) >= 0 {
        let j = key_index(r.overridden, id);
        assert(r.overridden[j].1.len() > 0);
    }
    assert(r1.overridden == r.overridden);
    assert(r1.definitions == r.definitions.push((id, first)));
    lemma_key_index_unique(r1.definitions, r.definitions.len() as int);
    assert(r1.well_formed()) by {
        assert forall|j: int| 0 <= j < r1.overridden.len() implies
            has_key(r1.definitions, #[trigger] r1.overridden[j].0) by {
            assert(r.overridden[j] == r1.overridden[j]);
            let k = choose|k: int| 0 <= k < r.definitions.len()
                && #[trigger] r.definitions[k].0 == r.overridden[j].0;
            assert(r1.definitions[k].0 == r.overridden[j].0);
        }
    }
    lemma_register_installs(r1, id, second);
    let r2 = r1.register(id, second);
    assert(r2.overridden == r1.overridden.push((id, seq![first])));
    lemma_key_index_unique(r2.overridden, r1.overridden.len() as int);
}

/// A first member registered into an unknown group declares that group with
/// the member's element type; a second member of the same group leaves the
/// group, and the number of groups, as they were.
pub proof fn lemma_group_inference(
    r: RegistryModel,
    group: Seq<char>,
    id1: Seq<char>,
    c1: CandidateModel,
    id2: Seq<char>,
    c2: CandidateModel,
)
    requires
        r.well_formed(),
        r.group(group) is None,
        c1.owning_group == Some(group),
        c2.owning_group == Some(group),
    ensures
        ({
            let r1 = r.declare_group(group, c1.factory.produced_type).register(id1, c1);
            let r2 = r1.declare_group(group, c2.factory.produced_type).register(id2, c2);
            &&& r1.group(group) == Some(GroupCandidate { element_type: c1.factory.produced_type })
            &&& r1.definition(id1) == Some(c1)
            &&& r1.groups.len() == r.groups.len() + 1
            &&& r2.group(group) == r1.group(group)
            &&& r2.groups.len() == r1.groups.len()
            &&& r2.definition(id2) == Some(c2)
        }),
{
    lemma_key_index(r.groups, group);
    let d1 = r.declare_group(group, c1.factory.produced_type);
    assert(d1.groups == r.groups.push((group, GroupCandidate { element_type: c1.factory.produced_type })));
    assert(d1.well_formed()) by {
        assert forall|a: int, b: int|
            0 <= a < d1.groups.len() && 0 <= b < d1.groups.len() && a != b
            implies d1.groups[a].0 != d1.groups[b].0 by {
            if a < r.groups.len() {
                assert(d1.groups[a] == r.groups[a]);
            }
            if b < r.groups.len() {
                assert(d1.groups[b] == r.groups[b]);
            }
        }
    }
    lemma_key_index_unique(d1.groups, r.groups.len() as int);
    lemma_register_installs(d1, id1, c1);
    let r1 = d1.register(id1, c1);
    assert(has_key(r1.groups, group)) by {
        assert(r1.groups[r.groups.len() as int].0 == group);
    }
    let d2 = r1.declare_group(group, c2.factory.produced_type);
    assert(d2 == r1);
    lemma_register_well_formed(d1, id1, c1);
    lemma_register_installs(d2, id2, c2);
}

/// A pipeline of built-in passes only is deterministic: each pass appends
/// one determined sequence.
pub proof fn lemma_built_in_passes_deterministic(r: RegistryModel, passes: Seq<Pass>)
    requires
        forall|i: int| 0 <= i < passes.len() ==> !(#[trigger] passes[i] is Custom),
    ensures
        deterministic_passes(r, passes),
{
    assert forall|i: int, a: Seq<ErrorModel>, b: Seq<ErrorModel>|
        #![trigger pass_reports(passes[i], r, a), pass_reports(passes[i], r, b)]
        0 <= i < passes.len() && pass_reports(passes[i], r, a)
            && pass_reports(passes[i], r, b) implies a == b by {
        assert(!(passes[i] is Custom));
    }
}

/// With deterministic passes, what each pass appends is the same in every run.
pub proof fn lemma_run_unique(r: RegistryModel, passes: Seq<Pass>, s1: Seq<Seq<ErrorModel>>, s2: Seq<Seq<ErrorModel>>)
    requires
        deterministic_passes(r, passes),
        pipeline_run(r, passes, s1),
        pipeline_run(r, passes, s2),
    ensures
        s1 == s2,
{
    assert forall|i: int| 0 <= i < s1.len() implies s1[i] == s2[i] by {
        assert(pass_reports(passes[i], r, s1[i]));
        assert(pass_reports(passes[i], r, s2[i]));
    }
    assert(s1 =~= s2);
}

/// Compiling a registry of deterministic passes returns a container exactly
/// when no pass appends anything, and otherwise every diagnostic appended.
pub proof fn lemma_all_or_nothing(
    r: RegistryModel,
    passes: Seq<Pass>,
    out: Result<Container, Vec<CompileError>>,
    segments: Seq<Seq<ErrorModel>>,
)
    requires
        compiled(r, passes, out),
        deterministic_passes(r, passes),
        pipeline_run(r, passes, segments),
    ensures
        out is Ok <==> concat(segments).len() == 0,
        out is Err ==> error_models(out->Err_0@) == concat(segments),
{
    let s = choose|s: Seq<Seq<ErrorModel>>| {
        &&& pipeline_run(r, passes, s)
        &&& match out {
            Ok(c) => concat(s).len() == 0 && c@ == crate::container::factories_of(r.definitions),
            Err(e) => concat(s).len() > 0 && error_models(e@) == concat(s),
        }
    };
    lemma_run_unique(r, passes, s, segments);
}

/// Two compiles of one registry of deterministic passes give the same
/// outcome: both a container of the same factories, or both the same
/// sequence of diagnostics.
pub proof fn lemma_compile_deterministic(
    r: RegistryModel,
    passes: Seq<Pass>,
    first: Result<Container, Vec<CompileError>>,
    second: Result<Container, Vec<CompileError>>,
)
    requires
        compiled(r, passes, first),
        compiled(r, passes, second),
        deterministic_passes(r, passes),
    ensures
        first is Ok <==> second is Ok,
        first is Ok ==> first->Ok_0@ == second->Ok_0@,
        first is Err ==> error_models(first->Err_0@) == error_models(second->Err_0@),
{
    let s = choose|s: Seq<Seq<ErrorModel>>| {
        &&& pipeline_run(r, passes, s)
        &&& match first {
            Ok(c) => concat(s).len() == 0 && c@ == crate::container::factories_of(r.definitions),
            Err(e) => concat(s).len() > 0 && error_models(e@) == concat(s),
        }
    };
    lemma_all_or_nothing(r, passes, second, s);
}

/// Registering `id` makes references to `id` resolvable and keeps every
/// reference that was resolvable before resolvable.
pub proof fn lemma_register_resolves(r: RegistryModel, id: Seq<char>, c: CandidateModel, k: Seq<char>)
    requires
        r.well_formed(),
    ensures
        resolvable(r.register(id, c), id),
        resolvable(r, k) ==> resolvable(r.register(id, c), k),
{
    let n = r.register(id, c);
    lemma_register_installs(r, id, c);
    lemma_key_index(n.definitions, id);
    lemma_key_index(r.definitions, id);
    if has_key(r.definitions, k) {
        let m = choose|m: int| 0 <= m < r.definitions.len() && #[trigger] r.definitions[m].0 == k;
        if key_index(r.definitions, id) < 0 {
            assert(n.definitions[m] == r.definitions[m]);
        } else {
            assert(n.definitions[m].0 == k);
        }
        assert(has_key(n.definitions, k));
    }
}

} // verus!
