use vstd::prelude::*;

verus! {

/// A diagnostic produced while compiling a registry.
#[derive(Clone, Debug, PartialEq, Eq)]
pub enum CompileError {
    /// Definition `id` lists `declared` argument sources, but its factory requires `required`.
    ArityMismatch { id: String, declared: usize, required: usize },
    /// Definition `id` displaced `count` earlier registrations of the same identifier.
    SilentOverride { id: String, count: usize },
    /// Definition `id` refers to `missing`, which is neither a definition nor a group.
    UnresolvedDependency { id: String, missing: String },
}

/// The mathematical value of a diagnostic.
pub enum ErrorModel {
    ArityMismatch { id: Seq<char>, declared: nat, required: nat },
    SilentOverride { id: Seq<char>, count: nat },
    UnresolvedDependency { id: Seq<char>, missing: Seq<char> },
}

impl View for CompileError {
    type V = ErrorModel;

    open spec fn view(&self) -> ErrorModel {
        match self {
            CompileError::ArityMismatch { id, declared, required } => ErrorModel::ArityMismatch {
                id: id@,
                declared: *declared as nat,
                required: *required as nat,
            },
            CompileError::SilentOverride { id, count } => ErrorModel::SilentOverride {
                id: id@,
                count: *count as nat,
            },
            CompileError::UnresolvedDependency { id, missing } => ErrorModel::UnresolvedDependency {
                id: id@,
                missing: missing@,
            },
        }
    }
}

impl DeepView for CompileError {
    type V = ErrorModel;

    open spec fn deep_view(&self) -> ErrorModel {
        self@
    }
}

} // verus!

verus! {

/// The models of a sequence of diagnostics, in order.
pub open spec fn error_models(s: Seq<CompileError>) -> Seq<ErrorModel> {
    s.map_values(|e: CompileError| e@)
}

} // verus!
