use di_registry::candidate::{Factory, GroupCandidate};
use di_registry::error::CompileError;
use di_registry::registry::{Registry, SymbolTable};
use di_registry::validator::{ArgumentCountValidator, DependencyValidator, Validator};

fn factory(handle: u64, arity: usize, produced_type: u64) -> Factory {
    Factory { handle, arity, produced_type }
}

#[test]
fn new_registry_is_empty_and_compiles() {
    let registry = Registry::new();
    assert_eq!(registry.definition_count(), 0);
    assert_eq!(registry.group_count(), 0);
    let container = registry.compile().ok().unwrap();
    assert_eq!(container.len(), 0);
}

#[test]
fn override_append() {
    let f1 = factory(1, 0, 10);
    let f2 = factory(2, 0, 10);
    let mut registry = Registry::new();
    registry.insert_one("x", f1);
    registry.insert_one("x", f2);
    assert_eq!(registry.definition("x").unwrap().factory, f2);
    let log = registry.displaced("x");
    assert_eq!(log.len(), 1);
    assert_eq!(log[0].factory, f1);
    assert_eq!(registry.definition_count(), 1);
}

#[test]
fn override_log_keeps_oldest_first() {
    let mut registry = Registry::new();
    registry.insert_one("x", factory(1, 0, 10));
    registry.insert_one("x", factory(2, 0, 10));
    registry.insert_one("x", factory(3, 0, 10));
    let log = registry.displaced("x");
    assert_eq!(log.len(), 2);
    assert_eq!(log[0].factory.handle, 1);
    assert_eq!(log[1].factory.handle, 2);
    assert_eq!(registry.definition("x").unwrap().factory.handle, 3);
    assert_eq!(
        registry.compile().err().unwrap(),
        vec![CompileError::SilentOverride { id: "x".to_string(), count: 2 }]
    );
}

#[test]
fn unknown_identifier_has_no_definition_or_log() {
    let registry = Registry::new();
    assert!(registry.definition("nothing").is_none());
    assert_eq!(registry.displaced("nothing").len(), 0);
    assert!(registry.group("nothing").is_none());
}

#[test]
fn arity_check() {
    let mut registry = Registry::new();
    registry.insert_one("a", factory(1, 0, 10));
    registry.insert_one("b", factory(2, 0, 10));
    registry.insert_with_args_one("c", &["a", "b"], factory(3, 3, 10));
    let errors = registry.compile().err().unwrap();
    assert_eq!(
        errors,
        vec![CompileError::ArityMismatch { id: "c".to_string(), declared: 2, required: 3 }]
    );
}

#[test]
fn dependency_resolution() {
    let mut registry = Registry::new();
    registry.insert_with_arg_one("a", "b", factory(1, 1, 10));
    let errors = registry.compile().err().unwrap();
    assert_eq!(
        errors,
        vec![CompileError::UnresolvedDependency { id: "a".to_string(), missing: "b".to_string() }]
    );
    registry.insert_one("b", factory(2, 0, 11));
    let container = registry.compile().ok().unwrap();
    assert_eq!(container.len(), 2);
    assert_eq!(container.get("b"), Some(factory(2, 0, 11)));
}

#[test]
fn group_satisfies_dependency() {
    let mut registry = Registry::new();
    registry.has_many("plugins", 7);
    registry.insert_with_arg_one("host", "plugins", factory(1, 1, 10));
    assert!(registry.compile().is_ok());
}

#[test]
fn group_inference() {
    let f = factory(1, 0, 42);
    let f2 = factory(2, 0, 43);
    let mut registry = Registry::new();
    registry.insert_one_of("plugins", "p1", f);
    assert_eq!(registry.group("plugins"), Some(GroupCandidate { element_type: 42 }));
    assert_eq!(registry.group_count(), 1);
    let p1 = registry.definition("p1").unwrap();
    assert_eq!(p1.factory, f);
    assert_eq!(p1.owning_group, Some("plugins".to_string()));
    registry.insert_one_of("plugins", "p2", f2);
    assert_eq!(registry.group_count(), 1);
    assert_eq!(registry.group("plugins"), Some(GroupCandidate { element_type: 42 }));
    assert_eq!(registry.definition("p2").unwrap().owning_group, Some("plugins".to_string()));
}

#[test]
fn declared_group_is_not_redeclared() {
    let mut registry = Registry::new();
    registry.has_many("plugins", 5);
    registry.has_many("plugins", 6);
    registry.insert_with_args_one_of("plugins", "p", &[], factory(1, 0, 9));
    assert_eq!(registry.group_count(), 1);
    assert_eq!(registry.group("plugins"), Some(GroupCandidate { element_type: 5 }));
}

#[test]
fn empty_group_compiles() {
    let mut registry = Registry::new();
    registry.has_many("plugins", 5);
    assert!(registry.compile().is_ok());
}

#[test]
fn all_or_nothing_compile() {
    let mut bad = Registry::new();
    bad.insert_one("a", factory(1, 0, 10));
    bad.insert_with_arg_one("b", "a", factory(2, 2, 10));
    let errors = bad.compile().err().unwrap();
    assert_eq!(errors.len(), 1);
    assert!(matches!(errors[0], CompileError::ArityMismatch { .. }));

    let mut good = Registry::new();
    good.insert_one("a", factory(1, 0, 10));
    let container = good.compile().ok().unwrap();
    assert_eq!(container.len(), 1);
    assert_eq!(container.get("a"), Some(factory(1, 0, 10)));
    assert_eq!(container.get("b"), None);
}

#[test]
fn determinism() {
    let mut registry = Registry::new();
    registry.insert_one("x", factory(1, 0, 10));
    registry.insert_one("x", factory(2, 1, 10));
    registry.insert_with_args_one("y", &["m", "n"], factory(3, 1, 10));
    let first = registry.compile().err().unwrap();
    let second = registry.compile().err().unwrap();
    assert_eq!(first, second);
    assert_eq!(format!("{:?}", first), format!("{:?}", second));
}

#[test]
fn diagnostics_follow_pipeline_order() {
    let mut registry = Registry::new();
    registry.insert_with_args_one("a", &["missing1", "missing2"], factory(1, 0, 10));
    registry.insert_one("a", factory(2, 0, 10));
    registry.insert_with_args_one("b", &["a", "gone"], factory(3, 1, 10));
    let errors = registry.compile().err().unwrap();
    assert_eq!(
        errors,
        vec![
            CompileError::ArityMismatch { id: "b".to_string(), declared: 2, required: 1 },
            CompileError::SilentOverride { id: "a".to_string(), count: 1 },
            CompileError::UnresolvedDependency { id: "b".to_string(), missing: "gone".to_string() },
        ]
    );
}

#[test]
fn pushed_validator_runs_after_defaults() {
    let mut registry = Registry::new();
    registry.push_validator(DependencyValidator);
    registry.insert_with_arg_one("a", "b", factory(1, 1, 10));
    let errors = registry.compile().err().unwrap();
    let expected = CompileError::UnresolvedDependency { id: "a".to_string(), missing: "b".to_string() };
    assert_eq!(errors, vec![expected.clone(), expected]);
}

#[test]
fn one_builder_registers_once_on_insert() {
    let mut registry = Registry::new();
    registry.insert_one("a", factory(1, 0, 10));
    registry.one("b", factory(2, 2, 10)).with_arg("a").with_arg("a").insert();
    let b = registry.definition("b").unwrap();
    assert_eq!(b.arg_sources, vec!["a".to_string(), "a".to_string()]);
    assert_eq!(b.owning_group, None);
    assert!(registry.compile().is_ok());
}

#[test]
fn unfinished_builder_registers_nothing() {
    let mut registry = Registry::new();
    let builder = registry.one("b", factory(2, 1, 10)).with_arg("a");
    drop(builder);
    assert!(registry.definition("b").is_none());
    assert_eq!(registry.definition_count(), 0);
}

#[test]
fn one_of_builder_declares_group_and_member() {
    let mut registry = Registry::new();
    registry.insert_one("cfg", factory(1, 0, 10));
    registry.one_of("plugins", "p1", factory(2, 1, 77)).with_arg("cfg").insert();
    assert_eq!(registry.group("plugins"), Some(GroupCandidate { element_type: 77 }));
    let p1 = registry.definition("p1").unwrap();
    assert_eq!(p1.owning_group, Some("plugins".to_string()));
    assert_eq!(p1.arg_sources, vec!["cfg".to_string()]);
    assert!(registry.compile().is_ok());
}

#[test]
fn insert_with_arg_one_of_records_source() {
    let mut registry = Registry::new();
    registry.insert_with_arg_one_of("plugins", "p", "dep", factory(1, 1, 3));
    let p = registry.definition("p").unwrap();
    assert_eq!(p.arg_sources, vec!["dep".to_string()]);
    assert_eq!(
        registry.compile().err().unwrap(),
        vec![CompileError::UnresolvedDependency { id: "p".to_string(), missing: "dep".to_string() }]
    );
}

#[test]
fn self_reference_is_only_checked_for_existence() {
    let mut registry = Registry::new();
    registry.insert_with_arg_one("loop", "loop", factory(1, 1, 10));
    assert!(registry.compile().is_ok());
}

#[test]
fn unfinished_one_of_builder_registers_nothing() {
    let mut registry = Registry::new();
    let builder = registry.one_of("plugins", "p1", factory(1, 1, 77)).with_arg("cfg");
    drop(builder);
    assert_eq!(registry.group_count(), 0);
    assert!(registry.group("plugins").is_none());
    assert_eq!(registry.definition_count(), 0);
    assert!(registry.definition("p1").is_none());
    assert_eq!(registry.displaced("p1").len(), 0);
    assert!(registry.compile().is_ok());
}

#[test]
fn one_of_builder_keeps_existing_group() {
    let mut registry = Registry::new();
    registry.has_many("plugins", 5);
    registry.one_of("plugins", "p1", factory(1, 0, 77)).insert();
    assert_eq!(registry.group_count(), 1);
    assert_eq!(registry.group("plugins"), Some(GroupCandidate { element_type: 5 }));
    assert_eq!(registry.definition("p1").unwrap().owning_group, Some("plugins".to_string()));
}

struct RejectEverything;

impl Validator for RejectEverything {
    fn validate(&self, _registry: &SymbolTable, errors: &mut Vec<CompileError>) {
        errors.push(CompileError::SilentOverride { id: "custom".to_string(), count: 0 });
    }
}

#[test]
fn caller_supplied_validator_runs_last_and_blocks_compile() {
    let mut registry = Registry::new();
    registry.insert_one("a", factory(1, 1, 10));
    registry.push_validator(RejectEverything);
    let errors = registry.compile().err().unwrap();
    assert_eq!(
        errors,
        vec![
            CompileError::ArityMismatch { id: "a".to_string(), declared: 0, required: 1 },
            CompileError::SilentOverride { id: "custom".to_string(), count: 0 },
        ]
    );
}

#[test]
fn caller_supplied_validator_alone_blocks_clean_registry() {
    let mut registry = Registry::new();
    registry.insert_one("a", factory(1, 0, 10));
    assert!(registry.compile().is_ok());
    registry.push_validator(RejectEverything);
    assert_eq!(registry.compile().err().unwrap().len(), 1);
}

#[test]
fn built_in_pass_pushed_again_reports_again() {
    let mut registry = Registry::new();
    registry.push_validator(ArgumentCountValidator);
    registry.insert_with_arg_one("b", "a", factory(1, 0, 10));
    registry.insert_one("a", factory(2, 0, 10));
    let errors = registry.compile().err().unwrap();
    let expected = CompileError::ArityMismatch { id: "b".to_string(), declared: 1, required: 0 };
    assert_eq!(errors, vec![expected.clone(), expected]);
}
