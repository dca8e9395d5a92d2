use compiler::registry::compiler::CompilerRegistry;
use compiler::registry::error::RegistryError;
use compiler::registry::pass::PassRegistry;
use compiler::registry::pipeline::{PipelineDescriptor, PipelineRegistry};

#[test]
fn extension_registers_dialect_pass_and_pipeline() {
    let mut registry = CompilerRegistry::new();

    registry.check_extension("test").unwrap();
    registry.passes_mut().register("test.add-done").unwrap();
    registry
        .pipelines_mut()
        .register(PipelineDescriptor::new("test.default").pass("test.add-done"))
        .unwrap();
    registry.record_extension("test");

    assert!(registry.has_extension("test"));

    assert!(registry.passes().contains("test.add-done"));

    assert!(registry.pipelines().get("test.default").is_some());
}

#[test]
fn rejects_duplicate_extension() {
    let mut registry = CompilerRegistry::new();

    registry.check_extension("test").unwrap();
    registry.record_extension("test");

    let error = match registry.check_extension("test") {
        Ok(()) => panic!("a second registration must be rejected"),
        Err(error) => error,
    };

    assert!(matches!(error, RegistryError::DuplicateExtension(_)));
}

#[test]
fn rejects_pipeline_with_missing_pass_at_build_time() {
    let mut registry = CompilerRegistry::new();

    registry
        .pipelines_mut()
        .register(PipelineDescriptor::new("broken").pass("missing.pass"))
        .unwrap();

    let error = match registry.pipelines().build("broken", registry.passes()) {
        Ok(_) => {
            panic!("expected pipeline construction to fail")
        }

        Err(error) => error,
    };

    assert!(matches!(error, RegistryError::MissingPass(_)));
}

#[test]
fn builds_pipeline_passes_in_order() {
    let mut passes = PassRegistry::new();
    passes.register("first").unwrap();
    passes.register("second").unwrap();
    let mut pipelines = PipelineRegistry::new();
    pipelines
        .register(PipelineDescriptor::new("both").pass("second").pass("first"))
        .unwrap();
    let manager = match pipelines.build("both", &passes) {
        Ok(m) => m,
        Err(_) => panic!("both passes are registered"),
    };
    assert_eq!(manager.passes(), vec!["second".to_string(), "first".to_string()]);
    assert!(manager.verifies_each());
}

#[test]
fn reports_missing_pipeline() {
    let passes = PassRegistry::new();
    let pipelines = PipelineRegistry::new();
    match pipelines.build("absent", &passes) {
        Err(RegistryError::MissingPipeline(name)) => assert_eq!(name, "absent"),
        _ => panic!("no pipeline is registered"),
    }
}

#[test]
fn reports_first_missing_pass() {
    let mut passes = PassRegistry::new();
    passes.register("known").unwrap();
    let mut pipelines = PipelineRegistry::new();
    pipelines
        .register(PipelineDescriptor::new("p").pass("known").pass("one").pass("two"))
        .unwrap();
    match pipelines.build("p", &passes) {
        Err(RegistryError::MissingPass(name)) => assert_eq!(name, "one"),
        _ => panic!("pass one is missing"),
    }
}

#[test]
fn rejects_duplicate_pass() {
    let mut passes = PassRegistry::new();
    passes.register("x").unwrap();
    match passes.register("x") {
        Err(RegistryError::DuplicatePass(name)) => assert_eq!(name, "x"),
        _ => panic!("duplicate pass"),
    }
    assert!(passes.contains("x"));
    assert_eq!(passes.names().len(), 1);
}

#[test]
fn creates_registered_pass_only() {
    let mut passes = PassRegistry::new();
    passes.register_boxed("x").unwrap();
    assert_eq!(passes.create("x").ok(), Some("x".to_string()));
    assert!(matches!(passes.create("y"), Err(RegistryError::MissingPass(_))));
}

#[test]
fn rejects_invalid_and_duplicate_pipeline() {
    let mut pipelines = PipelineRegistry::new();
    match pipelines.register(PipelineDescriptor::new("not valid")) {
        Err(RegistryError::InvalidName { kind, name }) => {
            assert_eq!(kind, "pipeline");
            assert_eq!(name, "not valid");
        },
        _ => panic!("invalid name"),
    }
    pipelines.register(PipelineDescriptor::new("ok")).unwrap();
    assert!(matches!(
        pipelines.register(PipelineDescriptor::new("ok")),
        Err(RegistryError::DuplicatePipeline(_))
    ));
    assert_eq!(pipelines.names(), vec!["ok".to_string()]);
    assert_eq!(pipelines.get("ok").unwrap().name(), "ok");
    assert!(pipelines.get("other").is_none());
}

#[test]
fn lists_extensions() {
    let mut registry = CompilerRegistry::new();
    registry.record_extension("a");
    registry.record_extension("a");
    registry.record_extension("b");
    let mut names = registry.extensions();
    names.sort();
    assert_eq!(names, vec!["a".to_string(), "b".to_string()]);
    assert!(!registry.has_extension("c"));
}

#[test]
fn first_registration_of_a_pipeline_name_stays() {
    let mut pipelines = PipelineRegistry::new();
    pipelines.register(PipelineDescriptor::new("p").pass("first")).unwrap();
    assert!(pipelines.register(PipelineDescriptor::new("p").pass("second")).is_err());
    assert!(pipelines.register(PipelineDescriptor::new("bad name")).is_err());
    pipelines.register(PipelineDescriptor::new("q")).unwrap();
    assert_eq!(pipelines.get("p").unwrap().passes().to_vec(), vec!["first".to_string()]);
    assert!(pipelines.get("q").is_some());
    assert!(pipelines.get("bad name").is_none());
}
