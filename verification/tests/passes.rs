use compiler::analysis::manager::AnalysisManager;
use compiler::diagnostic::{Diagnostic, DiagnosticEngine, DiagnosticSeverity};
use compiler::pass::context::PassContext;
use compiler::pass::error::{PassError, PassFailure};
use compiler::pass::manager::{PassManager, PassRun};
use compiler::policy::constraint::Property;
use compiler::policy::decision::{PolicyDecision, PolicyDecisionKind};
use compiler::policy::scope::ConstraintScope;
use compiler::request::CompileRequest;

#[test]
fn pass_that_reports_an_error_fails() {
    let mut manager = PassManager::new();
    manager.add_pass("test.reporting");
    let mut context = PassContext::new(CompileRequest::default_request());
    let mut run = PassRun::start(&manager);
    run.begin(&mut context, "test.reporting");
    context.emit(Diagnostic::error("broken"));
    match run.finish(&context, Ok(())) {
        Err(error) => {
            assert_eq!(error.pass(), "test.reporting");
            assert_eq!(error.message(), "pass emitted an error diagnostic");
        },
        Ok(_) => panic!("an error diagnostic fails the pass"),
    }
    assert_eq!(context.diagnostics()[0].pass(), Some("test.reporting"));
}

#[test]
fn successful_passes_are_counted() {
    let mut manager = PassManager::new();
    manager.add_pass("one");
    manager.add_boxed_pass("two");
    let manager = manager.verify_each(false);
    assert!(!manager.verifies_each());
    let mut context = PassContext::new(CompileRequest::default_request());
    let mut run = PassRun::start(&manager);
    run.begin(&mut context, "one");
    context.emit(Diagnostic::warning("only a warning"));
    context.mark_changed();
    assert_eq!(run.finish(&context, Ok(())).ok(), Some(true));
    run.end(&mut context);
    run.begin(&mut context, "two");
    assert!(!context.changed());
    assert_eq!(run.finish(&context, Ok(())).ok(), Some(false));
    run.end(&mut context);
    let report = run.into_report(context);
    assert!(report.changed);
    assert_eq!(report.passes_run, 2);
    assert_eq!(report.diagnostics.len(), 1);
}

#[test]
fn failed_pass_keeps_its_error() {
    let manager = {
        let mut m = PassManager::default();
        m.add_pass("one");
        m
    };
    let mut context = PassContext::new(CompileRequest::default_request());
    let mut run = PassRun::start(&manager);
    run.begin(&mut context, "one");
    let result = run.finish(&context, Err(PassError::failed("one", "bad input")));
    let error = match result {
        Err(e) => e,
        Ok(_) => panic!("the pass failed"),
    };
    assert_eq!(error.message(), "bad input");
    let (diagnostics, decisions) = context.into_reports();
    let failure = PassFailure::new(error, diagnostics, decisions);
    assert_eq!(failure.error().pass(), "one");
}

#[test]
fn reports_diagnostics_and_decisions() {
    let mut context = PassContext::new(CompileRequest::default_request());
    context.begin_pass("test.reporting");
    context.emit(Diagnostic::warning("careful"));
    context.record_decision(PolicyDecision::for_property(
        PolicyDecisionKind::HintApplied,
        ConstraintScope::Global,
        Property::new("lbm.tile-size"),
        "applied",
    ));
    assert_eq!(context.diagnostics().len(), 1);
    assert_eq!(context.decisions().len(), 1);
    assert_eq!(context.decisions()[0].pass(), Some("test.reporting"));
    assert_eq!(context.error_count(), 0);
    assert!(!context.has_errors());
    context.end_pass();
    assert_eq!(context.current_pass(), None);
}

#[test]
fn counts_error_diagnostics() {
    let mut engine = DiagnosticEngine::new();
    engine.emit(Diagnostic::note("n"));
    engine.emit(Diagnostic::error("e1"));
    engine.emit(Diagnostic::remark("r"));
    engine.emit(Diagnostic::new(DiagnosticSeverity::Error, "e2"));
    assert_eq!(engine.error_count(), 2);
    assert!(engine.has_errors());
    assert_eq!(engine.diagnostics().len(), 4);
}

#[test]
fn analysis_cache_is_invalidated() {
    let mut analyses = AnalysisManager::new();
    assert!(analyses.get("dominance"));
    assert!(!analyses.get("dominance"));
    assert!(analyses.get("cfg"));
    analyses.invalidate("dominance");
    assert!(!analyses.is_cached("dominance"));
    assert!(analyses.is_cached("cfg"));
    analyses.invalidate_all();
    assert!(!analyses.is_cached("cfg"));
    assert!(analyses.get("cfg"));
}
