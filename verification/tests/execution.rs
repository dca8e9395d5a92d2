use compiler::conversion::operands::ConvertedOperands;
use compiler::conversion::patterns::TypeConversionPatternStorage;
use compiler::conversion::error::TypeConversionError;
use compiler::diagnostic::Diagnostic;
use compiler::pass::manager::PassReport;
use compiler::planning::assemble::identity_plan;
use compiler::planning::execution::PlanExecution;
use compiler::planning::stage::ConversionStage;
use compiler::registry::compiler::CompilerRegistry;
use compiler::registry::error::RegistryError;
use compiler::registry::pipeline::PipelineDescriptor;

#[test]
fn gathers_reports_of_plan_steps() {
    let plan = identity_plan(&ConversionStage::new("a"));
    let mut execution = PlanExecution::start(&plan);
    execution.record(PassReport { changed: false, passes_run: 2, diagnostics: vec![Diagnostic::note("n")], decisions: vec![] });
    execution.record(PassReport { changed: true, passes_run: 1, diagnostics: vec![], decisions: vec![] });
    let report = execution.finish(plan);
    assert!(report.changed());
    assert_eq!(report.passes_run(), 3);
    assert_eq!(report.diagnostics().len(), 1);
    assert_eq!(report.decisions().len(), 1);
    assert_eq!(report.plan().steps().len(), 0);
}

#[test]
fn creates_pipeline_with_verification_setting() {
    let mut registry = CompilerRegistry::new();
    registry.passes_mut().register("p").unwrap();
    registry.pipelines_mut().register(PipelineDescriptor::new("pipe").pass("p")).unwrap();
    let manager = registry.create_pipeline("pipe", false).ok().unwrap();
    assert!(!manager.verifies_each());
    assert_eq!(manager.len(), 1);
    assert!(matches!(registry.create_pipeline("none", true), Err(RegistryError::MissingPipeline(_))));
}

#[test]
fn converted_operands_give_single_values() {
    let operands = ConvertedOperands::new(vec![vec![1], vec![2, 3], vec![]]);
    assert_eq!(operands.single(0).ok(), Some(1));
    assert!(matches!(operands.single(1), Err(TypeConversionError::ExpectedSingleValue { operand: 1, actual: 2 })));
    assert!(matches!(operands.single(5), Err(TypeConversionError::ExpectedSingleValue { operand: 5, actual: 0 })));
    assert_eq!(operands.flattened(), vec![1, 2, 3]);
    assert_eq!(operands.get(2), Some(&[][..]));
}

#[test]
fn orders_candidate_patterns_by_benefit() {
    let mut storage = TypeConversionPatternStorage::new();
    storage.add(Some("a.op"), 1);
    storage.add(None, 5);
    storage.add(Some("b.op"), 9);
    storage.add(Some("a.op"), 5);
    assert_eq!(storage.len(), 4);
    assert_eq!(storage.candidates("a.op"), vec![1, 3, 0]);
    assert_eq!(storage.candidates("b.op"), vec![2, 1]);
    assert_eq!(storage.candidates("c.op"), vec![1]);
}
