use compiler::conversion::error::{ConversionError, Legality, TypeConversionError};
use compiler::policy::constraint::Property;
use compiler::policy::objective::Metric;
use compiler::pass::error::PassError;
use compiler::planning::error::PlanningError;
use compiler::planning::stage::ConversionStage;
use compiler::registry::error::RegistryError;

#[test]
fn registry_error_messages() {
    assert_eq!(
        RegistryError::DuplicateExtension("kernel".to_string()).to_string(),
        "compiler extension 'kernel' is already registered"
    );
    assert_eq!(RegistryError::MissingPass("x".to_string()).to_string(), "compiler pass 'x' is not registered");
    assert_eq!(
        RegistryError::InvalidName { kind: "pipeline", name: "a b".to_string() }.to_string(),
        "invalid pipeline name 'a b'"
    );
    assert_eq!(
        RegistryError::InvalidConversion { name: "e".to_string(), message: "bad".to_string() }.to_string(),
        "invalid conversion edge 'e': bad"
    );
    assert_eq!(RegistryError::Dialect("dialect clash".to_string()).to_string(), "dialect clash");
}

#[test]
fn planning_and_pass_error_messages() {
    let error = PlanningError::NoRoute { source: ConversionStage::new("hl"), target: ConversionStage::new("ll") };
    assert_eq!(error.to_string(), "no legal conversion route exists from 'hl' to 'll'");
    let error = PlanningError::MissingPipeline { edge: "lower".to_string(), pipeline: "p".to_string() };
    assert_eq!(error.to_string(), "conversion edge 'lower' references missing pipeline 'p'");
    assert_eq!(PassError::failed("canon", "boom").to_string(), "pass 'canon' failed: boom");
}

#[test]
fn type_conversion_error_messages() {
    let names: Vec<String> = vec!["f64".to_string(), "i64".to_string(), "%3".to_string()];
    let error = TypeConversionError::NoConversion { source: 1 };
    assert_eq!(error.ids(), vec![1]);
    assert_eq!(error.message(&names), "no conversion is registered for type i64");
    let error = TypeConversionError::ResultTypeMismatch { result: 2, expected: vec![0, 1], actual: vec![1] };
    assert_eq!(error.ids(), vec![0, 1, 1]);
    assert_eq!(error.message(&names), "converted result 2 has types [i64]; expected [f64, i64]");
    let error = TypeConversionError::MaterializationTypeMismatch { kind: "target", value: 2, expected: 0, actual: 1 };
    assert_eq!(error.message(&names), "target materialization produced value %3 of type i64; expected f64");
    let error = TypeConversionError::MaterializationCountMismatch { kind: "source", expected: 1, actual: 12 };
    assert_eq!(error.message(&names), "source materialization produced 12 values; expected 1");
    let error = TypeConversionError::NoMaterialization { kind: "source", requested: vec![] };
    assert_eq!(error.message(&names), "no source materialization can produce []");
    let error = TypeConversionError::RegionNotEmptyDuringReplacement { operation: 2, region: 0 };
    assert_eq!(
        error.message(&names),
        "cannot replace operation %3; region f64 still owns blocks\u{2014}move its contents first"
    );
}

#[test]
fn conversion_error_messages() {
    let names: Vec<String> = vec!["op0".to_string()];
    let error = ConversionError::UnlegalizableOperation { operation: 0, name: "a.b".to_string(), legality: Legality::Illegal };
    assert_eq!(error.message(&names), "operation op0 ('a.b') could not be legalized; classification: Illegal");
    let error = ConversionError::RewriteLimitExceeded { limit: 100000 };
    assert_eq!(error.message(&names), "conversion exceeded the rewrite limit of 100000");
    let error = ConversionError::Type(TypeConversionError::MissingValue(0));
    assert_eq!(error.message(&names), "value op0 does not exist");
}

#[test]
fn property_and_metric_text() {
    assert_eq!(Property::new("numeric.precision").to_string(), "numeric.precision");
    assert_eq!(Metric::new("latency").to_string(), "latency");
}

#[test]
fn conversion_failure_diagnostic() {
    let names: Vec<String> = vec!["%op".to_string()];
    let error = ConversionError::UnlegalizableOperation { operation: 0, name: "a.b".to_string(), legality: Legality::Unknown };
    let diagnostic = error.diagnostic(&names);
    assert_eq!(diagnostic.code(), Some("conversion.failed"));
    assert_eq!(diagnostic.message(), "operation %op ('a.b') could not be legalized; classification: Unknown");
    assert!(diagnostic.anchor().is_some());
    let error = ConversionError::RewriteLimitExceeded { limit: 3 };
    let diagnostic = error.diagnostic(&names);
    assert!(diagnostic.anchor().is_none());
    assert_eq!(diagnostic.message(), "conversion exceeded the rewrite limit of 3");
}
