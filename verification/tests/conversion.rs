use compiler::conversion::driver::{requires_conversion, ConversionConfig, ConversionMode, ConversionRun};
use compiler::conversion::error::{ConversionError, Legality, TypeConversionError};
use compiler::conversion::signature::SignatureConversion;
use compiler::conversion::target::{ConversionTarget, LegalityRule};
use compiler::conversion::type_converter::{is_legal_type, resolve_type_conversion, TypeConversionRuleResult};
use compiler::conversion::value_mapping::ConversionValueMapping;

#[test]
fn classifies_by_operation_then_dialect() {
    let mut target = ConversionTarget::new();
    target.mark_dialect_legal("builtin");
    target.mark_dialect_illegal("fluid");
    target.mark_operation_legal("fluid.system");
    target.mark_operation_dynamically_legal("test.operation");

    assert_eq!(target.classify(1, "builtin.module", Some("builtin"), None).ok(), Some(Legality::Legal));
    assert_eq!(target.classify(2, "fluid.step", Some("fluid"), None).ok(), Some(Legality::Illegal));
    assert_eq!(target.classify(3, "fluid.system", Some("fluid"), None).ok(), Some(Legality::Legal));
    assert_eq!(target.classify(4, "custom.unclassified", Some("custom"), None).ok(), Some(Legality::Unknown));
    assert_eq!(target.classify(5, "nodialect", None, None).ok(), Some(Legality::Unknown));
    assert_eq!(target.rule_for("test.operation", Some("test")), Some(LegalityRule::Dynamic));
    assert_eq!(target.classify(6, "test.operation", Some("test"), Some(Ok(false))).ok(), Some(Legality::Illegal));
    assert_eq!(target.classify(6, "test.operation", Some("test"), Some(Ok(true))).ok(), Some(Legality::Legal));
    match target.classify(6, "test.operation", Some("test"), Some(Err("no".to_string()))) {
        Err(ConversionError::DynamicLegalityFailed { operation, name, message }) => {
            assert_eq!(operation, 6);
            assert_eq!(name, "test.operation");
            assert_eq!(message, "no");
        },
        _ => panic!("the dynamic check failed"),
    }
}

#[test]
fn later_rules_replace_earlier_ones() {
    let mut target = ConversionTarget::default();
    target.mark_dialect_illegal("fluid");
    target.mark_dialect_legal("fluid");
    assert_eq!(target.rule_for("fluid.x", Some("fluid")), Some(LegalityRule::Legal));
    target.mark_operation_illegal("fluid.x");
    assert_eq!(target.rule_for("fluid.x", Some("fluid")), Some(LegalityRule::Illegal));
    target.mark_dialect_dynamically_legal("other");
    assert_eq!(target.rule_for("other.y", Some("other")), Some(LegalityRule::Dynamic));
}

#[test]
fn partial_and_full_conversion_differ_on_unknown() {
    assert!(requires_conversion(ConversionMode::Partial, Legality::Illegal));
    assert!(!requires_conversion(ConversionMode::Partial, Legality::Unknown));
    assert!(requires_conversion(ConversionMode::Full, Legality::Unknown));
    assert!(!requires_conversion(ConversionMode::Full, Legality::Legal));
}

#[test]
fn conversion_run_enforces_limit_and_legalization() {
    let config = ConversionConfig { max_rewrites: 1 };
    let mut run = ConversionRun::start(ConversionMode::Full, &config);
    assert!(run.examine(Legality::Unknown));
    assert!(run.check_limit().is_ok());
    run.record_rewrite(true, 1, "custom.op", Legality::Unknown).unwrap();
    assert!(matches!(run.check_limit(), Err(ConversionError::RewriteLimitExceeded { limit: 1 })));
    run.count_remaining(Legality::Unknown);
    run.count_remaining(Legality::Legal);
    let report = run.into_report(3);
    assert_eq!(report.rewrites, 1);
    assert_eq!(report.operations_examined, 1);
    assert_eq!(report.remaining_unknown_operations, 1);
    assert_eq!(report.block_arguments_converted, 3);

    let mut run = ConversionRun::start(ConversionMode::Partial, &ConversionConfig::default());
    match run.record_rewrite(false, 7, "fluid.system", Legality::Illegal) {
        Err(ConversionError::UnlegalizableOperation { operation, name, legality }) => {
            assert_eq!(operation, 7);
            assert_eq!(name, "fluid.system");
            assert_eq!(legality, Legality::Illegal);
        },
        _ => panic!("no pattern rewrote the operation"),
    }
    assert_eq!(run.rewrites(), 0);
}

#[test]
fn converts_one_type_to_multiple_types() {
    let results = vec![
        TypeConversionRuleResult::Converted(vec![9]),
        TypeConversionRuleResult::Converted(vec![2, 3]),
        TypeConversionRuleResult::NotApplicable,
    ];
    assert_eq!(resolve_type_conversion(1, &results, false).ok(), Some(vec![2, 3]));
    assert!(matches!(
        resolve_type_conversion(1, &[], false),
        Err(TypeConversionError::NoConversion { source: 1 })
    ));
    assert_eq!(resolve_type_conversion(1, &[], true).ok(), Some(vec![1]));
    match resolve_type_conversion(4, &[TypeConversionRuleResult::Failed("bad".to_string())], true) {
        Err(TypeConversionError::RuleFailed { source, message }) => {
            assert_eq!(source, 4);
            assert_eq!(message, "bad");
        },
        _ => panic!("the rule failed"),
    }
    assert_eq!(is_legal_type(5, &[TypeConversionRuleResult::NotApplicable], true).ok(), Some(true));
    assert_eq!(is_legal_type(5, &[TypeConversionRuleResult::Converted(vec![6])], true).ok(), Some(false));
}

#[test]
fn signature_conversion_checks_arguments() {
    let mut signature = SignatureConversion::new(2);
    assert_eq!(signature.original_count(), 2);
    assert!(matches!(
        signature.converted_types(0),
        Err(TypeConversionError::IncompleteSignatureConversion { index: 0 })
    ));
    assert!(matches!(
        signature.convert_input(2, vec![1]),
        Err(TypeConversionError::SignatureArgumentOutOfBounds { index: 2, argument_count: 2 })
    ));
    signature.convert_input(0, vec![10, 11]).unwrap();
    assert!(matches!(
        signature.flattened_types(),
        Err(TypeConversionError::IncompleteSignatureConversion { index: 1 })
    ));
    signature.drop_input(1).unwrap();
    assert_eq!(signature.flattened_types().ok(), Some(vec![10, 11]));
    assert!(matches!(
        signature.validate_for(&[1]),
        Err(TypeConversionError::SignatureArgumentCountMismatch { expected: 2, actual: 1 })
    ));
    assert_eq!(signature.is_identity(&[1, 2]).ok(), Some(false));
    assert_eq!(signature.converted_argument_count(&[1, 2]).ok(), Some(2));

    let identity = SignatureConversion::from_converted(vec![vec![1], vec![2]]);
    assert_eq!(identity.is_identity(&[1, 2]).ok(), Some(true));
    assert_eq!(identity.converted_argument_count(&[1, 3]).ok(), Some(1));
}

#[test]
fn value_mapping_records_conversions() {
    let mut mapping = ConversionValueMapping::new();
    assert!(!mapping.contains(1));
    mapping.map(1, vec![2, 3]);
    mapping.map(4, vec![4]);
    mapping.map(1, vec![5]);
    assert_eq!(mapping.get(1), Some(&[5u64][..]));
    assert_eq!(mapping.get(4), Some(&[4u64][..]));
    assert!(mapping.get(9).is_none());
    mapping.record_block_arguments_converted(2);
    mapping.record_block_arguments_converted(1);
    assert_eq!(mapping.block_arguments_converted(), 3);
    let error = ConversionError::UnlegalizableOperation { operation: 3, name: "x".to_string(), legality: Legality::Unknown };
    assert_eq!(error.operation(), Some(3));
    assert_eq!(ConversionError::RewriteLimitExceeded { limit: 1 }.operation(), None);
}
