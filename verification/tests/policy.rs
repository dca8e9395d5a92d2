use compiler::names::{is_valid_key, is_valid_registry_name, valid_name};
use compiler::planning::stage::ConversionStage;
use compiler::policy::constraint::{CompilationConstraint, ConstraintPredicate, ConstraintSet, Property};
use compiler::policy::decision::DecisionSubject;
use compiler::policy::objective::Metric;
use compiler::policy::scope::ConstraintScope;
use compiler::policy::value::PolicyValue;
use compiler::target::{CapabilityRequirement, NumericOrder, TargetProfile};

#[test]
fn validates_names() {
    assert!(is_valid_key("numeric.precision"));
    assert!(is_valid_registry_name("a-b_c.d9"));
    assert!(!valid_name(""));
    assert!(!valid_name("a b"));
    assert!(!is_valid_key("ä"));
}

#[test]
fn names_round_trip() {
    assert_eq!(Property::new("x.y").as_str(), "x.y");
    assert_eq!(Metric::new("latency").as_str(), "latency");
    assert_eq!(ConversionStage::new("a").as_str(), "a");
    assert!(matches!(DecisionSubject::named("n"), DecisionSubject::Named(_)));
}

#[test]
fn target_requirements_use_capabilities() {
    let target = TargetProfile::new("gpu")
        .capability("memory", PolicyValue::Integer(16))
        .capability("vendor", PolicyValue::string("acme"));
    assert!(CapabilityRequirement::present("vendor").is_satisfied_by(Some(&target), NumericOrder::Unordered));
    assert!(!CapabilityRequirement::present("tensor").is_satisfied_by(Some(&target), NumericOrder::Unordered));
    assert!(CapabilityRequirement::equals("vendor", PolicyValue::string("acme"))
        .is_satisfied_by(Some(&target), NumericOrder::Unordered));
    assert!(CapabilityRequirement::at_least("memory", PolicyValue::Integer(8))
        .is_satisfied_by(Some(&target), NumericOrder::Greater));
    assert!(!CapabilityRequirement::at_least("memory", PolicyValue::Integer(32))
        .is_satisfied_by(Some(&target), NumericOrder::Less));
    assert!(!CapabilityRequirement::present("vendor").is_satisfied_by(None, NumericOrder::Unordered));
}

#[test]
fn finds_constraints_of_a_property() {
    let mut set = ConstraintSet::new();
    set.push(CompilationConstraint::required(ConstraintScope::Global, "a", PolicyValue::Bool(true)));
    set.push(CompilationConstraint::hint(ConstraintScope::Global, "b", PolicyValue::Bool(true)));
    set.push(CompilationConstraint::required(ConstraintScope::Global, "a", PolicyValue::Bool(true)));
    assert_eq!(set.for_property(&Property::new("a")), vec![0, 2]);
    assert!(set.validate().is_ok());
    assert!(!set.is_empty());
    assert!(ConstraintPredicate::Equals(PolicyValue::Integer(1)).exact_value().is_some());
}

#[test]
fn float_values_compare_as_doubles() {
    assert!(PolicyValue::float(0.0f64.to_bits()).equals(&PolicyValue::float((-0.0f64).to_bits())));
    assert!(!PolicyValue::float(f64::NAN.to_bits()).equals(&PolicyValue::float(f64::NAN.to_bits())));
    assert!(!PolicyValue::float(f64::INFINITY.to_bits()).validate());
    assert!(PolicyValue::Integer(1).is_numeric());
}
