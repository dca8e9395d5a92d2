use compiler::policy::error::PolicyError;
use compiler::policy::value::PolicyValue;
use compiler::request::{CompileRequest, RequestError};

#[test]
fn builds_compile_request() {
    let request = CompileRequest::builder("simulation.default")
        .require("numeric.precision", PolicyValue::string("f64"))
        .prefer("target.device", PolicyValue::string("gpu"), 10.0f64.to_bits())
        .hint("lbm.tile-size", PolicyValue::Integer(16))
        .minimize("latency", 1.0f64.to_bits())
        .build()
        .unwrap();

    assert_eq!(request.pipeline(), "simulation.default");

    assert_eq!(request.constraints().len(), 3);
}

#[test]
fn rejects_invalid_preference_weight() {
    let error = match CompileRequest::builder("simulation.default")
        .prefer("target.device", PolicyValue::string("gpu"), 0.0f64.to_bits())
        .build()
    {
        Ok(_) => panic!("a zero weight must be rejected"),
        Err(error) => error,
    };

    assert!(matches!(error, RequestError::Policy(PolicyError::InvalidWeight { .. })));
}

#[test]
fn rejects_conflicting_required_values() {
    let error = match CompileRequest::builder("simulation.default")
        .require("numeric.precision", PolicyValue::string("f32"))
        .require("numeric.precision", PolicyValue::string("f64"))
        .build()
    {
        Ok(_) => panic!("conflicting requirements must be rejected"),
        Err(error) => error,
    };

    assert!(matches!(
        error,
        RequestError::Policy(PolicyError::ConflictingRequiredConstraints { .. })
    ));
}

#[test]
fn rejects_invalid_pipeline_name() {
    let error = match CompileRequest::builder("bad name").build() {
        Ok(_) => panic!("a pipeline name with a space must be rejected"),
        Err(error) => error,
    };
    assert!(matches!(error, RequestError::InvalidPipeline(_)));
}

#[test]
fn accepts_repeated_equal_requirements() {
    let request = CompileRequest::builder("simulation.default")
        .require("numeric.precision", PolicyValue::string("f64"))
        .require("numeric.precision", PolicyValue::string("f64"))
        .build();
    assert!(request.is_ok());
}

#[test]
fn rejects_non_finite_weight() {
    let error = match CompileRequest::builder("simulation.default")
        .minimize("latency", f64::NAN.to_bits())
        .build()
    {
        Ok(_) => panic!("a NaN weight must be rejected"),
        Err(error) => error,
    };
    assert!(matches!(error, RequestError::Policy(PolicyError::InvalidWeight { .. })));
}

#[test]
fn rejects_invalid_property_name() {
    let error = match CompileRequest::builder("simulation.default")
        .require("bad property", PolicyValue::Bool(true))
        .build()
    {
        Ok(_) => panic!("an invalid property must be rejected"),
        Err(error) => error,
    };
    assert!(matches!(error, RequestError::Policy(PolicyError::InvalidProperty(_))));
}

#[test]
fn default_request_is_valid() {
    let request = CompileRequest::default_request();
    assert!(request.validate().is_ok());
    assert_eq!(request.constraints().len(), 0);
}

#[test]
fn cloned_request_keeps_everything() {
    let request = CompileRequest::builder("simulation.default")
        .require("numeric.precision", PolicyValue::string("f64"))
        .minimize("latency", 1.0f64.to_bits())
        .target(compiler::target::TargetProfile::new("gpu0").capability("backend.cuda", PolicyValue::Bool(true)))
        .build()
        .unwrap();
    let copy = request.clone_request();
    assert_eq!(copy.pipeline(), "simulation.default");
    assert_eq!(copy.constraints().len(), 1);
    assert_eq!(copy.objectives().iter().len(), 1);
    let target = copy.target().unwrap();
    assert_eq!(target.name(), "gpu0");
    assert_eq!(target.capabilities().len(), 1);
}
