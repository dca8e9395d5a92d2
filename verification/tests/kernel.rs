use compiler::kernel::{
    alias_attribute, backend_requirement, verify_kernel_call, KernelAttribute, KernelBackend, KernelBackendRequirement,
    KernelCallOp, KernelCallShape,
};

fn shape(operands: usize, results: usize, attributes: Vec<(String, KernelAttribute)>) -> KernelCallShape {
    KernelCallShape { regions: 0, successors: 0, operands, results, attributes }
}

#[test]
fn built_kernel_call_verifies() {
    let attributes = KernelCallOp::attributes("axpy", "axpy_f64", "cpu", 3, &[2]);
    assert_eq!(attributes.len(), 6);
    assert_eq!(attributes[5].0, "kernel.result_alias.0");
    assert!(verify_kernel_call(&shape(3, 1, attributes)).is_ok());
}

#[test]
fn reports_structural_errors() {
    let mut op = shape(0, 0, KernelCallOp::attributes("k", "s", "cpu", 0, &[]));
    op.regions = 1;
    assert_eq!(verify_kernel_call(&op).err().unwrap(), "kernel.call must not own regions");
    op.regions = 0;
    op.successors = 2;
    assert_eq!(verify_kernel_call(&op).err().unwrap(), "kernel.call must not have successors");
    op.successors = 0;
    op.operands = 1;
    assert_eq!(verify_kernel_call(&op).err().unwrap(), "kernel.call has 1 operands but its ABI expects 0");
    op.results = 12;
    assert_eq!(verify_kernel_call(&op).err().unwrap(), "kernel.call has 12 results but declares 0");
}

#[test]
fn reports_attribute_errors() {
    let op = shape(0, 0, vec![("kernel.name".to_string(), KernelAttribute::Integer(1))]);
    assert_eq!(verify_kernel_call(&op).err().unwrap(), "kernel.call requires string attribute 'kernel.name'");
    let mut attributes = KernelCallOp::attributes("k", "s", "cpu", 1, &[5]);
    assert_eq!(
        verify_kernel_call(&shape(1, 1, attributes)).err().unwrap(),
        "kernel result 0 aliases ABI parameter 5, but only 1 parameters exist"
    );
    attributes = KernelCallOp::attributes("k", "s", "cpu", 1, &[0]);
    attributes[3].1 = KernelAttribute::Integer(-1);
    assert_eq!(
        verify_kernel_call(&shape(1, 1, attributes)).err().unwrap(),
        "kernel.call requires a non-negative integer kernel.parameter_count"
    );
    let mut attributes = KernelCallOp::attributes("k", "s", "cpu", 1, &[0]);
    attributes.pop();
    assert_eq!(
        verify_kernel_call(&shape(1, 1, attributes)).err().unwrap(),
        "kernel.call requires non-negative integer attribute 'kernel.result_alias.0'"
    );
}

#[test]
fn names_alias_attributes() {
    assert_eq!(alias_attribute(0), "kernel.result_alias.0");
    assert_eq!(alias_attribute(120), "kernel.result_alias.120");
}

#[test]
fn backends_require_their_runtime() {
    assert_eq!(backend_requirement(KernelBackend::Cpu).property().as_str(), "backend.openmp");
    assert_eq!(KernelBackend::Cuda.implicit_requirement().property().as_str(), "backend.cuda");
}
