use compiler::kernel::registry::{KernelError, KernelRegistration, KernelRegistry};
use compiler::kernel::KernelBackend;
use compiler::policy::value::PolicyValue;
use compiler::target::{CapabilityRequirement, NumericOrder, TargetProfile};

fn openmp_target() -> TargetProfile {
    TargetProfile::new("host").capability("backend.openmp", PolicyValue::Bool(true))
}

#[test]
fn registration_needs_backend_and_requirements() {
    let plain = KernelRegistration::new("axpy", KernelBackend::Cpu);
    let target = openmp_target();
    assert!(plain.supports(Some(&target), &[]));
    assert!(!plain.supports(None, &[]));

    let cuda = KernelRegistration::new("gemm", KernelBackend::Cuda);
    assert!(!cuda.supports(Some(&target), &[]));

    let wide = KernelRegistration::new("wide", KernelBackend::Cpu)
        .requiring(CapabilityRequirement::at_least("simd.width", PolicyValue::Integer(8)));
    assert_eq!(wide.requirements().len(), 1);
    let with_simd = openmp_target().capability("simd.width", PolicyValue::Integer(16));
    assert!(wide.supports(Some(&with_simd), &[NumericOrder::Greater]));
    assert!(!wide.supports(Some(&with_simd), &[NumericOrder::Less]));
    assert!(!wide.supports(Some(&target), &[NumericOrder::Unordered]));
}

#[test]
fn registry_rejects_invalid_and_duplicate_kernels() {
    let mut registry = KernelRegistry::new();
    assert!(registry.register(KernelRegistration::new("axpy", KernelBackend::Cpu), Ok(())).is_ok());
    match registry.register(KernelRegistration::new("axpy", KernelBackend::Cuda), Ok(())) {
        Err(KernelError::DuplicateKernel(name)) => assert_eq!(name, "axpy"),
        other => panic!("unexpected {other:?}"),
    }
    match registry.register(KernelRegistration::new("bad", KernelBackend::Cpu), Err("no symbol".to_string())) {
        Err(KernelError::InvalidDescriptor { kernel, message }) => {
            assert_eq!(kernel, "bad");
            assert_eq!(message, "no symbol");
        }
        other => panic!("unexpected {other:?}"),
    }
    // A failed descriptor check is reported before a duplicate name.
    match registry.register(KernelRegistration::new("axpy", KernelBackend::Cpu), Err("broken".to_string())) {
        Err(KernelError::InvalidDescriptor { kernel, .. }) => assert_eq!(kernel, "axpy"),
        other => panic!("unexpected {other:?}"),
    }
    assert_eq!(registry.registrations().len(), 1);
    assert_eq!(registry.position("axpy"), Some(0));
    assert_eq!(registry.position("bad"), None);
}

#[test]
fn supported_kernels_keep_registration_order() {
    let mut registry = KernelRegistry::new();
    registry.register(KernelRegistration::new("a", KernelBackend::Cuda), Ok(())).unwrap();
    registry.register(KernelRegistration::new("b", KernelBackend::Cpu), Ok(())).unwrap();
    registry.register(KernelRegistration::new("c", KernelBackend::Cpu), Ok(())).unwrap();
    let target = openmp_target();
    assert_eq!(registry.supported(Some(&target), &[vec![], vec![], vec![]]), vec![1, 2]);
    assert!(registry.supported(None, &[vec![], vec![], vec![]]).is_empty());
}
