use vstd::prelude::*;

use super::{backend_requirement, KernelBackend};
use crate::planning::edge::supports;
use crate::target::{requirement_met, CapabilityRequirement, NumericOrder, RequirementView, TargetProfile, TargetView};

verus! {

/// A kernel offered for selection: its name, the backend it runs on and what it asks of the
/// target beyond that backend.
#[derive(Debug)]
pub struct KernelRegistration {
    name: String,
    backend: KernelBackend,
    requirements: Vec<CapabilityRequirement>,
}

pub struct RegistrationView {
    pub name: Seq<char>,
    pub backend: KernelBackend,
    pub requirements: Seq<RequirementView>,
}

impl View for KernelRegistration {
    type V = RegistrationView;

    closed spec fn view(&self) -> RegistrationView {
        RegistrationView {
            name: self.name@,
            backend: self.backend,
            requirements: self.requirements@.map_values(|q: CapabilityRequirement| q@),
        }
    }
}

/// The requirement a backend puts on the target.
pub open spec fn backend_requirement_view(backend: KernelBackend) -> RequirementView {
    RequirementView {
        property: match backend {
            KernelBackend::Cpu => "backend.openmp"@,
            KernelBackend::Cuda => "backend.cuda"@,
        },
        predicate: crate::policy::constraint::PredicateView::Equals(
            crate::policy::value::ValueView::Bool(true),
        ),
    }
}

/// Whether a target can run a registered kernel: it offers the backend and meets every
/// requirement; `orders[i]` is how the target's number compares with the bound of
/// requirement `i`, as doubles.
pub open spec fn registration_supported(
    r: RegistrationView,
    target: Option<TargetView>,
    orders: Seq<NumericOrder>,
) -> bool {
    requirement_met(backend_requirement_view(r.backend), target, NumericOrder::Unordered)
        && supports(r.requirements, target, orders)
}

pub open spec fn target_view(target: Option<&TargetProfile>) -> Option<TargetView> {
    match target {
        Some(t) => Some(t@),
        None => None,
    }
}

impl KernelRegistration {
    pub fn new(name: &str, backend: KernelBackend) -> (r: KernelRegistration)
        ensures
            r@ == (RegistrationView { name: name@, backend, requirements: Seq::empty() }),
    {
        let r = KernelRegistration { name: name.to_string(), backend, requirements: Vec::new() };
        proof {
            assert(r@.requirements =~= Seq::<RequirementView>::empty());
        }
        r
    }

    /// Adds a requirement on the target.
    pub fn requiring(self, requirement: CapabilityRequirement) -> (r: KernelRegistration)
        ensures
            r@ == (RegistrationView {
                name: self@.name,
                backend: self@.backend,
                requirements: self@.requirements.push(requirement@),
            }),
    {
        let ghost req = requirement@;
        let mut requirements = self.requirements;
        let ghost before = requirements@;
        requirements.push(requirement);
        let r = KernelRegistration { name: self.name, backend: self.backend, requirements };
        proof {
            assert(r@.requirements =~= before.map_values(|q: CapabilityRequirement| q@).push(req));
        }
        r
    }

    pub fn name(&self) -> (r: &str)
        ensures
            r@ == self@.name,
    {
        self.name.as_str()
    }

    pub fn backend(&self) -> (r: KernelBackend)
        ensures
            r == self@.backend,
    {
        self.backend
    }

    pub fn requirements(&self) -> (r: &[CapabilityRequirement])
        ensures
            r@.map_values(|q: CapabilityRequirement| q@) == self@.requirements,
    {
        self.requirements.as_slice()
    }

    /// Whether `target` offers the kernel's backend and meets each of its requirements;
    /// `orders[i]` is how the target's number compares with the bound of requirement `i`.
    pub fn supports(&self, target: Option<&TargetProfile>, orders: &[NumericOrder]) -> (r: bool)
        requires
            target matches Some(t) ==> t.wf(),
            orders@.len() == self@.requirements.len(),
        ensures
            r == registration_supported(self@, target_view(target), orders@),
    {
        let ghost t = target_view(target);
        let backend = backend_requirement(self.backend);
        if !backend.is_satisfied_by(target, NumericOrder::Unordered) {
            return false;
        }
        let ghost reqs = self@.requirements;
        let mut i: usize = 0;
        while i < self.requirements.len()
            invariant
                0 <= i <= self.requirements@.len(),
                reqs == self.requirements@.map_values(|q: CapabilityRequirement| q@),
                reqs == self@.requirements,
                orders@.len() == reqs.len(),
                target matches Some(x) ==> x.wf(),
                t == target_view(target),
                requirement_met(backend_requirement_view(self@.backend), t, NumericOrder::Unordered),
                forall|k: int| 0 <= k < i ==> requirement_met(#[trigger] reqs[k], t, orders@[k]),
            decreases self.requirements@.len() - i,
        {
            if !self.requirements[i].is_satisfied_by(target, orders[i]) {
                proof {
                    assert(reqs[i as int] == self.requirements@[i as int]@);
                    assert(!requirement_met(reqs[i as int], t, orders@[i as int]));
                }
                return false;
            }
            i = i + 1;
        }
        true
    }
}

/// Why a kernel was not registered.
#[derive(Debug)]
pub enum KernelError {
    InvalidDescriptor { kernel: String, message: String },
    DuplicateKernel(String),
}

pub enum KernelErrorView {
    InvalidDescriptor { kernel: Seq<char>, message: Seq<char> },
    DuplicateKernel(Seq<char>),
}

impl View for KernelError {
    type V = KernelErrorView;

    open spec fn view(&self) -> KernelErrorView {
        match self {
            KernelError::InvalidDescriptor { kernel, message } => KernelErrorView::InvalidDescriptor {
                kernel: kernel@,
                message: message@,
            },
            KernelError::DuplicateKernel(name) => KernelErrorView::DuplicateKernel(name@),
        }
    }
}

pub open spec fn registration_views(s: Seq<KernelRegistration>) -> Seq<RegistrationView> {
    s.map_values(|r: KernelRegistration| r@)
}

/// Some registration in `s` carries `name`.
pub open spec fn has_kernel(s: Seq<RegistrationView>, name: Seq<char>) -> bool {
    exists|i: int| 0 <= i < s.len() && (#[trigger] s[i]).name == name
}

/// What registering `r` after the kernels `s` gives, where `validation` is what checking its
/// descriptor gave: `s` with `r` appended, or the error for a failed check or a taken name.
pub open spec fn kernel_registration(
    s: Seq<RegistrationView>,
    r: RegistrationView,
    validation: Result<(), Seq<char>>,
) -> Result<Seq<RegistrationView>, KernelErrorView> {
    match validation {
        Err(message) => Err(KernelErrorView::InvalidDescriptor { kernel: r.name, message }),
        Ok(()) => if has_kernel(s, r.name) {
            Err(KernelErrorView::DuplicateKernel(r.name))
        } else {
            Ok(s.push(r))
        },
    }
}

/// The kernels registered so far, in registration order, with distinct names.
#[derive(Debug)]
pub struct KernelRegistry {
    registrations: Vec<KernelRegistration>,
}

impl View for KernelRegistry {
    type V = Seq<RegistrationView>;

    closed spec fn view(&self) -> Seq<RegistrationView> {
        registration_views(self.registrations@)
    }
}

impl KernelRegistry {
    #[verifier::type_invariant]
    spec fn inv(self) -> bool {
        forall|i: int, j: int|
            0 <= i < j < self.registrations@.len() ==> (#[trigger] self.registrations@[i])@.name
                != (#[trigger] self.registrations@[j])@.name
    }

    pub fn new() -> (r: KernelRegistry)
        ensures
            r@ == Seq::<RegistrationView>::empty(),
    {
        let r = KernelRegistry { registrations: Vec::new() };
        proof {
            assert(r@ =~= Seq::<RegistrationView>::empty());
        }
        r
    }

    /// Position of the kernel named `name`.
    pub fn position(&self, name: &str) -> (r: Option<usize>)
        ensures
            match r {
                Some(i) => i < self@.len() && self@[i as int].name == name@,
                None => !has_kernel(self@, name@),
            },
    {
        let key = name.to_string();
        let mut i: usize = 0;
        while i < self.registrations.len()
            invariant
                0 <= i <= self.registrations@.len(),
                key@ == name@,
                forall|k: int| 0 <= k < i ==> (#[trigger] self.registrations@[k])@.name != name@,
            decreases self.registrations@.len() - i,
        {
            if self.registrations[i].name == key {
                return Some(i);
            }
            i = i + 1;
        }
        proof {
            if has_kernel(self@, name@) {
                let k = choose|k: int| 0 <= k < self@.len() && (#[trigger] self@[k]).name == name@;
                assert(self.registrations@[k]@.name == name@);
            }
        }
        None
    }

    /// Registers a kernel. `validation` is what checking the kernel's descriptor gave; a
    /// failed check is reported first, then a name that is already registered.
    pub fn register(&mut self, registration: KernelRegistration, validation: Result<(), String>) -> (r: Result<(), KernelError>)
        ensures
            kernel_registration(
                old(self)@,
                registration@,
                match validation {
                    Ok(()) => Ok(()),
                    Err(m) => Err(m@),
                },
            ) == match r {
                Ok(()) => Ok(final(self)@),
                Err(e) => Err::<Seq<RegistrationView>, KernelErrorView>(e@),
            },
            match r {
                Ok(()) => {
                    &&& validation is Ok
                    &&& !has_kernel(old(self)@, registration@.name)
                    &&& final(self)@ == old(self)@.push(registration@)
                },
                Err(e) => {
                    &&& final(self)@ == old(self)@
                    &&& match validation {
                        Err(message) => e@ == KernelErrorView::InvalidDescriptor {
                            kernel: registration@.name,
                            message: message@,
                        },
                        Ok(()) => has_kernel(old(self)@, registration@.name) && e@
                            == KernelErrorView::DuplicateKernel(registration@.name),
                    }
                },
            },
    {
        proof {
            use_type_invariant(&*self);
        }
        match validation {
            Err(message) => {
                return Err(KernelError::InvalidDescriptor { kernel: registration.name.clone(), message });
            },
            Ok(()) => {},
        }
        match self.position(registration.name()) {
            Some(_) => {
                return Err(KernelError::DuplicateKernel(registration.name.clone()));
            },
            None => {},
        }
        let ghost old_regs = self.registrations@;
        let ghost reg = registration@;
        let mut registrations = Vec::new();
        std::mem::swap(&mut registrations, &mut self.registrations);
        registrations.push(registration);
        proof {
            assert forall|i: int, j: int| 0 <= i < j < registrations@.len() implies (
            #[trigger] registrations@[i])@.name != (#[trigger] registrations@[j])@.name by {
                if j == registrations@.len() - 1 {
                    if old_regs[i]@.name == reg.name {
                        assert(registration_views(old_regs)[i].name == reg.name);
                    }
                } else {
                    assert(old_regs[i]@.name != old_regs[j]@.name);
                }
            }
            assert(registration_views(registrations@) =~= registration_views(old_regs).push(reg));
        }
        self.registrations = registrations;
        Ok(())
    }

    /// The registrations in registration order.
    pub fn registrations(&self) -> (r: &[KernelRegistration])
        ensures
            registration_views(r@) == self@,
    {
        self.registrations.as_slice()
    }

    /// The positions, in order, of the kernels the target can run; `orders[i]` gives the
    /// comparisons for the requirements of kernel `i`.
    pub fn supported(&self, target: Option<&TargetProfile>, orders: &[Vec<NumericOrder>]) -> (r: Vec<usize>)
        requires
            target matches Some(t) ==> t.wf(),
            orders@.len() == self@.len(),
            forall|i: int| 0 <= i < orders@.len() ==> (#[trigger] orders@[i])@.len() == self@[i].requirements.len(),
        ensures
            forall|k: int| 0 <= k < r@.len() ==> (#[trigger] r@[k]) < self@.len(),
            forall|a: int, b: int| 0 <= a < b < r@.len() ==> (#[trigger] r@[a]) < (#[trigger] r@[b]),
            forall|i: int|
                0 <= i < self@.len() ==> (r@.contains(i as usize) <==> registration_supported(
                    #[trigger] self@[i],
                    target_view(target),
                    orders@[i]@,
                )),
    {
        let mut out: Vec<usize> = Vec::new();
        let mut i: usize = 0;
        while i < self.registrations.len()
            invariant
                0 <= i <= self.registrations@.len(),
                self@ == registration_views(self.registrations@),
                orders@.len() == self@.len(),
                forall|j: int| 0 <= j < orders@.len() ==> (#[trigger] orders@[j])@.len() == self@[j].requirements.len(),
                target matches Some(t) ==> t.wf(),
                forall|k: int| 0 <= k < out@.len() ==> (#[trigger] out@[k]) < i,
                forall|a: int, b: int| 0 <= a < b < out@.len() ==> (#[trigger] out@[a]) < (#[trigger] out@[b]),
                forall|j: int|
                    0 <= j < i ==> (out@.contains(j as usize) <==> registration_supported(
                        #[trigger] self@[j],
                        target_view(target),
                        orders@[j]@,
                    )),
            decreases self.registrations@.len() - i,
        {
            let ok = self.registrations[i].supports(target, orders[i].as_slice());
            let ghost before = out@;
            if ok {
                out.push(i);
            }
            proof {
                assert forall|j: int|
                    0 <= j <= i implies (out@.contains(j as usize) <==> registration_supported(
                    #[trigger] self@[j],
                    target_view(target),
                    orders@[j]@,
                )) by {
                    if j < i {
                        if ok {
                            if out@.contains(j as usize) {
                                let k = choose|k: int| 0 <= k < out@.len() && out@[k] == j as usize;
                                if k < before.len() {
                                    assert(before.contains(j as usize));
                                }
                            }
                            if before.contains(j as usize) {
                                let k = choose|k: int| 0 <= k < before.len() && before[k] == j as usize;
                                assert(out@[k] == j as usize);
                            }
                        } else {
                            assert(out@ == before);
                        }
                    } else {
                        if ok {
                            assert(out@[out@.len() - 1] == i);
                        } else {
                            if out@.contains(i) {
                                let k = choose|k: int| 0 <= k < out@.len() && out@[k] == i;
                                assert(out@[k] < i);
                            }
                        }
                    }
                }
            }
            i = i + 1;
        }
        out
    }
}

/// A kernel registers once: after it registered, another kernel of its name is refused as a
/// duplicate when its descriptor checks out, and the earlier kernels keep their positions.
pub proof fn law_kernel_registers_once(s: Seq<RegistrationView>, r: RegistrationView, other: RegistrationView)
    requires
        kernel_registration(s, r, Ok(())) is Ok,
        other.name == r.name,
    ensures
        ({
            let after = kernel_registration(s, r, Ok(()))->Ok_0;
            &&& after.len() == s.len() + 1
            &&& after.subrange(0, s.len() as int) == s
            &&& after[s.len() as int] == r
            &&& kernel_registration(after, other, Ok(())) == Err::<Seq<RegistrationView>, KernelErrorView>(
                KernelErrorView::DuplicateKernel(r.name),
            )
        }),
{
    let after = s.push(r);
    assert(after[s.len() as int].name == r.name);
    assert(after.subrange(0, s.len() as int) =~= s);
}

} // verus!
