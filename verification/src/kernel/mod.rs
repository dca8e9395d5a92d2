use vstd::prelude::*;

pub mod laws;
pub mod registry;

use crate::planning::assemble::{decimal, push_decimal};
use crate::policy::value::{PolicyValue, ValueView};
use crate::target::{CapabilityRequirement, RequirementView};
use crate::policy::constraint::PredicateView;

verus! {

pub const KERNEL_DIALECT: &'static str = "kernel";

pub const KERNEL_CALL_OPERATION: &'static str = "kernel.call";

pub const KERNEL_NAME_ATTRIBUTE: &'static str = "kernel.name";

pub const KERNEL_SYMBOL_ATTRIBUTE: &'static str = "kernel.symbol";

pub const KERNEL_BACKEND_ATTRIBUTE: &'static str = "kernel.backend";

pub const KERNEL_PARAMETER_COUNT_ATTRIBUTE: &'static str = "kernel.parameter_count";

pub const KERNEL_RESULT_COUNT_ATTRIBUTE: &'static str = "kernel.result_count";

pub const KERNEL_RESULT_ALIAS_PREFIX: &'static str = "kernel.result_alias.";

/// The interface that marks `kernel.call` operations.
#[derive(Debug, Default, Clone, Copy)]
pub struct KernelCallInterface;

/// The `kernel.call` operation.
#[derive(Debug)]
pub struct KernelCallOp;

/// The attributes of a `kernel.call` to the kernel `name` (at `symbol`, on `backend`) with
/// `parameter_count` ABI parameters, whose result `i` aliases parameter `result_aliases[i]`:
/// the name, symbol and backend texts, the parameter and result counts, then one alias
/// attribute per result.
pub open spec fn call_attributes(
    name: Seq<char>,
    symbol: Seq<char>,
    backend: Seq<char>,
    parameter_count: int,
    result_aliases: Seq<usize>,
) -> Seq<(Seq<char>, AttributeView)> {
    seq![
        ("kernel.name"@, AttributeView::Text(name)),
        ("kernel.symbol"@, AttributeView::Text(symbol)),
        ("kernel.backend"@, AttributeView::Text(backend)),
        ("kernel.parameter_count"@, AttributeView::Integer(parameter_count as i64)),
        ("kernel.result_count"@, AttributeView::Integer(result_aliases.len() as i64)),
    ] + alias_entries(result_aliases, result_aliases.len() as int)
}

/// The alias attributes of the first `n` results.
pub open spec fn alias_entries(result_aliases: Seq<usize>, n: int) -> Seq<(Seq<char>, AttributeView)> {
    Seq::new(n as nat, |i: int| (alias_name(i as nat), AttributeView::Integer(result_aliases[i] as i64)))
}

impl KernelCallOp {
    /// The attributes of a call to a kernel; the call has one result per alias.
    pub fn attributes(
        name: &str,
        symbol: &str,
        backend: &str,
        parameter_count: usize,
        result_aliases: &[usize],
    ) -> (r: Vec<(String, KernelAttribute)>)
        requires
            parameter_count <= i64::MAX,
            result_aliases@.len() <= i64::MAX,
            forall|i: int| 0 <= i < result_aliases@.len() ==> #[trigger] result_aliases@[i] <= i64::MAX,
        ensures
            attribute_views(r@) == call_attributes(name@, symbol@, backend@, parameter_count as int, result_aliases@),
    {
        let mut r: Vec<(String, KernelAttribute)> = Vec::new();
        r.push((String::from_str("kernel.name"), KernelAttribute::Text(String::from_str(name))));
        r.push((String::from_str("kernel.symbol"), KernelAttribute::Text(String::from_str(symbol))));
        r.push((String::from_str("kernel.backend"), KernelAttribute::Text(String::from_str(backend))));
        r.push((String::from_str("kernel.parameter_count"), KernelAttribute::Integer(parameter_count as i64)));
        r.push((String::from_str("kernel.result_count"), KernelAttribute::Integer(result_aliases.len() as i64)));
        let ghost head = attribute_views(r@);
        proof {
            assert(attribute_views(r@) =~= head + alias_entries(result_aliases@, 0));
        }
        let mut i: usize = 0;
        while i < result_aliases.len()
            invariant
                0 <= i <= result_aliases@.len(),
                forall|k: int| 0 <= k < result_aliases@.len() ==> #[trigger] result_aliases@[k] <= i64::MAX,
                attribute_views(r@) == head + alias_entries(result_aliases@, i as int),
            decreases result_aliases@.len() - i,
        {
            let ghost before = attribute_views(r@);
            r.push((alias_attribute(i), KernelAttribute::Integer(result_aliases[i] as i64)));
            proof {
                assert(attribute_views(r@) =~= before.push((alias_name(i as nat), AttributeView::Integer(result_aliases@[i as int] as i64))));
                assert(alias_entries(result_aliases@, i + 1) =~= alias_entries(result_aliases@, i as int).push((alias_name(i as nat), AttributeView::Integer(result_aliases@[i as int] as i64))));
                assert(head + alias_entries(result_aliases@, i + 1) =~= (head + alias_entries(result_aliases@, i as int)).push((alias_name(i as nat), AttributeView::Integer(result_aliases@[i as int] as i64))));
            }
            i = i + 1;
        }
        proof {
            assert(head =~= seq![
                ("kernel.name"@, AttributeView::Text(name@)),
                ("kernel.symbol"@, AttributeView::Text(symbol@)),
                ("kernel.backend"@, AttributeView::Text(backend@)),
                ("kernel.parameter_count"@, AttributeView::Integer(parameter_count as i64)),
                ("kernel.result_count"@, AttributeView::Integer(result_aliases@.len() as i64)),
            ]);
        }
        r
    }
}

/// The backend a kernel runs on.
#[derive(Debug, Clone, Copy, PartialEq, Eq, Structural)]
pub enum KernelBackend {
    Cpu,
    Cuda,
}

/// The target capability a backend needs.
pub trait KernelBackendRequirement {
    fn implicit_requirement(self) -> CapabilityRequirement;
}

impl KernelBackendRequirement for KernelBackend {
    /// The CPU backend needs OpenMP; the CUDA backend needs CUDA.
    fn implicit_requirement(self) -> (r: CapabilityRequirement)
        ensures
            r@ == (RequirementView {
                property: match self {
                    KernelBackend::Cpu => "backend.openmp"@,
                    KernelBackend::Cuda => "backend.cuda"@,
                },
                predicate: PredicateView::Equals(ValueView::Bool(true)),
            }),
    {
        match self {
            KernelBackend::Cpu => CapabilityRequirement::equals("backend.openmp", PolicyValue::Bool(true)),
            KernelBackend::Cuda => CapabilityRequirement::equals("backend.cuda", PolicyValue::Bool(true)),
        }
    }
}

/// The requirement of a backend, as a plain function.
pub fn backend_requirement(backend: KernelBackend) -> (r: CapabilityRequirement)
    ensures
        r@ == (RequirementView {
            property: match backend {
                KernelBackend::Cpu => "backend.openmp"@,
                KernelBackend::Cuda => "backend.cuda"@,
            },
            predicate: PredicateView::Equals(ValueView::Bool(true)),
        }),
{
    match backend {
        KernelBackend::Cpu => CapabilityRequirement::equals("backend.openmp", PolicyValue::Bool(true)),
        KernelBackend::Cuda => CapabilityRequirement::equals("backend.cuda", PolicyValue::Bool(true)),
    }
}

/// The value of an operation attribute, as far as the kernel call check reads it.
#[derive(Debug)]
pub enum KernelAttribute {
    Text(String),
    Integer(i64),
    Other,
}

pub enum AttributeView {
    Text(Seq<char>),
    Integer(i64),
    Other,
}

impl View for KernelAttribute {
    type V = AttributeView;

    open spec fn view(&self) -> AttributeView {
        match self {
            KernelAttribute::Text(s) => AttributeView::Text(s@),
            KernelAttribute::Integer(i) => AttributeView::Integer(*i),
            KernelAttribute::Other => AttributeView::Other,
        }
    }
}

/// What the kernel call check reads of an operation: how many regions, successors, operands
/// and results it has, and its attributes by name.
#[derive(Debug)]
pub struct KernelCallShape {
    pub regions: usize,
    pub successors: usize,
    pub operands: usize,
    pub results: usize,
    pub attributes: Vec<(String, KernelAttribute)>,
}

pub open spec fn attribute_views(a: Seq<(String, KernelAttribute)>) -> Seq<(Seq<char>, AttributeView)> {
    a.map_values(|e: (String, KernelAttribute)| (e.0@, e.1@))
}

/// The first attribute named `name`.
#[verifier::opaque]
pub open spec fn attribute_of(a: Seq<(Seq<char>, AttributeView)>, name: Seq<char>) -> Option<AttributeView> {
    if exists|i: int| 0 <= i < a.len() && (#[trigger] a[i]).0 == name {
        Some(
            a[choose|i: int|
                0 <= i < a.len() && (#[trigger] a[i]).0 == name && forall|j: int| 0 <= j < i ==> a[j].0 != name].1,
        )
    } else {
        None
    }
}

/// A count read from an attribute: `Ok` with the count, or `Err(true)` when it does not fit
/// in `usize`, `Err(false)` when the attribute is missing, not an integer or negative.
pub open spec fn count_of(a: Option<AttributeView>) -> Result<nat, bool> {
    match a {
        Some(AttributeView::Integer(v)) => if v < 0 {
            Err(false)
        } else if v > usize::MAX {
            Err(true)
        } else {
            Ok(v as nat)
        },
        _ => Err(false),
    }
}

/// The name of the attribute that gives the parameter aliased by result `i`.
pub open spec fn alias_name(i: nat) -> Seq<char> {
    "kernel.result_alias."@ + decimal(i)
}

/// Why the alias of result `i` is wrong, if it is.
pub open spec fn alias_error(a: Seq<(Seq<char>, AttributeView)>, expected: nat, i: nat) -> Option<Seq<char>> {
    match count_of(attribute_of(a, alias_name(i))) {
        Err(true) => Some("'"@ + alias_name(i) + "' is too large"@),
        Err(false) => Some("kernel.call requires non-negative integer attribute '"@ + alias_name(i) + "'"@),
        Ok(p) => if p >= expected {
            Some(
                "kernel result "@ + decimal(i) + " aliases ABI parameter "@ + decimal(p) + ", but only "@
                    + decimal(expected) + " parameters exist"@,
            )
        } else {
            None
        },
    }
}

/// The first wrong alias among results `0..n`.
pub open spec fn first_alias_error(a: Seq<(Seq<char>, AttributeView)>, expected: nat, n: nat) -> Option<Seq<char>>
    decreases n,
{
    if n == 0 {
        None
    } else {
        match first_alias_error(a, expected, (n - 1) as nat) {
            Some(m) => Some(m),
            None => alias_error(a, expected, (n - 1) as nat),
        }
    }
}

/// The checks that follow the counts: as many results as declared, every result aliasing an
/// existing parameter, and as many operands as parameters.
#[verifier::opaque]
pub open spec fn shape_error(
    operands: nat,
    results: nat,
    expected: nat,
    result_count: nat,
    a: Seq<(Seq<char>, AttributeView)>,
) -> Option<Seq<char>> {
    if results != result_count {
        Some("kernel.call has "@ + decimal(results) + " results but declares "@ + decimal(result_count))
    } else if first_alias_error(a, expected, result_count) is Some {
        first_alias_error(a, expected, result_count)
    } else if operands != expected {
        Some("kernel.call has "@ + decimal(operands) + " operands but its ABI expects "@ + decimal(expected))
    } else {
        None
    }
}

/// The string attribute checks, in order.
pub open spec fn text_error(a: Seq<(Seq<char>, AttributeView)>) -> Option<Seq<char>> {
    if !(attribute_of(a, "kernel.name"@) matches Some(AttributeView::Text(_))) {
        Some("kernel.call requires string attribute 'kernel.name'"@)
    } else if !(attribute_of(a, "kernel.symbol"@) matches Some(AttributeView::Text(_))) {
        Some("kernel.call requires string attribute 'kernel.symbol'"@)
    } else if !(attribute_of(a, "kernel.backend"@) matches Some(AttributeView::Text(_))) {
        Some("kernel.call requires string attribute 'kernel.backend'"@)
    } else {
        None
    }
}

/// Why an operation is not a well-formed `kernel.call`, if it is not, as the checks run:
/// no regions and no successors, string name, symbol and backend attributes, non-negative
/// parameter and result counts, as many results as declared, every result aliasing an
/// existing parameter, and as many operands as parameters.
pub open spec fn kernel_call_error(
    regions: nat,
    successors: nat,
    operands: nat,
    results: nat,
    a: Seq<(Seq<char>, AttributeView)>,
) -> Option<Seq<char>> {
    if regions != 0 {
        Some("kernel.call must not own regions"@)
    } else if successors != 0 {
        Some("kernel.call must not have successors"@)
    } else if text_error(a) is Some {
        text_error(a)
    } else {
        match count_of(attribute_of(a, "kernel.parameter_count"@)) {
            Err(true) => Some("kernel parameter count is too large"@),
            Err(false) => Some("kernel.call requires a non-negative integer kernel.parameter_count"@),
            Ok(expected) => match count_of(attribute_of(a, "kernel.result_count"@)) {
                Err(true) => Some("kernel result count is too large"@),
                Err(false) => Some("kernel.call requires a non-negative integer kernel.result_count"@),
                Ok(result_count) => shape_error(operands, results, expected, result_count, a),
            },
        }
    }
}

impl KernelCallShape {
    pub open spec fn error(&self) -> Option<Seq<char>> {
        kernel_call_error(
            self.regions as nat,
            self.successors as nat,
            self.operands as nat,
            self.results as nat,
            attribute_views(self.attributes@),
        )
    }

    /// The first attribute named `name`.
    pub fn attribute(&self, name: &str) -> (r: Option<&KernelAttribute>)
        ensures
            match r {
                Some(v) => attribute_of(attribute_views(self.attributes@), name@) == Some(v@),
                None => attribute_of(attribute_views(self.attributes@), name@) is None,
            },
    {
        let ghost a = attribute_views(self.attributes@);
        proof {
            reveal(attribute_of);
        }
        let key = name.to_string();
        let mut i: usize = 0;
        while i < self.attributes.len()
            invariant
                0 <= i <= self.attributes@.len(),
                a == attribute_views(self.attributes@),
                key@ == name@,
                forall|k: int| 0 <= k < i ==> (#[trigger] a[k]).0 != name@,
            decreases self.attributes@.len() - i,
        {
            if self.attributes[i].0 == key {
                proof {
                    reveal(attribute_of);
                    assert(a[i as int] == (self.attributes@[i as int].0@, self.attributes@[i as int].1@));
                    assert(a[i as int].0 == name@);
                    let c = choose|c: int|
                        0 <= c < a.len() && (#[trigger] a[c]).0 == name@ && forall|j: int| 0 <= j < c ==> a[j].0 != name@;
                    if c < i {
                        assert(a[c].0 != name@);
                    } else if c > i {
                        assert(a[i as int].0 != name@);
                    }
                }
                return Some(&self.attributes[i].1);
            }
            proof {
                assert(a[i as int].0 != name@);
            }
            i = i + 1;
        }
        proof {
            if exists|k: int| 0 <= k < a.len() && (#[trigger] a[k]).0 == name@ {
                let k = choose|k: int| 0 <= k < a.len() && (#[trigger] a[k]).0 == name@;
            }
        }
        None
    }
}

/// Reads a count from an attribute.
fn read_count(a: Option<&KernelAttribute>) -> (r: Result<usize, bool>)
    ensures
        match r {
            Ok(n) => count_of(
                match a {
                    Some(v) => Some(v@),
                    None => None,
                },
            ) == Ok::<nat, bool>(n as nat),
            Err(b) => count_of(
                match a {
                    Some(v) => Some(v@),
                    None => None,
                },
            ) == Err::<nat, bool>(b),
        },
{
    match a {
        Some(KernelAttribute::Integer(v)) => {
            if *v < 0 {
                Err(false)
            } else if (*v as u64) > (usize::MAX as u64) {
                Err(true)
            } else {
                Ok(*v as usize)
            }
        },
        _ => Err(false),
    }
}

/// The name of the alias attribute of result `i`.
pub fn alias_attribute(i: usize) -> (r: String)
    ensures
        r@ == alias_name(i as nat),
{
    let mut s = String::from_str("kernel.result_alias.");
    push_decimal(&mut s, i);
    s
}

fn text_message(prefix: &str, middle: &str, suffix: &str) -> (r: String)
    ensures
        r@ == prefix@ + middle@ + suffix@,
{
    let mut s = String::from_str(prefix);
    s.append(middle);
    s.append(suffix);
    s
}

/// Checks the alias of result `i`.
fn check_alias(op: &KernelCallShape, expected: usize, i: usize) -> (r: Result<(), String>)
    ensures
        match r {
            Ok(()) => alias_error(attribute_views(op.attributes@), expected as nat, i as nat) is None,
            Err(m) => alias_error(attribute_views(op.attributes@), expected as nat, i as nat) == Some(m@),
        },
{
    let name = alias_attribute(i);
    match read_count(op.attribute(name.as_str())) {
        Err(true) => Err(text_message("'", name.as_str(), "' is too large")),
        Err(false) => Err(text_message("kernel.call requires non-negative integer attribute '", name.as_str(), "'")),
        Ok(p) => {
            if p >= expected {
                let mut s = String::from_str("kernel result ");
                push_decimal(&mut s, i);
                s.append(" aliases ABI parameter ");
                push_decimal(&mut s, p);
                s.append(", but only ");
                push_decimal(&mut s, expected);
                s.append(" parameters exist");
                Err(s)
            } else {
                Ok(())
            }
        },
    }
}

fn has_text(a: Option<&KernelAttribute>) -> (r: bool)
    ensures
        r == (match a {
            Some(v) => Some(v@),
            None => None,
        } matches Some(AttributeView::Text(_))),
{
    match a {
        Some(KernelAttribute::Text(_)) => true,
        _ => false,
    }
}

/// Checks that an operation is a well-formed `kernel.call`; the message says what is wrong.
pub fn verify_kernel_call(op: &KernelCallShape) -> (r: Result<(), String>)
    ensures
        match r {
            Ok(()) => op.error() is None,
            Err(m) => op.error() == Some(m@),
        },
{
    let ghost a = attribute_views(op.attributes@);
    if op.regions != 0 {
        return Err(String::from_str("kernel.call must not own regions"));
    }
    if op.successors != 0 {
        return Err(String::from_str("kernel.call must not have successors"));
    }
    if !has_text(op.attribute("kernel.name")) {
        return Err(String::from_str("kernel.call requires string attribute 'kernel.name'"));
    }
    if !has_text(op.attribute("kernel.symbol")) {
        return Err(String::from_str("kernel.call requires string attribute 'kernel.symbol'"));
    }
    if !has_text(op.attribute("kernel.backend")) {
        return Err(String::from_str("kernel.call requires string attribute 'kernel.backend'"));
    }
    let expected = match read_count(op.attribute("kernel.parameter_count")) {
        Ok(n) => n,
        Err(true) => {
            return Err(String::from_str("kernel parameter count is too large"));
        },
        Err(false) => {
            return Err(String::from_str("kernel.call requires a non-negative integer kernel.parameter_count"));
        },
    };
    let result_count = match read_count(op.attribute("kernel.result_count")) {
        Ok(n) => n,
        Err(true) => {
            return Err(String::from_str("kernel result count is too large"));
        },
        Err(false) => {
            return Err(String::from_str("kernel.call requires a non-negative integer kernel.result_count"));
        },
    };
    check_shape(op, expected, result_count)
}

/// The checks of a `kernel.call` that follow its counts.
fn check_shape(op: &KernelCallShape, expected: usize, result_count: usize) -> (r: Result<(), String>)
    ensures
        match r {
            Ok(()) => shape_error(op.operands as nat, op.results as nat, expected as nat, result_count as nat,
                attribute_views(op.attributes@)) is None,
            Err(m) => shape_error(op.operands as nat, op.results as nat, expected as nat, result_count as nat,
                attribute_views(op.attributes@)) == Some(m@),
        },
{
    let ghost a = attribute_views(op.attributes@);
    proof {
        reveal(shape_error);
    }
    if op.results != result_count {
        let mut s = String::from_str("kernel.call has ");
        push_decimal(&mut s, op.results);
        s.append(" results but declares ");
        push_decimal(&mut s, result_count);
        return Err(s);
    }
    let mut i: usize = 0;
    while i < result_count
        invariant
            0 <= i <= result_count,
            op.results == result_count,
            a == attribute_views(op.attributes@),
            first_alias_error(a, expected as nat, i as nat) is None,
        decreases result_count - i,
    {
        match check_alias(op, expected, i) {
            Ok(()) => {},
            Err(m) => {
                proof {
                    reveal(shape_error);
                    lemma_first_alias_error_stays(a, expected as nat, (i + 1) as nat, result_count as nat);
                }
                return Err(m);
            },
        }
        i = i + 1;
    }
    if op.operands != expected {
        let mut s = String::from_str("kernel.call has ");
        push_decimal(&mut s, op.operands);
        s.append(" operands but its ABI expects ");
        push_decimal(&mut s, expected);
        return Err(s);
    }
    Ok(())
}

/// Once a wrong alias is found among the first results, it stays the first one.
proof fn lemma_first_alias_error_stays(a: Seq<(Seq<char>, AttributeView)>, expected: nat, m: nat, n: nat)
    requires
        m <= n,
        first_alias_error(a, expected, m) is Some,
    ensures
        first_alias_error(a, expected, n) == first_alias_error(a, expected, m),
    decreases n - m,
{
    if m < n {
        lemma_first_alias_error_stays(a, expected, m, (n - 1) as nat);
    }
}

} // verus!
