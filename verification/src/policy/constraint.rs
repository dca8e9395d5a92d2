use vstd::prelude::*;

use super::error::{PolicyError, PolicyErrorView};
use super::scope::{ConstraintScope, ScopeView};
use super::value::{
    float_bits_finite, float_bits_positive, float_is_finite, float_is_positive, value_eq,
    value_is_numeric, value_is_valid, PolicyValue, ValueView,
};
use crate::names::{is_name_text, is_valid_key};

verus! {

/// The name of a policy property, such as `numeric.precision`.
#[derive(Debug)]
pub struct Property {
    name: String,
}

impl View for Property {
    type V = Seq<char>;

    closed spec fn view(&self) -> Seq<char> {
        self.name@
    }
}

impl Property {
    pub fn new(name: &str) -> (r: Property)
        ensures
            r@ == name@,
    {
        Property { name: name.to_string() }
    }

    pub fn as_str(&self) -> (r: &str)
        ensures
            r@ == self@,
    {
        self.name.as_str()
    }

    /// The name as text.
    pub fn to_string(&self) -> (r: String)
        ensures
            r@ == self@,
    {
        self.name.clone()
    }

    /// Whether the name is a valid policy key.
    pub fn is_valid(&self) -> (r: bool)
        ensures
            r == is_name_text(self@),
    {
        is_valid_key(self.name.as_str())
    }

    pub fn same(&self, other: &Property) -> (r: bool)
        ensures
            r == (self@ == other@),
    {
        self.name == other.name
    }

    pub fn clone_property(&self) -> (r: Property)
        ensures
            r@ == self@,
    {
        Property { name: self.name.clone() }
    }
}

/// How strongly a constraint binds. A preference's weight is held as the bits of its double.
#[derive(Clone, Copy, Debug, PartialEq, Eq, Structural)]
pub enum ConstraintStrength {
    Required,
    Preferred { weight: u64 },
    Hint,
}

/// What a constraint asks of a property's value.
#[derive(Debug)]
pub enum ConstraintPredicate {
    Equals(PolicyValue),
    NotEquals(PolicyValue),
    OneOf(Vec<PolicyValue>),
    AtLeast(PolicyValue),
    AtMost(PolicyValue),
    Present,
}

pub enum PredicateView {
    Equals(ValueView),
    NotEquals(ValueView),
    OneOf(Seq<ValueView>),
    AtLeast(ValueView),
    AtMost(ValueView),
    Present,
}

impl View for ConstraintPredicate {
    type V = PredicateView;

    open spec fn view(&self) -> PredicateView {
        match self {
            ConstraintPredicate::Equals(v) => PredicateView::Equals(v@),
            ConstraintPredicate::NotEquals(v) => PredicateView::NotEquals(v@),
            ConstraintPredicate::OneOf(vs) => PredicateView::OneOf(vs@.map_values(|v: PolicyValue| v@)),
            ConstraintPredicate::AtLeast(v) => PredicateView::AtLeast(v@),
            ConstraintPredicate::AtMost(v) => PredicateView::AtMost(v@),
            ConstraintPredicate::Present => PredicateView::Present,
        }
    }
}

/// The value that an `Equals` predicate pins.
pub open spec fn exact_value(p: PredicateView) -> Option<ValueView> {
    match p {
        PredicateView::Equals(v) => Some(v),
        _ => None,
    }
}

/// The first problem with a predicate on `property`, in the order the checks run.
pub open spec fn predicate_error(p: PredicateView, property: Seq<char>) -> Option<PolicyErrorView> {
    match p {
        PredicateView::Equals(v) | PredicateView::NotEquals(v) => if !value_is_valid(v) {
            Some(PolicyErrorView::InvalidValue)
        } else {
            None
        },
        PredicateView::OneOf(vs) => if vs.len() == 0 {
            Some(PolicyErrorView::EmptyOneOf { property })
        } else if !(forall|i: int| 0 <= i < vs.len() ==> value_is_valid(#[trigger] vs[i])) {
            Some(PolicyErrorView::InvalidValue)
        } else {
            None
        },
        PredicateView::AtLeast(v) | PredicateView::AtMost(v) => if !value_is_valid(v) {
            Some(PolicyErrorView::InvalidValue)
        } else if !value_is_numeric(v) {
            Some(PolicyErrorView::NonNumericBound { property })
        } else {
            None
        },
        PredicateView::Present => None,
    }
}

impl ConstraintPredicate {
    pub fn exact_value(&self) -> (r: Option<&PolicyValue>)
        ensures
            match r {
                Some(v) => exact_value(self@) == Some(v@),
                None => exact_value(self@) is None,
            },
    {
        match self {
            ConstraintPredicate::Equals(v) => Some(v),
            _ => None,
        }
    }

    /// Checks the predicate's values: finite floats, a non-empty candidate set, numeric bounds.
    pub fn validate(&self, property: &Property) -> (r: Result<(), PolicyError>)
        ensures
            match r {
                Ok(()) => predicate_error(self@, property@) is None,
                Err(e) => predicate_error(self@, property@) == Some(e@),
            },
    {
        match self {
            ConstraintPredicate::Equals(value) | ConstraintPredicate::NotEquals(value) => {
                if !value.validate() {
                    return Err(PolicyError::InvalidValue);
                }
            },
            ConstraintPredicate::OneOf(values) => {
                if values.len() == 0 {
                    return Err(PolicyError::EmptyOneOf { property: property.clone_property() });
                }
                let ghost views = values@.map_values(|v: PolicyValue| v@);
                let mut i: usize = 0;
                while i < values.len()
                    invariant
                        0 <= i <= values@.len(),
                        views == values@.map_values(|v: PolicyValue| v@),
                        self@ == PredicateView::OneOf(views),
                        views.len() > 0,
                        forall|k: int| 0 <= k < i ==> value_is_valid(#[trigger] views[k]),
                    decreases values@.len() - i,
                {
                    if !values[i].validate() {
                        proof {
                            assert(!value_is_valid(views[i as int]));
                        }
                        return Err(PolicyError::InvalidValue);
                    }
                    i = i + 1;
                }
            },
            ConstraintPredicate::AtLeast(value) | ConstraintPredicate::AtMost(value) => {
                if !value.validate() {
                    return Err(PolicyError::InvalidValue);
                }
                if !value.is_numeric() {
                    return Err(PolicyError::NonNumericBound { property: property.clone_property() });
                }
            },
            ConstraintPredicate::Present => {},
        }
        Ok(())
    }

    pub fn clone_predicate(&self) -> (r: ConstraintPredicate)
        ensures
            r@ == self@,
    {
        match self {
            ConstraintPredicate::Equals(v) => ConstraintPredicate::Equals(v.clone_value()),
            ConstraintPredicate::NotEquals(v) => ConstraintPredicate::NotEquals(v.clone_value()),
            ConstraintPredicate::OneOf(vs) => {
                let mut out: Vec<PolicyValue> = Vec::new();
                let mut i: usize = 0;
                while i < vs.len()
                    invariant
                        0 <= i <= vs@.len(),
                        out@.len() == i,
                        forall|k: int| 0 <= k < i ==> (#[trigger] out@[k])@ == vs@[k]@,
                    decreases vs@.len() - i,
                {
                    out.push(vs[i].clone_value());
                    i = i + 1;
                }
                let r = ConstraintPredicate::OneOf(out);
                proof {
                    assert(out@.map_values(|v: PolicyValue| v@) =~= vs@.map_values(|v: PolicyValue| v@));
                }
                r
            },
            ConstraintPredicate::AtLeast(v) => ConstraintPredicate::AtLeast(v.clone_value()),
            ConstraintPredicate::AtMost(v) => ConstraintPredicate::AtMost(v.clone_value()),
            ConstraintPredicate::Present => ConstraintPredicate::Present,
        }
    }
}

/// A constraint of a compile request on one property.
#[derive(Debug)]
pub struct CompilationConstraint {
    scope: ConstraintScope,
    property: Property,
    predicate: ConstraintPredicate,
    strength: ConstraintStrength,
}

pub struct ConstraintView {
    pub scope: ScopeView,
    pub property: Seq<char>,
    pub predicate: PredicateView,
    pub strength: ConstraintStrength,
}

impl View for CompilationConstraint {
    type V = ConstraintView;

    closed spec fn view(&self) -> ConstraintView {
        ConstraintView {
            scope: self.scope@,
            property: self.property@,
            predicate: self.predicate@,
            strength: self.strength,
        }
    }
}

/// A preference weight is usable when it is finite and greater than zero.
pub open spec fn weight_is_valid(weight: u64) -> bool {
    float_is_finite(weight) && float_is_positive(weight)
}

/// The first problem with a constraint, in the order the checks run: its property name,
/// then a preference's weight, then its predicate.
pub open spec fn constraint_error(c: ConstraintView) -> Option<PolicyErrorView> {
    if !is_name_text(c.property) {
        Some(PolicyErrorView::InvalidProperty(c.property))
    } else if c.strength matches ConstraintStrength::Preferred { weight } && !weight_is_valid(
        weight,
    ) {
        Some(PolicyErrorView::InvalidWeight { owner: c.property, weight: c.strength->weight })
    } else {
        predicate_error(c.predicate, c.property)
    }
}

impl CompilationConstraint {
    pub fn new(
        scope: ConstraintScope,
        property: &str,
        predicate: ConstraintPredicate,
        strength: ConstraintStrength,
    ) -> (r: CompilationConstraint)
        ensures
            r@ == (ConstraintView {
                scope: scope@,
                property: property@,
                predicate: predicate@,
                strength,
            }),
    {
        CompilationConstraint { scope, property: Property::new(property), predicate, strength }
    }

    /// A required equality.
    pub fn required(scope: ConstraintScope, property: &str, value: PolicyValue) -> (r:
        CompilationConstraint)
        ensures
            r@ == (ConstraintView {
                scope: scope@,
                property: property@,
                predicate: PredicateView::Equals(value@),
                strength: ConstraintStrength::Required,
            }),
    {
        Self::new(scope, property, ConstraintPredicate::Equals(value), ConstraintStrength::Required)
    }

    /// A preferred equality with the weight given as the bits of a double.
    pub fn preferred(scope: ConstraintScope, property: &str, value: PolicyValue, weight: u64) -> (r:
        CompilationConstraint)
        ensures
            r@ == (ConstraintView {
                scope: scope@,
                property: property@,
                predicate: PredicateView::Equals(value@),
                strength: ConstraintStrength::Preferred { weight },
            }),
    {
        Self::new(
            scope,
            property,
            ConstraintPredicate::Equals(value),
            ConstraintStrength::Preferred { weight },
        )
    }

    /// An equality hint.
    pub fn hint(scope: ConstraintScope, property: &str, value: PolicyValue) -> (r:
        CompilationConstraint)
        ensures
            r@ == (ConstraintView {
                scope: scope@,
                property: property@,
                predicate: PredicateView::Equals(value@),
                strength: ConstraintStrength::Hint,
            }),
    {
        Self::new(scope, property, ConstraintPredicate::Equals(value), ConstraintStrength::Hint)
    }

    pub fn scope(&self) -> (r: &ConstraintScope)
        ensures
            r@ == self@.scope,
    {
        &self.scope
    }

    pub fn property(&self) -> (r: &Property)
        ensures
            r@ == self@.property,
    {
        &self.property
    }

    pub fn predicate(&self) -> (r: &ConstraintPredicate)
        ensures
            r@ == self@.predicate,
    {
        &self.predicate
    }

    pub fn strength(&self) -> (r: ConstraintStrength)
        ensures
            r == self@.strength,
    {
        self.strength
    }

    /// Checks the property name, a preference's weight and the predicate, in that order.
    pub fn validate(&self) -> (r: Result<(), PolicyError>)
        ensures
            match r {
                Ok(()) => constraint_error(self@) is None,
                Err(e) => constraint_error(self@) == Some(e@),
            },
    {
        if !self.property.is_valid() {
            return Err(PolicyError::InvalidProperty(self.property.name.clone()));
        }
        match self.strength {
            ConstraintStrength::Preferred { weight } => {
                if !float_bits_finite(weight) || !float_bits_positive(weight) {
                    return Err(
                        PolicyError::InvalidWeight { owner: self.property.name.clone(), weight },
                    );
                }
            },
            _ => {},
        }
        self.predicate.validate(&self.property)
    }

    pub fn clone_constraint(&self) -> (r: CompilationConstraint)
        ensures
            r@ == self@,
    {
        CompilationConstraint {
            scope: self.scope.clone_scope(),
            property: self.property.clone_property(),
            predicate: self.predicate.clone_predicate(),
            strength: self.strength,
        }
    }
}

/// Two required equalities on the same scope and property that pin different values.
pub open spec fn conflicting(lhs: ConstraintView, rhs: ConstraintView) -> bool {
    &&& lhs.strength == ConstraintStrength::Required
    &&& rhs.strength == ConstraintStrength::Required
    &&& lhs.scope == rhs.scope
    &&& lhs.property == rhs.property
    &&& exact_value(lhs.predicate) is Some
    &&& exact_value(rhs.predicate) is Some
    &&& !value_eq(exact_value(lhs.predicate).unwrap(), exact_value(rhs.predicate).unwrap())
}

/// The constraint at position `i` conflicts with a later one.
pub open spec fn conflicts_later(cs: Seq<ConstraintView>, i: int) -> bool {
    exists|j: int| i < j < cs.len() && #[trigger] conflicting(cs[i], cs[j])
}

/// What validating a list of constraints reports: the first invalid constraint's error, else
/// a conflict reported on the first constraint that conflicts with a later one, else nothing.
pub open spec fn constraint_set_error(cs: Seq<ConstraintView>, e: Option<PolicyErrorView>) -> bool {
    match e {
        None => (forall|i: int| 0 <= i < cs.len() ==> (#[trigger] constraint_error(cs[i])) is None)
            && (forall|i: int| 0 <= i < cs.len() ==> !#[trigger] conflicts_later(cs, i)),
        Some(err) => {
            ||| exists|i: int|
                0 <= i < cs.len() && #[trigger] constraint_error(cs[i]) == Some(err) && forall|k: int|
                    0 <= k < i ==> (#[trigger] constraint_error(cs[k])) is None
            ||| {
                &&& forall|k: int| 0 <= k < cs.len() ==> (#[trigger] constraint_error(cs[k])) is None
                &&& exists|i: int|
                    0 <= i < cs.len() && #[trigger] conflicts_later(cs, i) && err
                        == PolicyErrorView::ConflictingRequiredConstraints {
                        scope: cs[i].scope,
                        property: cs[i].property,
                    } && forall|k: int| 0 <= k < i ==> !#[trigger] conflicts_later(cs, k)
            }
        },
    }
}

/// The constraints of a compile request, in the order they were added.
#[derive(Debug)]
pub struct ConstraintSet {
    constraints: Vec<CompilationConstraint>,
}

impl View for ConstraintSet {
    type V = Seq<ConstraintView>;

    closed spec fn view(&self) -> Seq<ConstraintView> {
        self.constraints@.map_values(|c: CompilationConstraint| c@)
    }
}

impl ConstraintSet {
    pub fn new() -> (r: ConstraintSet)
        ensures
            r@ == Seq::<ConstraintView>::empty(),
    {
        let r = ConstraintSet { constraints: Vec::new() };
        proof {
            assert(r@ =~= Seq::<ConstraintView>::empty());
        }
        r
    }

    pub fn push(&mut self, constraint: CompilationConstraint)
        ensures
            final(self)@ == old(self)@.push(constraint@),
    {
        self.constraints.push(constraint);
        proof {
            assert(self@ =~= old(self)@.push(constraint@));
        }
    }

    pub fn clone_set(&self) -> (r: ConstraintSet)
        ensures
            r@ == self@,
    {
        let mut out: Vec<CompilationConstraint> = Vec::new();
        let mut i: usize = 0;
        while i < self.constraints.len()
            invariant
                i <= self.constraints.len(),
                out@.len() == i,
                forall|k: int| 0 <= k < i ==> (#[trigger] out@[k])@ == self.constraints@[k]@,
            decreases self.constraints.len() - i,
        {
            out.push(self.constraints[i].clone_constraint());
            i = i + 1;
        }
        let r = ConstraintSet { constraints: out };
        proof {
            assert(r@ =~= self@);
        }
        r
    }

    /// The constraints in order.
    pub fn iter(&self) -> (r: &[CompilationConstraint])
        ensures
            r@.map_values(|c: CompilationConstraint| c@) == self@,
    {
        self.constraints.as_slice()
    }

    pub fn len(&self) -> (r: usize)
        ensures
            r == self@.len(),
    {
        self.constraints.len()
    }

    pub fn is_empty(&self) -> (r: bool)
        ensures
            r == (self@.len() == 0),
    {
        self.constraints.len() == 0
    }

    /// The positions of the constraints on `property`, in order.
    pub fn for_property(&self, property: &Property) -> (r: Vec<usize>)
        ensures
            forall|k: int| 0 <= k < r@.len() ==> (#[trigger] r@[k] as int) < self@.len(),
            forall|i: int|
                0 <= i < self@.len() ==> (r@.contains(i as usize) <==> #[trigger] self@[i].property
                    == property@),
            forall|a: int, b: int| 0 <= a < b < r@.len() ==> r@[a] < r@[b],
    {
        let mut r: Vec<usize> = Vec::new();
        let mut i: usize = 0;
        while i < self.constraints.len()
            invariant
                0 <= i <= self.constraints@.len(),
                self@.len() == self.constraints@.len(),
                forall|k: int| 0 <= k < r@.len() ==> (#[trigger] r@[k] as int) < i,
                forall|j: int|
                    0 <= j < i ==> (r@.contains(j as usize) <==> #[trigger] self@[j].property == property@),
                forall|a: int, b: int| 0 <= a < b < r@.len() ==> r@[a] < r@[b],
            decreases self.constraints@.len() - i,
        {
            proof {
                assert(self@[i as int] == self.constraints@[i as int]@);
            }
            let ghost before = r@;
            if self.constraints[i].property.same(property) {
                r.push(i);
            }
            proof {
                assert forall|j: int| 0 <= j < i + 1 implies (r@.contains(j as usize) <==> #[trigger] self@[j].property == property@) by {
                    if r@.contains(j as usize) {
                        let k = choose|k: int| 0 <= k < r@.len() && r@[k] == j as usize;
                        if k < before.len() {
                            assert(before[k] == j as usize);
                        }
                    }
                    if j < i && before.contains(j as usize) {
                        let k = choose|k: int| 0 <= k < before.len() && before[k] == j as usize;
                        assert(r@[k] == j as usize);
                    }
                    if j == i && self@[j].property == property@ {
                        assert(r@[before.len() as int] == i);
                    }
                    if j < i && r@.contains(j as usize) {
                        let k = choose|k: int| 0 <= k < r@.len() && r@[k] == j as usize;
                        if k == before.len() {
                            assert(r@[k] == i);
                        }
                    }
                }
            }
            i = i + 1;
        }
        r
    }

    /// Checks every constraint, then that no two required equalities on the same scope and
    /// property pin different values.
    pub fn validate(&self) -> (r: Result<(), PolicyError>)
        ensures
            match r {
                Ok(()) => constraint_set_error(self@, None),
                Err(e) => constraint_set_error(self@, Some(e@)),
            },
    {
        let ghost cs = self@;
        let n = self.constraints.len();
        let mut i: usize = 0;
        while i < n
            invariant
                cs == self@,
                n == cs.len(),
                cs.len() == self.constraints@.len(),
                0 <= i <= n,
                forall|k: int| 0 <= k < i ==> (#[trigger] constraint_error(cs[k])) is None,
            decreases n - i,
        {
            proof {
                assert(cs[i as int] == self.constraints@[i as int]@);
            }
            match self.constraints[i].validate() {
                Ok(()) => {},
                Err(e) => {
                    return Err(e);
                },
            }
            i = i + 1;
        }
        let mut i: usize = 0;
        while i < n
            invariant
                cs == self@,
                n == cs.len(),
                cs.len() == self.constraints@.len(),
                0 <= i <= n,
                forall|k: int| 0 <= k < n ==> (#[trigger] constraint_error(cs[k])) is None,
                forall|k: int| 0 <= k < i ==> !#[trigger] conflicts_later(cs, k),
            decreases n - i,
        {
            let lhs = &self.constraints[i];
            proof {
                assert(cs[i as int] == lhs@);
            }
            if lhs.strength == ConstraintStrength::Required {
                match lhs.predicate.exact_value() {
                    Some(lhs_value) => {
                        let mut j: usize = i + 1;
                        while j < n
                            invariant
                                cs == self@,
                                n == cs.len(),
                                cs.len() == self.constraints@.len(),
                                0 <= i < n,
                                i + 1 <= j <= n,
                                cs[i as int] == lhs@,
                                lhs@.strength == ConstraintStrength::Required,
                                exact_value(lhs@.predicate) == Some(lhs_value@),
                                forall|k: int| 0 <= k < n ==> (#[trigger] constraint_error(cs[k])) is None,
                                forall|k: int| 0 <= k < i ==> !#[trigger] conflicts_later(cs, k),
                                forall|l: int| i < l < j ==> !#[trigger] conflicting(cs[i as int], cs[l]),
                            decreases n - j,
                        {
                            let rhs = &self.constraints[j];
                            proof {
                                assert(cs[j as int] == rhs@);
                            }
                            if rhs.strength == ConstraintStrength::Required && lhs.scope.same(&rhs.scope)
                                && lhs.property.same(&rhs.property) {
                                match rhs.predicate.exact_value() {
                                    Some(rhs_value) => {
                                        if !lhs_value.equals(rhs_value) {
                                            proof {
                                                assert(conflicting(cs[i as int], cs[j as int]));
                                                assert(conflicts_later(cs, i as int));
                                            }
                                            return Err(
                                                PolicyError::ConflictingRequiredConstraints {
                                                    scope: lhs.scope.clone_scope(),
                                                    property: lhs.property.clone_property(),
                                                },
                                            );
                                        }
                                    },
                                    None => {},
                                }
                            }
                            j = j + 1;
                        }
                    },
                    None => {},
                }
            }
            i = i + 1;
        }
        Ok(())
    }
}

/// Validating a list of constraints reports one thing: the error of the first invalid
/// constraint, else the conflict of the first constraint that conflicts with a later one,
/// else nothing.
pub proof fn law_constraint_set_error_unique(cs: Seq<ConstraintView>, e1: PolicyErrorView, e2: PolicyErrorView)
    ensures
        constraint_set_error(cs, Some(e1)) && constraint_set_error(cs, Some(e2)) ==> e1 == e2,
        !(constraint_set_error(cs, None) && constraint_set_error(cs, Some(e1))),
{
    if constraint_set_error(cs, Some(e1)) && constraint_set_error(cs, Some(e2)) {
        let err1 = exists|i: int|
            0 <= i < cs.len() && #[trigger] constraint_error(cs[i]) == Some(e1) && forall|k: int|
                0 <= k < i ==> (#[trigger] constraint_error(cs[k])) is None;
        let err2 = exists|i: int|
            0 <= i < cs.len() && #[trigger] constraint_error(cs[i]) == Some(e2) && forall|k: int|
                0 <= k < i ==> (#[trigger] constraint_error(cs[k])) is None;
        if err1 && err2 {
            let i1 = choose|i: int|
                0 <= i < cs.len() && #[trigger] constraint_error(cs[i]) == Some(e1) && forall|k: int|
                    0 <= k < i ==> (#[trigger] constraint_error(cs[k])) is None;
            let i2 = choose|i: int|
                0 <= i < cs.len() && #[trigger] constraint_error(cs[i]) == Some(e2) && forall|k: int|
                    0 <= k < i ==> (#[trigger] constraint_error(cs[k])) is None;
            if i1 < i2 {
                assert(constraint_error(cs[i1]) is None);
            } else if i2 < i1 {
                assert(constraint_error(cs[i2]) is None);
            }
        } else if err1 {
            let i1 = choose|i: int|
                0 <= i < cs.len() && #[trigger] constraint_error(cs[i]) == Some(e1) && forall|k: int|
                    0 <= k < i ==> (#[trigger] constraint_error(cs[k])) is None;
            assert(constraint_error(cs[i1]) is None);
        } else if err2 {
            let i2 = choose|i: int|
                0 <= i < cs.len() && #[trigger] constraint_error(cs[i]) == Some(e2) && forall|k: int|
                    0 <= k < i ==> (#[trigger] constraint_error(cs[k])) is None;
            assert(constraint_error(cs[i2]) is None);
        } else {
            let i1 = choose|i: int|
                0 <= i < cs.len() && #[trigger] conflicts_later(cs, i) && e1
                    == PolicyErrorView::ConflictingRequiredConstraints { scope: cs[i].scope, property: cs[i].property }
                    && forall|k: int| 0 <= k < i ==> !#[trigger] conflicts_later(cs, k);
            let i2 = choose|i: int|
                0 <= i < cs.len() && #[trigger] conflicts_later(cs, i) && e2
                    == PolicyErrorView::ConflictingRequiredConstraints { scope: cs[i].scope, property: cs[i].property }
                    && forall|k: int| 0 <= k < i ==> !#[trigger] conflicts_later(cs, k);
            if i1 < i2 {
                assert(!conflicts_later(cs, i1));
            } else if i2 < i1 {
                assert(!conflicts_later(cs, i2));
            }
        }
    }
    if constraint_set_error(cs, None) && constraint_set_error(cs, Some(e1)) {
        if exists|i: int|
            0 <= i < cs.len() && #[trigger] constraint_error(cs[i]) == Some(e1) && forall|k: int|
                0 <= k < i ==> (#[trigger] constraint_error(cs[k])) is None {
            let i1 = choose|i: int|
                0 <= i < cs.len() && #[trigger] constraint_error(cs[i]) == Some(e1) && forall|k: int|
                    0 <= k < i ==> (#[trigger] constraint_error(cs[k])) is None;
            assert(constraint_error(cs[i1]) is None);
        } else {
            let i1 = choose|i: int|
                0 <= i < cs.len() && #[trigger] conflicts_later(cs, i) && e1
                    == PolicyErrorView::ConflictingRequiredConstraints { scope: cs[i].scope, property: cs[i].property }
                    && forall|k: int| 0 <= k < i ==> !#[trigger] conflicts_later(cs, k);
            assert(!conflicts_later(cs, i1));
        }
    }
}


/// Constraints that are valid one by one never fail validation together unless two required
/// ones share both scope and property: constraints on different scopes (or properties) never
/// conflict. And two required constraints that share scope and property and pin different
/// values always make validation fail.
pub proof fn law_conflicts_need_same_scope_and_property(cs: Seq<ConstraintView>, a: int, b: int)
    ensures
        (forall|i: int| 0 <= i < cs.len() ==> (#[trigger] constraint_error(cs[i])) is None) && (forall|
            i: int,
            j: int,
        |
            0 <= i < j < cs.len() && (#[trigger] cs[i]).strength == ConstraintStrength::Required && (#[trigger] cs[j]).strength
                == ConstraintStrength::Required ==> cs[i].scope != cs[j].scope || cs[i].property != cs[j].property)
            ==> constraint_set_error(cs, None),
        0 <= a < b < cs.len() && cs[a].strength == ConstraintStrength::Required && cs[b].strength
            == ConstraintStrength::Required && cs[a].scope == cs[b].scope && cs[a].property == cs[b].property
            && cs[a].predicate is Equals && cs[b].predicate is Equals && !value_eq(
            cs[a].predicate->Equals_0,
            cs[b].predicate->Equals_0,
        ) ==> !constraint_set_error(cs, None),
{
    if 0 <= a < b < cs.len() && cs[a].strength == ConstraintStrength::Required && cs[b].strength
        == ConstraintStrength::Required && cs[a].scope == cs[b].scope && cs[a].property == cs[b].property
        && cs[a].predicate is Equals && cs[b].predicate is Equals && !value_eq(
        cs[a].predicate->Equals_0,
        cs[b].predicate->Equals_0,
    ) {
        assert(conflicting(cs[a], cs[b]));
        assert(conflicts_later(cs, a));
    }
    if (forall|i: int| 0 <= i < cs.len() ==> (#[trigger] constraint_error(cs[i])) is None) && (forall|
        i: int,
        j: int,
    |
        0 <= i < j < cs.len() && (#[trigger] cs[i]).strength == ConstraintStrength::Required && (#[trigger] cs[j]).strength
            == ConstraintStrength::Required ==> cs[i].scope != cs[j].scope || cs[i].property != cs[j].property) {
        assert forall|i: int| 0 <= i < cs.len() implies !#[trigger] conflicts_later(cs, i) by {
            if conflicts_later(cs, i) {
                let j = choose|j: int| i < j < cs.len() && #[trigger] conflicting(cs[i], cs[j]);
                assert(cs[i].strength == ConstraintStrength::Required);
            }
        }
    }
}

} // verus!
