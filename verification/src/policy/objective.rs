use vstd::prelude::*;

use super::error::{PolicyError, PolicyErrorView};
use super::scope::{ConstraintScope, ScopeView};
use super::constraint::weight_is_valid;
use super::value::{float_bits_finite, float_bits_positive};
use crate::names::{is_name_text, is_valid_key};

verus! {

/// The name of an optimization metric, such as `latency`.
#[derive(Debug)]
pub struct Metric {
    name: String,
}

impl View for Metric {
    type V = Seq<char>;

    closed spec fn view(&self) -> Seq<char> {
        self.name@
    }
}

impl Metric {
    pub fn new(name: &str) -> (r: Metric)
        ensures
            r@ == name@,
    {
        Metric { name: name.to_string() }
    }

    pub fn as_str(&self) -> (r: &str)
        ensures
            r@ == self@,
    {
        self.name.as_str()
    }

    /// The name as text.
    pub fn to_string(&self) -> (r: String)
        ensures
            r@ == self@,
    {
        self.name.clone()
    }

    pub fn same(&self, other: &Metric) -> (r: bool)
        ensures
            r == (self@ == other@),
    {
        self.name == other.name
    }

    pub fn clone_metric(&self) -> (r: Metric)
        ensures
            r@ == self@,
    {
        Metric { name: self.name.clone() }
    }
}

#[derive(Clone, Copy, Debug, PartialEq, Eq, Structural)]
pub enum ObjectiveDirection {
    Minimize,
    Maximize,
}

/// An objective of a compile request. The weight is held as the bits of its double.
#[derive(Debug)]
pub struct OptimizationObjective {
    scope: ConstraintScope,
    metric: Metric,
    direction: ObjectiveDirection,
    weight: u64,
}

pub struct ObjectiveView {
    pub scope: ScopeView,
    pub metric: Seq<char>,
    pub direction: ObjectiveDirection,
    pub weight: u64,
}

impl View for OptimizationObjective {
    type V = ObjectiveView;

    closed spec fn view(&self) -> ObjectiveView {
        ObjectiveView {
            scope: self.scope@,
            metric: self.metric@,
            direction: self.direction,
            weight: self.weight,
        }
    }
}

/// The first problem with an objective: its metric name, then its weight.
pub open spec fn objective_error(o: ObjectiveView) -> Option<PolicyErrorView> {
    if !is_name_text(o.metric) {
        Some(PolicyErrorView::InvalidMetric(o.metric))
    } else if !weight_is_valid(o.weight) {
        Some(PolicyErrorView::InvalidWeight { owner: o.metric, weight: o.weight })
    } else {
        None
    }
}

impl OptimizationObjective {
    pub fn new(scope: ConstraintScope, metric: &str, direction: ObjectiveDirection, weight: u64) -> (r:
        OptimizationObjective)
        ensures
            r@ == (ObjectiveView { scope: scope@, metric: metric@, direction, weight }),
    {
        OptimizationObjective { scope, metric: Metric::new(metric), direction, weight }
    }

    pub fn minimize(scope: ConstraintScope, metric: &str, weight: u64) -> (r: OptimizationObjective)
        ensures
            r@ == (ObjectiveView {
                scope: scope@,
                metric: metric@,
                direction: ObjectiveDirection::Minimize,
                weight,
            }),
    {
        Self::new(scope, metric, ObjectiveDirection::Minimize, weight)
    }

    pub fn maximize(scope: ConstraintScope, metric: &str, weight: u64) -> (r: OptimizationObjective)
        ensures
            r@ == (ObjectiveView {
                scope: scope@,
                metric: metric@,
                direction: ObjectiveDirection::Maximize,
                weight,
            }),
    {
        Self::new(scope, metric, ObjectiveDirection::Maximize, weight)
    }

    pub fn scope(&self) -> (r: &ConstraintScope)
        ensures
            r@ == self@.scope,
    {
        &self.scope
    }

    pub fn metric(&self) -> (r: &Metric)
        ensures
            r@ == self@.metric,
    {
        &self.metric
    }

    pub fn direction(&self) -> (r: ObjectiveDirection)
        ensures
            r == self@.direction,
    {
        self.direction
    }

    pub fn weight(&self) -> (r: u64)
        ensures
            r == self@.weight,
    {
        self.weight
    }

    /// Checks the metric name, then the weight.
    pub fn validate(&self) -> (r: Result<(), PolicyError>)
        ensures
            match r {
                Ok(()) => objective_error(self@) is None,
                Err(e) => objective_error(self@) == Some(e@),
            },
    {
        if !is_valid_key(self.metric.as_str()) {
            return Err(PolicyError::InvalidMetric(self.metric.name.clone()));
        }
        if !float_bits_finite(self.weight) || !float_bits_positive(self.weight) {
            return Err(PolicyError::InvalidWeight { owner: self.metric.name.clone(), weight: self.weight });
        }
        Ok(())
    }

    pub fn clone_objective(&self) -> (r: OptimizationObjective)
        ensures
            r@ == self@,
    {
        OptimizationObjective {
            scope: self.scope.clone_scope(),
            metric: self.metric.clone_metric(),
            direction: self.direction,
            weight: self.weight,
        }
    }
}

/// The objectives of a compile request, in the order they were added.
#[derive(Debug)]
pub struct OptimizationObjectives {
    objectives: Vec<OptimizationObjective>,
}

impl View for OptimizationObjectives {
    type V = Seq<ObjectiveView>;

    closed spec fn view(&self) -> Seq<ObjectiveView> {
        self.objectives@.map_values(|o: OptimizationObjective| o@)
    }
}

impl OptimizationObjectives {
    pub fn new() -> (r: OptimizationObjectives)
        ensures
            r@ == Seq::<ObjectiveView>::empty(),
    {
        let r = OptimizationObjectives { objectives: Vec::new() };
        proof {
            assert(r@ =~= Seq::<ObjectiveView>::empty());
        }
        r
    }

    pub fn push(&mut self, objective: OptimizationObjective)
        ensures
            final(self)@ == old(self)@.push(objective@),
    {
        self.objectives.push(objective);
        proof {
            assert(self@ =~= old(self)@.push(objective@));
        }
    }

    pub fn clone_objectives(&self) -> (r: OptimizationObjectives)
        ensures
            r@ == self@,
    {
        let mut out: Vec<OptimizationObjective> = Vec::new();
        let mut i: usize = 0;
        while i < self.objectives.len()
            invariant
                i <= self.objectives.len(),
                out@.len() == i,
                forall|k: int| 0 <= k < i ==> (#[trigger] out@[k])@ == self.objectives@[k]@,
            decreases self.objectives.len() - i,
        {
            out.push(self.objectives[i].clone_objective());
            i = i + 1;
        }
        let r = OptimizationObjectives { objectives: out };
        proof {
            assert(r@ =~= self@);
        }
        r
    }

    /// The objectives in order.
    pub fn iter(&self) -> (r: &[OptimizationObjective])
        ensures
            r@.map_values(|o: OptimizationObjective| o@) == self@,
    {
        self.objectives.as_slice()
    }

    pub fn is_empty(&self) -> (r: bool)
        ensures
            r == (self@.len() == 0),
    {
        self.objectives.len() == 0
    }

    /// Reports the first invalid objective's error.
    pub fn validate(&self) -> (r: Result<(), PolicyError>)
        ensures
            match r {
                Ok(()) => forall|i: int| 0 <= i < self@.len() ==> (#[trigger] objective_error(self@[i])) is None,
                Err(e) => exists|i: int|
                    0 <= i < self@.len() && #[trigger] objective_error(self@[i]) == Some(e@) && forall|k: int|
                        0 <= k < i ==> (#[trigger] objective_error(self@[k])) is None,
            },
    {
        let mut i: usize = 0;
        while i < self.objectives.len()
            invariant
                0 <= i <= self.objectives@.len(),
                self@.len() == self.objectives@.len(),
                forall|k: int| 0 <= k < i ==> (#[trigger] objective_error(self@[k])) is None,
            decreases self.objectives@.len() - i,
        {
            proof {
                assert(self@[i as int] == self.objectives@[i as int]@);
            }
            match self.objectives[i].validate() {
                Ok(()) => {},
                Err(e) => {
                    return Err(e);
                },
            }
            i = i + 1;
        }
        Ok(())
    }
}

} // verus!
