use vstd::prelude::*;

use crate::names::{is_name_text, is_valid_registry_name};
use crate::policy::constraint::{
    constraint_set_error, CompilationConstraint, ConstraintSet, ConstraintView, PredicateView,
};
use crate::policy::constraint::ConstraintStrength;
use crate::policy::error::{PolicyError, PolicyErrorView};
use crate::policy::objective::{
    objective_error, ObjectiveDirection, ObjectiveView, OptimizationObjective, OptimizationObjectives,
};
use crate::policy::scope::{ConstraintScope, ScopeView};
use crate::policy::value::PolicyValue;
use crate::target::{TargetProfile, TargetView};

verus! {

/// What validating a list of objectives reports: the first invalid objective's error.
pub open spec fn objective_list_error(os: Seq<ObjectiveView>, e: Option<PolicyErrorView>) -> bool {
    match e {
        None => forall|i: int| 0 <= i < os.len() ==> (#[trigger] objective_error(os[i])) is None,
        Some(err) => exists|i: int|
            0 <= i < os.len() && #[trigger] objective_error(os[i]) == Some(err) && forall|k: int|
                0 <= k < i ==> (#[trigger] objective_error(os[k])) is None,
    }
}

/// A request to compile with a pipeline under constraints and objectives, for an optional
/// target.
#[derive(Debug)]
pub struct CompileRequest {
    pipeline: String,
    constraints: ConstraintSet,
    objectives: OptimizationObjectives,
    target: Option<TargetProfile>,
}

pub struct RequestView {
    pub pipeline: Seq<char>,
    pub constraints: Seq<ConstraintView>,
    pub objectives: Seq<ObjectiveView>,
    pub target: Option<TargetView>,
}

impl View for CompileRequest {
    type V = RequestView;

    closed spec fn view(&self) -> RequestView {
        RequestView {
            pipeline: self.pipeline@,
            constraints: self.constraints@,
            objectives: self.objectives@,
            target: match self.target {
                Some(t) => Some(t@),
                None => None,
            },
        }
    }
}

#[derive(Debug)]
pub enum RequestError {
    InvalidPipeline(String),
    Policy(PolicyError),
}

pub enum RequestErrorView {
    InvalidPipeline(Seq<char>),
    Policy(PolicyErrorView),
}

impl View for RequestError {
    type V = RequestErrorView;

    open spec fn view(&self) -> RequestErrorView {
        match self {
            RequestError::InvalidPipeline(s) => RequestErrorView::InvalidPipeline(s@),
            RequestError::Policy(e) => RequestErrorView::Policy(e@),
        }
    }
}

/// What validating a request reports: an invalid pipeline name first, then the constraints'
/// error, then the objectives' error.
pub open spec fn request_error(r: RequestView, e: Option<RequestErrorView>) -> bool {
    if !is_name_text(r.pipeline) {
        e == Some(RequestErrorView::InvalidPipeline(r.pipeline))
    } else {
        match e {
            None => constraint_set_error(r.constraints, None) && objective_list_error(
                r.objectives,
                None,
            ),
            Some(RequestErrorView::Policy(pe)) => constraint_set_error(r.constraints, Some(pe)) || (
            constraint_set_error(r.constraints, None) && objective_list_error(
                r.objectives,
                Some(pe),
            )),
            Some(RequestErrorView::InvalidPipeline(_)) => false,
        }
    }
}

impl CompileRequest {
    pub closed spec fn wf(&self) -> bool {
        self.target matches Some(t) ==> t.wf()
    }

    /// A builder for a request that runs `pipeline`.
    pub fn builder(pipeline: &str) -> (r: CompileRequestBuilder)
        ensures
            r.wf(),
            r@ == (RequestView {
                pipeline: pipeline@,
                constraints: Seq::empty(),
                objectives: Seq::empty(),
                target: None,
            }),
    {
        CompileRequestBuilder::new(pipeline)
    }

    /// The request that runs the `default` pipeline with no constraints, objectives or target.
    pub fn default_request() -> (r: CompileRequest)
        ensures
            r.wf(),
            r@ == (RequestView {
                pipeline: "default"@,
                constraints: Seq::empty(),
                objectives: Seq::empty(),
                target: None,
            }),
    {
        CompileRequest {
            pipeline: "default".to_string(),
            constraints: ConstraintSet::new(),
            objectives: OptimizationObjectives::new(),
            target: None,
        }
    }

    pub fn pipeline(&self) -> (r: &str)
        ensures
            r@ == self@.pipeline,
    {
        self.pipeline.as_str()
    }

    pub fn constraints(&self) -> (r: &ConstraintSet)
        ensures
            r@ == self@.constraints,
    {
        &self.constraints
    }

    pub fn objectives(&self) -> (r: &OptimizationObjectives)
        ensures
            r@ == self@.objectives,
    {
        &self.objectives
    }

    pub fn target(&self) -> (r: Option<&TargetProfile>)
        requires
            self.wf(),
        ensures
            match r {
                Some(t) => self@.target == Some(t@) && t.wf(),
                None => self@.target is None,
            },
    {
        match &self.target {
            Some(t) => Some(t),
            None => None,
        }
    }

    pub fn clone_request(&self) -> (r: CompileRequest)
        requires
            self.wf(),
        ensures
            r.wf(),
            r@ == self@,
    {
        let target = match &self.target {
            Some(t) => Some(t.clone_profile()),
            None => None,
        };
        CompileRequest {
            pipeline: self.pipeline.clone(),
            constraints: self.constraints.clone_set(),
            objectives: self.objectives.clone_objectives(),
            target,
        }
    }

    /// Checks the pipeline name, then the constraints, then the objectives.
    pub fn validate(&self) -> (r: Result<(), RequestError>)
        ensures
            match r {
                Ok(()) => request_error(self@, None),
                Err(e) => request_error(self@, Some(e@)),
            },
    {
        if !is_valid_registry_name(self.pipeline.as_str()) {
            return Err(RequestError::InvalidPipeline(self.pipeline.clone()));
        }
        match self.constraints.validate() {
            Ok(()) => {},
            Err(e) => {
                return Err(RequestError::Policy(e));
            },
        }
        match self.objectives.validate() {
            Ok(()) => {},
            Err(e) => {
                return Err(RequestError::Policy(e));
            },
        }
        Ok(())
    }
}

/// Collects the parts of a compile request; `build` validates them.
#[derive(Debug)]
pub struct CompileRequestBuilder {
    pipeline: String,
    constraints: ConstraintSet,
    objectives: OptimizationObjectives,
    target: Option<TargetProfile>,
}

impl View for CompileRequestBuilder {
    type V = RequestView;

    closed spec fn view(&self) -> RequestView {
        RequestView {
            pipeline: self.pipeline@,
            constraints: self.constraints@,
            objectives: self.objectives@,
            target: match self.target {
                Some(t) => Some(t@),
                None => None,
            },
        }
    }
}

impl CompileRequestBuilder {
    pub closed spec fn wf(&self) -> bool {
        self.target matches Some(t) ==> t.wf()
    }

    pub fn new(pipeline: &str) -> (r: CompileRequestBuilder)
        ensures
            r.wf(),
            r@ == (RequestView {
                pipeline: pipeline@,
                constraints: Seq::empty(),
                objectives: Seq::empty(),
                target: None,
            }),
    {
        CompileRequestBuilder {
            pipeline: pipeline.to_string(),
            constraints: ConstraintSet::new(),
            objectives: OptimizationObjectives::new(),
            target: None,
        }
    }

    pub fn constraint(self, constraint: CompilationConstraint) -> (r: CompileRequestBuilder)
        requires
            self.wf(),
        ensures
            r.wf(),
            r@ == (RequestView { constraints: self@.constraints.push(constraint@), ..self@ }),
    {
        let mut b = self;
        b.constraints.push(constraint);
        b
    }

    pub fn target(self, target: TargetProfile) -> (r: CompileRequestBuilder)
        requires
            target.wf(),
        ensures
            r.wf(),
            r@ == (RequestView { target: Some(target@), ..self@ }),
    {
        let mut b = self;
        b.target = Some(target);
        b
    }

    /// Requires `property` to equal `value` everywhere.
    pub fn require(self, property: &str, value: PolicyValue) -> (r: CompileRequestBuilder)
        requires
            self.wf(),
        ensures
            r.wf(),
            r@ == (RequestView {
                constraints: self@.constraints.push(
                    ConstraintView {
                        scope: ScopeView::Global,
                        property: property@,
                        predicate: PredicateView::Equals(value@),
                        strength: ConstraintStrength::Required,
                    },
                ),
                ..self@
            }),
    {
        self.require_scoped(ConstraintScope::Global, property, value)
    }

    pub fn require_scoped(self, scope: ConstraintScope, property: &str, value: PolicyValue) -> (r:
        CompileRequestBuilder)
        requires
            self.wf(),
        ensures
            r.wf(),
            r@ == (RequestView {
                constraints: self@.constraints.push(
                    ConstraintView {
                        scope: scope@,
                        property: property@,
                        predicate: PredicateView::Equals(value@),
                        strength: ConstraintStrength::Required,
                    },
                ),
                ..self@
            }),
    {
        self.constraint(CompilationConstraint::required(scope, property, value))
    }

    /// Prefers `property` to equal `value`, with the weight given as the bits of a double.
    pub fn prefer(self, property: &str, value: PolicyValue, weight: u64) -> (r: CompileRequestBuilder)
        requires
            self.wf(),
        ensures
            r.wf(),
            r@ == (RequestView {
                constraints: self@.constraints.push(
                    ConstraintView {
                        scope: ScopeView::Global,
                        property: property@,
                        predicate: PredicateView::Equals(value@),
                        strength: ConstraintStrength::Preferred { weight },
                    },
                ),
                ..self@
            }),
    {
        self.prefer_scoped(ConstraintScope::Global, property, value, weight)
    }

    pub fn prefer_scoped(
        self,
        scope: ConstraintScope,
        property: &str,
        value: PolicyValue,
        weight: u64,
    ) -> (r: CompileRequestBuilder)
        requires
            self.wf(),
        ensures
            r.wf(),
            r@ == (RequestView {
                constraints: self@.constraints.push(
                    ConstraintView {
                        scope: scope@,
                        property: property@,
                        predicate: PredicateView::Equals(value@),
                        strength: ConstraintStrength::Preferred { weight },
                    },
                ),
                ..self@
            }),
    {
        self.constraint(CompilationConstraint::preferred(scope, property, value, weight))
    }

    pub fn hint(self, property: &str, value: PolicyValue) -> (r: CompileRequestBuilder)
        requires
            self.wf(),
        ensures
            r.wf(),
            r@ == (RequestView {
                constraints: self@.constraints.push(
                    ConstraintView {
                        scope: ScopeView::Global,
                        property: property@,
                        predicate: PredicateView::Equals(value@),
                        strength: ConstraintStrength::Hint,
                    },
                ),
                ..self@
            }),
    {
        self.hint_scoped(ConstraintScope::Global, property, value)
    }

    pub fn hint_scoped(self, scope: ConstraintScope, property: &str, value: PolicyValue) -> (r:
        CompileRequestBuilder)
        requires
            self.wf(),
        ensures
            r.wf(),
            r@ == (RequestView {
                constraints: self@.constraints.push(
                    ConstraintView {
                        scope: scope@,
                        property: property@,
                        predicate: PredicateView::Equals(value@),
                        strength: ConstraintStrength::Hint,
                    },
                ),
                ..self@
            }),
    {
        self.constraint(CompilationConstraint::hint(scope, property, value))
    }

    pub fn objective(self, objective: OptimizationObjective) -> (r: CompileRequestBuilder)
        requires
            self.wf(),
        ensures
            r.wf(),
            r@ == (RequestView { objectives: self@.objectives.push(objective@), ..self@ }),
    {
        let mut b = self;
        b.objectives.push(objective);
        b
    }

    /// Asks to minimize a metric everywhere, with the weight given as the bits of a double.
    pub fn minimize(self, metric: &str, weight: u64) -> (r: CompileRequestBuilder)
        requires
            self.wf(),
        ensures
            r.wf(),
            r@ == (RequestView {
                objectives: self@.objectives.push(
                    ObjectiveView {
                        scope: ScopeView::Global,
                        metric: metric@,
                        direction: ObjectiveDirection::Minimize,
                        weight,
                    },
                ),
                ..self@
            }),
    {
        self.objective(OptimizationObjective::minimize(ConstraintScope::Global, metric, weight))
    }

    /// Asks to maximize a metric everywhere, with the weight given as the bits of a double.
    pub fn maximize(self, metric: &str, weight: u64) -> (r: CompileRequestBuilder)
        requires
            self.wf(),
        ensures
            r.wf(),
            r@ == (RequestView {
                objectives: self@.objectives.push(
                    ObjectiveView {
                        scope: ScopeView::Global,
                        metric: metric@,
                        direction: ObjectiveDirection::Maximize,
                        weight,
                    },
                ),
                ..self@
            }),
    {
        self.objective(OptimizationObjective::maximize(ConstraintScope::Global, metric, weight))
    }

    /// The request, if it validates.
    pub fn build(self) -> (r: Result<CompileRequest, RequestError>)
        requires
            self.wf(),
        ensures
            match r {
                Ok(request) => request@ == self@ && request.wf() && request_error(self@, None),
                Err(e) => request_error(self@, Some(e@)),
            },
    {
        let request = CompileRequest {
            pipeline: self.pipeline,
            constraints: self.constraints,
            objectives: self.objectives,
            target: self.target,
        };
        match request.validate() {
            Ok(()) => Ok(request),
            Err(e) => Err(e),
        }
    }
}

} // verus!
