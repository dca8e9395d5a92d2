use vstd::prelude::*;

use super::edge::{distinct_metrics, metric_entries};
use super::stage::ConversionStage;
use crate::diagnostic::{Diagnostic, DiagnosticView};
use crate::policy::constraint::Property;
use crate::policy::decision::{DecisionView, PolicyDecision};
use crate::policy::objective::Metric;
use crate::policy::value::{PolicyValue, ValueView};
use crate::target::{distinct_keys, entries_map, lemma_entries_map_same_views};

verus! {

/// One step of a plan: the edge taken, the stages it goes between and the pipeline it runs.
#[derive(Debug)]
pub struct ConversionStep {
    edge: String,
    source: ConversionStage,
    target: ConversionStage,
    pipeline: String,
}

pub struct StepView {
    pub edge: Seq<char>,
    pub source: Seq<char>,
    pub target: Seq<char>,
    pub pipeline: Seq<char>,
}

impl View for ConversionStep {
    type V = StepView;

    closed spec fn view(&self) -> StepView {
        StepView {
            edge: self.edge@,
            source: self.source@,
            target: self.target@,
            pipeline: self.pipeline@,
        }
    }
}

impl ConversionStep {
    pub fn new(edge: &str, source: ConversionStage, target: ConversionStage, pipeline: &str) -> (r:
        ConversionStep)
        ensures
            r@ == (StepView { edge: edge@, source: source@, target: target@, pipeline: pipeline@ }),
    {
        ConversionStep { edge: edge.to_string(), source, target, pipeline: pipeline.to_string() }
    }

    pub fn edge(&self) -> (r: &str)
        ensures
            r@ == self@.edge,
    {
        self.edge.as_str()
    }

    pub fn source(&self) -> (r: &ConversionStage)
        ensures
            r@ == self@.source,
    {
        &self.source
    }

    pub fn target(&self) -> (r: &ConversionStage)
        ensures
            r@ == self@.target,
    {
        &self.target
    }

    pub fn pipeline(&self) -> (r: &str)
        ensures
            r@ == self@.pipeline,
    {
        self.pipeline.as_str()
    }

    pub fn clone_step(&self) -> (r: ConversionStep)
        ensures
            r@ == self@,
    {
        ConversionStep::new(self.edge.as_str(), self.source.clone_stage(), self.target.clone_stage(), self.pipeline.as_str())
    }
}

pub open spec fn step_views(s: Seq<ConversionStep>) -> Seq<StepView> {
    s.map_values(|t: ConversionStep| t@)
}

pub open spec fn decision_views(s: Seq<PolicyDecision>) -> Seq<DecisionView> {
    s.map_values(|d: PolicyDecision| d@)
}

/// The selected route from a source stage to a target stage, with its score, the
/// properties and metric totals of the route, and the decisions that selected it. The
/// score and the metric totals are held as the bits of their doubles.
#[derive(Debug)]
pub struct ConversionPlan {
    source: ConversionStage,
    target: ConversionStage,
    steps: Vec<ConversionStep>,
    score: u64,
    properties: Vec<(Property, PolicyValue)>,
    metrics: Vec<(Metric, u64)>,
    decisions: Vec<PolicyDecision>,
}

pub struct PlanView {
    pub source: Seq<char>,
    pub target: Seq<char>,
    pub steps: Seq<StepView>,
    pub score: u64,
    pub properties: Map<Seq<char>, ValueView>,
    pub metrics: Seq<(Seq<char>, u64)>,
    pub decisions: Seq<DecisionView>,
}

impl View for ConversionPlan {
    type V = PlanView;

    closed spec fn view(&self) -> PlanView {
        PlanView {
            source: self.source@,
            target: self.target@,
            steps: step_views(self.steps@),
            score: self.score,
            properties: entries_map(self.properties@),
            metrics: metric_entries(self.metrics@),
            decisions: decision_views(self.decisions@),
        }
    }
}

impl ConversionPlan {
    #[verifier::type_invariant]
    spec fn inv(self) -> bool {
        &&& distinct_keys(self.properties@)
        &&& distinct_metrics(metric_entries(self.metrics@))
    }

    pub fn new(
        source: ConversionStage,
        target: ConversionStage,
        steps: Vec<ConversionStep>,
        score: u64,
        properties: Vec<(Property, PolicyValue)>,
        metrics: Vec<(Metric, u64)>,
        decisions: Vec<PolicyDecision>,
    ) -> (r: ConversionPlan)
        requires
            distinct_keys(properties@),
            distinct_metrics(metric_entries(metrics@)),
        ensures
            r@ == (PlanView {
                source: source@,
                target: target@,
                steps: step_views(steps@),
                score,
                properties: entries_map(properties@),
                metrics: metric_entries(metrics@),
                decisions: decision_views(decisions@),
            }),
    {
        ConversionPlan { source, target, steps, score, properties, metrics, decisions }
    }

    pub fn source(&self) -> (r: &ConversionStage)
        ensures
            r@ == self@.source,
    {
        &self.source
    }

    pub fn target(&self) -> (r: &ConversionStage)
        ensures
            r@ == self@.target,
    {
        &self.target
    }

    pub fn steps(&self) -> (r: &[ConversionStep])
        ensures
            step_views(r@) == self@.steps,
    {
        self.steps.as_slice()
    }

    /// The score, as the bits of a double.
    pub fn score(&self) -> (r: u64)
        ensures
            r == self@.score,
    {
        self.score
    }

    /// The properties of the route, as property and value pairs with distinct properties.
    pub fn properties(&self) -> (r: &[(Property, PolicyValue)])
        ensures
            distinct_keys(r@),
            entries_map(r@) == self@.properties,
    {
        proof {
            use_type_invariant(self);
        }
        self.properties.as_slice()
    }

    /// The metric totals of the route, as bits of doubles.
    pub fn metrics(&self) -> (r: &[(Metric, u64)])
        ensures
            metric_entries(r@) == self@.metrics,
            distinct_metrics(self@.metrics),
    {
        proof {
            use_type_invariant(self);
        }
        self.metrics.as_slice()
    }

    pub fn decisions(&self) -> (r: &[PolicyDecision])
        ensures
            decision_views(r@) == self@.decisions,
    {
        self.decisions.as_slice()
    }

    pub fn clone_plan(&self) -> (r: ConversionPlan)
        ensures
            r@ == self@,
    {
        proof {
            use_type_invariant(self);
        }
        let mut steps: Vec<ConversionStep> = Vec::new();
        for i in 0..self.steps.len()
            invariant
                steps@.len() == i,
                forall|k: int| 0 <= k < i ==> (#[trigger] steps@[k])@ == self.steps@[k]@,
        {
            steps.push(self.steps[i].clone_step());
        }
        let mut properties: Vec<(Property, PolicyValue)> = Vec::new();
        for i in 0..self.properties.len()
            invariant
                properties@.len() == i,
                forall|k: int|
                    0 <= k < i ==> (#[trigger] properties@[k]).0@ == self.properties@[k].0@ && properties@[k].1@
                        == self.properties@[k].1@,
        {
            properties.push((self.properties[i].0.clone_property(), self.properties[i].1.clone_value()));
        }
        let mut metrics: Vec<(Metric, u64)> = Vec::new();
        for i in 0..self.metrics.len()
            invariant
                metrics@.len() == i,
                forall|k: int|
                    0 <= k < i ==> (#[trigger] metrics@[k]).0@ == self.metrics@[k].0@ && metrics@[k].1
                        == self.metrics@[k].1,
        {
            metrics.push((self.metrics[i].0.clone_metric(), self.metrics[i].1));
        }
        let mut decisions: Vec<PolicyDecision> = Vec::new();
        for i in 0..self.decisions.len()
            invariant
                decisions@.len() == i,
                forall|k: int| 0 <= k < i ==> (#[trigger] decisions@[k])@ == self.decisions@[k]@,
        {
            decisions.push(self.decisions[i].clone_decision());
        }
        proof {
            lemma_entries_map_same_views(properties@, self.properties@);
            assert(metric_entries(metrics@) =~= metric_entries(self.metrics@));
            assert(step_views(steps@) =~= step_views(self.steps@));
            assert(decision_views(decisions@) =~= decision_views(self.decisions@));
            assert forall|a: int, b: int| 0 <= a < b < properties@.len() implies properties@[a].0@
                != properties@[b].0@ by {
                assert(self.properties@[a].0@ != self.properties@[b].0@);
            }
        }
        ConversionPlan::new(
            self.source.clone_stage(),
            self.target.clone_stage(),
            steps,
            self.score,
            properties,
            metrics,
            decisions,
        )
    }
}

/// Limits of the route search: the number of edges of a route and the number of routes
/// considered.
#[derive(Debug)]
pub struct PlanningConfig {
    pub max_depth: usize,
    pub max_candidates: usize,
}

impl Default for PlanningConfig {
    fn default() -> (r: PlanningConfig)
        ensures
            r.max_depth == 16,
            r.max_candidates == 10000,
    {
        PlanningConfig { max_depth: 16, max_candidates: 10000 }
    }
}

/// A plan together with the report of running its pipelines.
#[derive(Debug)]
pub struct PlannedCompilationReport {
    plan: ConversionPlan,
    changed: bool,
    passes_run: usize,
    diagnostics: Vec<Diagnostic>,
    decisions: Vec<PolicyDecision>,
}

pub struct PlannedReportView {
    pub plan: PlanView,
    pub changed: bool,
    pub passes_run: nat,
    pub diagnostics: Seq<DiagnosticView>,
    pub decisions: Seq<DecisionView>,
}

impl View for PlannedCompilationReport {
    type V = PlannedReportView;

    closed spec fn view(&self) -> PlannedReportView {
        PlannedReportView {
            plan: self.plan@,
            changed: self.changed,
            passes_run: self.passes_run as nat,
            diagnostics: self.diagnostics@.map_values(|d: Diagnostic| d@),
            decisions: decision_views(self.decisions@),
        }
    }
}

impl PlannedCompilationReport {
    pub fn new(
        plan: ConversionPlan,
        changed: bool,
        passes_run: usize,
        diagnostics: Vec<Diagnostic>,
        decisions: Vec<PolicyDecision>,
    ) -> (r: PlannedCompilationReport)
        ensures
            r@ == (PlannedReportView {
                plan: plan@,
                changed,
                passes_run: passes_run as nat,
                diagnostics: diagnostics@.map_values(|d: Diagnostic| d@),
                decisions: decision_views(decisions@),
            }),
    {
        PlannedCompilationReport { plan, changed, passes_run, diagnostics, decisions }
    }

    pub fn plan(&self) -> (r: &ConversionPlan)
        ensures
            r@ == self@.plan,
    {
        &self.plan
    }

    pub fn changed(&self) -> (r: bool)
        ensures
            r == self@.changed,
    {
        self.changed
    }

    pub fn passes_run(&self) -> (r: usize)
        ensures
            r == self@.passes_run,
    {
        self.passes_run
    }

    pub fn diagnostics(&self) -> (r: &[Diagnostic])
        ensures
            r@.map_values(|d: Diagnostic| d@) == self@.diagnostics,
    {
        self.diagnostics.as_slice()
    }

    pub fn decisions(&self) -> (r: &[PolicyDecision])
        ensures
            decision_views(r@) == self@.decisions,
    {
        self.decisions.as_slice()
    }
}

} // verus!
