use vstd::prelude::*;

use super::edge::{distinct_metrics, metric_entries, EdgeView};
use super::error::{PlanningError, PlanningErrorView};
use super::plan::{decision_views, step_views, ConversionPlan, ConversionStep, PlanView, StepView};
use super::registry::ConversionRegistry;
use super::stage::ConversionStage;
use crate::policy::constraint::Property;
use crate::policy::decision::{
    DecisionKindView, DecisionSubject, DecisionView, PolicyDecision, PolicyDecisionKind, SubjectView,
};
use crate::policy::objective::Metric;
use crate::policy::scope::{ConstraintScope, ScopeView};
use crate::policy::value::{PolicyValue, ValueView};
use crate::target::{distinct_keys, entries_map};

verus! {

/// The character of a decimal digit.
pub open spec fn digit_char(d: nat) -> char {
    if d == 0 {
        '0'
    } else if d == 1 {
        '1'
    } else if d == 2 {
        '2'
    } else if d == 3 {
        '3'
    } else if d == 4 {
        '4'
    } else if d == 5 {
        '5'
    } else if d == 6 {
        '6'
    } else if d == 7 {
        '7'
    } else if d == 8 {
        '8'
    } else {
        '9'
    }
}

/// The decimal text of a number, without leading zeros.
pub open spec fn decimal(n: nat) -> Seq<char>
    decreases n,
{
    if n < 10 {
        seq![digit_char(n)]
    } else {
        decimal(n / 10).push(digit_char(n % 10))
    }
}

fn digit_str(d: usize) -> (r: &'static str)
    requires
        d < 10,
    ensures
        r@ == seq![digit_char(d as nat)],
{
    proof {
        reveal_strlit("0");
        reveal_strlit("1");
        reveal_strlit("2");
        reveal_strlit("3");
        reveal_strlit("4");
        reveal_strlit("5");
        reveal_strlit("6");
        reveal_strlit("7");
        reveal_strlit("8");
        reveal_strlit("9");
    }
    let r = if d == 0 {
        "0"
    } else if d == 1 {
        "1"
    } else if d == 2 {
        "2"
    } else if d == 3 {
        "3"
    } else if d == 4 {
        "4"
    } else if d == 5 {
        "5"
    } else if d == 6 {
        "6"
    } else if d == 7 {
        "7"
    } else if d == 8 {
        "8"
    } else {
        "9"
    };
    proof {
        assert(r@ =~= seq![digit_char(d as nat)]);
    }
    r
}

/// Appends the decimal text of `n`.
pub fn push_decimal(s: &mut String, n: usize)
    ensures
        final(s)@ == old(s)@ + decimal(n as nat),
    decreases n,
{
    if n >= 10 {
        push_decimal(s, n / 10);
    }
    s.append(digit_str(n % 10));
    proof {
        if n >= 10 {
            assert(old(s)@ + decimal(n as nat) =~= old(s)@ + decimal((n / 10) as nat) + seq![digit_char((n % 10) as nat)]);
        } else {
            assert(n % 10 == n);
        }
    }
}

/// The text of a route: the source stage, then ` -> ` and the target of each step.
pub open spec fn route_text(source: Seq<char>, steps: Seq<StepView>) -> Seq<char>
    decreases steps.len(),
{
    if steps.len() == 0 {
        source
    } else {
        route_text(source, steps.drop_last()) + " -> "@ + steps.last().target
    }
}

/// The decision that records the selected route.
pub open spec fn route_decision_view(source: Seq<char>, target: Seq<char>, steps: Seq<StepView>) -> DecisionView {
    DecisionView {
        kind: DecisionKindView::Other("conversion-route"@),
        scope: ScopeView::Global,
        subject: SubjectView::Named("conversion.route"@),
        requested: None,
        selected: Some(ValueView::Text(route_text(source, steps))),
        score: None,
        reason: "selected a "@ + decimal(steps.len()) + "-step conversion route from '"@ + source + "' to '"@
            + target + "'"@,
        pass: None,
        operation: None,
    }
}

/// The decision that records the selected route, with the route's text and its number of
/// steps.
pub fn route_decision(source: &ConversionStage, target: &ConversionStage, steps: &[ConversionStep]) -> (r:
    PolicyDecision)
    ensures
        r@ == route_decision_view(source@, target@, step_views(steps@)),
{
    let ghost sv = step_views(steps@);
    let mut route = source.to_string();
    let mut i: usize = 0;
    proof {
        assert(sv.subrange(0, 0) =~= Seq::<StepView>::empty());
    }
    while i < steps.len()
        invariant
            0 <= i <= steps@.len(),
            sv == step_views(steps@),
            route@ == route_text(source@, sv.subrange(0, i as int)),
        decreases steps@.len() - i,
    {
        route.append(" -> ");
        route.append(steps[i].target().as_str());
        proof {
            assert(sv.subrange(0, i + 1).drop_last() =~= sv.subrange(0, i as int));
            assert(sv.subrange(0, i + 1).last() == steps@[i as int]@);
        }
        i = i + 1;
    }
    proof {
        assert(sv.subrange(0, sv.len() as int) =~= sv);
    }
    let mut reason = String::from_str("selected a ");
    push_decimal(&mut reason, steps.len());
    reason.append("-step conversion route from '");
    reason.append(source.as_str());
    reason.append("' to '");
    reason.append(target.as_str());
    reason.append("'");
    let kind = PolicyDecisionKind::Other(String::from_str("conversion-route"));
    PolicyDecision::new(kind, ConstraintScope::Global, DecisionSubject::named("conversion.route"), reason.as_str()).selected(
        PolicyValue::String(route),
    )
}

/// The step that takes an edge.
pub open spec fn edge_step(e: EdgeView) -> StepView {
    StepView { edge: e.name, source: e.source, target: e.target, pipeline: e.pipeline }
}

/// The steps of the route through the edges at positions `indices`.
pub fn route_steps(registry: &ConversionRegistry, indices: &[usize]) -> (r: Vec<ConversionStep>)
    requires
        forall|k: int| 0 <= k < indices@.len() ==> (#[trigger] indices@[k]) < registry@.len(),
    ensures
        step_views(r@) == indices@.map_values(|i: usize| edge_step(registry@[i as int])),
{
    let mut steps: Vec<ConversionStep> = Vec::new();
    let mut k: usize = 0;
    while k < indices.len()
        invariant
            0 <= k <= indices@.len(),
            forall|t: int| 0 <= t < indices@.len() ==> (#[trigger] indices@[t]) < registry@.len(),
            step_views(steps@) == indices@.subrange(0, k as int).map_values(|i: usize| edge_step(registry@[i as int])),
        decreases indices@.len() - k,
    {
        match registry.edge(indices[k]) {
            Some(edge) => {
                let ghost before = step_views(steps@);
                steps.push(ConversionStep::new(edge.name(), edge.source().clone_stage(), edge.target().clone_stage(), edge.pipeline()));
                proof {
                    assert(step_views(steps@) =~= before.push(edge_step(registry@[indices@[k as int] as int])));
                    assert(indices@.subrange(0, k + 1).map_values(|i: usize| edge_step(registry@[i as int])) =~= indices@.subrange(0, k as int).map_values(|i: usize| edge_step(registry@[i as int])).push(edge_step(registry@[indices@[k as int] as int])));
                }
            },
            None => {
                proof {
                    assert(indices@[k as int] < registry@.len());
                }
            },
        }
        k = k + 1;
    }
    proof {
        assert(indices@.subrange(0, indices@.len() as int) =~= indices@);
    }
    steps
}

/// The plan for a module already at its target stage: no steps, a zero score, and the
/// decision recording the empty route.
pub fn identity_plan(source: &ConversionStage) -> (r: ConversionPlan)
    ensures
        r@ == (PlanView {
            source: source@,
            target: source@,
            steps: Seq::empty(),
            score: 0,
            properties: Map::empty(),
            metrics: Seq::empty(),
            decisions: seq![route_decision_view(source@, source@, Seq::empty())],
        }),
{
    let steps: Vec<ConversionStep> = Vec::new();
    let decision = route_decision(source, source, steps.as_slice());
    let mut decisions: Vec<PolicyDecision> = Vec::new();
    decisions.push(decision);
    let properties: Vec<(Property, PolicyValue)> = Vec::new();
    let metrics: Vec<(Metric, u64)> = Vec::new();
    proof {
        assert(step_views(steps@) =~= Seq::<StepView>::empty());
        assert(decision_views(decisions@) =~= seq![route_decision_view(source@, source@, Seq::empty())]);
        assert(entries_map(properties@) =~= Map::<Seq<char>, ValueView>::empty());
        assert(metric_entries(metrics@) =~= Seq::<(Seq<char>, u64)>::empty());
    }
    ConversionPlan::new(source.clone_stage(), source.clone_stage(), steps, 0, properties, metrics, decisions)
}

/// The plan of a selected route: its steps, the decision recording the route followed by
/// the decisions of its evaluation, and its score, properties and metric totals.
pub fn route_plan(
    source: &ConversionStage,
    target: &ConversionStage,
    registry: &ConversionRegistry,
    indices: &[usize],
    score: u64,
    properties: Vec<(Property, PolicyValue)>,
    metrics: Vec<(Metric, u64)>,
    decisions: Vec<PolicyDecision>,
) -> (r: ConversionPlan)
    requires
        forall|k: int| 0 <= k < indices@.len() ==> (#[trigger] indices@[k]) < registry@.len(),
        distinct_keys(properties@),
        distinct_metrics(metric_entries(metrics@)),
    ensures
        ({
            let steps = indices@.map_values(|i: usize| edge_step(registry@[i as int]));
            r@ == (PlanView {
                source: source@,
                target: target@,
                steps,
                score,
                properties: entries_map(properties@),
                metrics: metric_entries(metrics@),
                decisions: seq![route_decision_view(source@, target@, steps)] + decision_views(decisions@),
            })
        }),
{
    let steps = route_steps(registry, indices);
    let first = route_decision(source, target, steps.as_slice());
    let mut all: Vec<PolicyDecision> = Vec::new();
    all.push(first);
    let mut rest = decisions;
    let ghost tail = decision_views(rest@);
    all.append(&mut rest);
    proof {
        assert(decision_views(all@) =~= seq![route_decision_view(source@, target@, step_views(steps@))] + tail);
    }
    ConversionPlan::new(source.clone_stage(), target.clone_stage(), steps, score, properties, metrics, all)
}

/// Why no plan was found: the edge left out for a missing pipeline, if one was, else that no
/// route exists.
pub fn no_plan_error(source: &ConversionStage, target: &ConversionStage, missing: Option<(String, String)>) -> (r:
    PlanningError)
    ensures
        r@ == match missing {
            Some(m) => PlanningErrorView::MissingPipeline { edge: m.0@, pipeline: m.1@ },
            None => PlanningErrorView::NoRoute { source: source@, target: target@ },
        },
{
    match missing {
        Some((edge, pipeline)) => PlanningError::MissingPipeline { edge, pipeline },
        None => PlanningError::NoRoute { source: source.clone_stage(), target: target.clone_stage() },
    }
}

} // verus!
