use compiler::planning::assemble::{identity_plan, no_plan_error, route_decision, route_plan, route_steps};
use compiler::planning::edge::{ConversionEdgeDescriptor, EdgeApplicability};
use compiler::planning::error::PlanningError;
use compiler::planning::evaluate::{evaluate_constraints, route_properties};
use compiler::planning::plan::{ConversionStep, PlanningConfig};
use compiler::planning::planner::enumerate_routes;
use compiler::planning::registry::ConversionRegistry;
use compiler::planning::stage::ConversionStage;
use compiler::policy::value::PolicyValue;
use compiler::registry::error::RegistryError;
use compiler::registry::pipeline::{PipelineDescriptor, PipelineRegistry};
use compiler::request::CompileRequest;
use compiler::target::NumericOrder;

fn total_cost(registry: &ConversionRegistry, route: &[usize]) -> f64 {
    let mut score = 0.0;
    for index in route {
        score += f64::from_bits(registry.edge(*index).unwrap().base_cost());
    }
    score
}

fn cheapest(registry: &ConversionRegistry, routes: &[Vec<usize>]) -> Vec<usize> {
    let mut best: Option<(f64, Vec<usize>)> = None;
    for route in routes {
        let score = total_cost(registry, route);
        let replace = match &best {
            None => true,
            Some((s, r)) => score < *s || (score == *s && route.len() < r.len()),
        };
        if replace {
            best = Some((score, route.clone()));
        }
    }
    best.unwrap().1
}

#[test]
fn selects_lower_cost_route() {
    let mut conversions = ConversionRegistry::new();

    conversions
        .register(ConversionEdgeDescriptor::new("direct", "a", "c", "direct").with_base_cost(10.0f64.to_bits()))
        .unwrap();

    conversions
        .register(ConversionEdgeDescriptor::new("a-to-b", "a", "b", "a-to-b").with_base_cost(1.0f64.to_bits()))
        .unwrap();

    conversions
        .register(ConversionEdgeDescriptor::new("b-to-c", "b", "c", "b-to-c").with_base_cost(1.0f64.to_bits()))
        .unwrap();

    let mut pipelines = PipelineRegistry::new();

    for name in ["direct", "a-to-b", "b-to-c"] {
        pipelines.register(PipelineDescriptor::new(name)).unwrap();
    }

    let usable = vec![true; conversions.len()];
    let search = enumerate_routes(
        &conversions,
        &pipelines,
        &usable,
        &ConversionStage::new("a"),
        &ConversionStage::new("c"),
        &PlanningConfig::default(),
    );
    let best = cheapest(&conversions, &search.candidates);
    let steps = route_steps(&conversions, &best);

    assert_eq!(steps.len(), 2);

    assert_eq!(steps[0].edge(), "a-to-b");

    assert_eq!(steps[1].edge(), "b-to-c");
}

#[test]
fn required_property_selects_method() {
    let mut conversions = ConversionRegistry::new();

    conversions
        .register(
            ConversionEdgeDescriptor::new("through-lbm", "operator", "target", "through-lbm")
                .property("method.name", PolicyValue::string("lbm")),
        )
        .unwrap();

    conversions
        .register(
            ConversionEdgeDescriptor::new("through-fvm", "operator", "target", "through-fvm")
                .property("method.name", PolicyValue::string("fvm")),
        )
        .unwrap();

    let mut pipelines = PipelineRegistry::new();

    pipelines.register(PipelineDescriptor::new("through-lbm")).unwrap();

    pipelines.register(PipelineDescriptor::new("through-fvm")).unwrap();

    let request = CompileRequest::builder("unused")
        .require("method.name", PolicyValue::string("fvm"))
        .build()
        .unwrap();

    let usable = vec![true; conversions.len()];
    let search = enumerate_routes(
        &conversions,
        &pipelines,
        &usable,
        &ConversionStage::new("operator"),
        &ConversionStage::new("target"),
        &PlanningConfig::default(),
    );
    let relevant = conversions.properties();
    let orders = vec![NumericOrder::Unordered; request.constraints().len()];
    let mut accepted = Vec::new();
    for candidate in &search.candidates {
        let properties = match route_properties(&conversions, candidate) {
            Some(p) => p,
            None => continue,
        };
        if evaluate_constraints(&request, &properties, &relevant, &orders).is_some() {
            accepted.push(candidate.clone());
        }
    }
    let best = cheapest(&conversions, &accepted);
    let steps = route_steps(&conversions, &best);

    assert_eq!(steps.len(), 1);

    assert_eq!(steps[0].edge(), "through-fvm");
}

fn chain_registry() -> (ConversionRegistry, PipelineRegistry) {
    let mut conversions = ConversionRegistry::new();
    conversions.register(ConversionEdgeDescriptor::new("ab", "a", "b", "p")).unwrap();
    conversions.register(ConversionEdgeDescriptor::new("bc", "b", "c", "p")).unwrap();
    conversions.register(ConversionEdgeDescriptor::new("ac", "a", "c", "p")).unwrap();
    conversions.register(ConversionEdgeDescriptor::new("ba", "b", "a", "p")).unwrap();
    let mut pipelines = PipelineRegistry::new();
    pipelines.register(PipelineDescriptor::new("p")).unwrap();
    (conversions, pipelines)
}

#[test]
fn enumerates_simple_routes_in_order() {
    let (conversions, pipelines) = chain_registry();
    let usable = vec![true; conversions.len()];
    let search = enumerate_routes(
        &conversions,
        &pipelines,
        &usable,
        &ConversionStage::new("a"),
        &ConversionStage::new("c"),
        &PlanningConfig::default(),
    );
    assert_eq!(search.candidates, vec![vec![0, 1], vec![2]]);
    assert!(search.missing_pipeline.is_none());
}

#[test]
fn respects_depth_and_candidate_limits() {
    let (conversions, pipelines) = chain_registry();
    let usable = vec![true; conversions.len()];
    let shallow = PlanningConfig { max_depth: 1, max_candidates: 10 };
    let search = enumerate_routes(
        &conversions,
        &pipelines,
        &usable,
        &ConversionStage::new("a"),
        &ConversionStage::new("c"),
        &shallow,
    );
    assert_eq!(search.candidates, vec![vec![2]]);
    let few = PlanningConfig { max_depth: 16, max_candidates: 1 };
    let search = enumerate_routes(
        &conversions,
        &pipelines,
        &usable,
        &ConversionStage::new("a"),
        &ConversionStage::new("c"),
        &few,
    );
    assert_eq!(search.candidates, vec![vec![0, 1]]);
}

#[test]
fn skips_unusable_edges() {
    let (conversions, pipelines) = chain_registry();
    let usable = vec![true, true, false, true];
    let search = enumerate_routes(
        &conversions,
        &pipelines,
        &usable,
        &ConversionStage::new("a"),
        &ConversionStage::new("c"),
        &PlanningConfig::default(),
    );
    assert_eq!(search.candidates, vec![vec![0, 1]]);
}

#[test]
fn remembers_edge_with_missing_pipeline() {
    let mut conversions = ConversionRegistry::new();
    conversions.register(ConversionEdgeDescriptor::new("ab", "a", "b", "absent")).unwrap();
    let pipelines = PipelineRegistry::new();
    let usable = vec![true];
    let search = enumerate_routes(
        &conversions,
        &pipelines,
        &usable,
        &ConversionStage::new("a"),
        &ConversionStage::new("b"),
        &PlanningConfig::default(),
    );
    assert!(search.candidates.is_empty());
    assert_eq!(search.missing_pipeline, Some(("ab".to_string(), "absent".to_string())));
    match no_plan_error(&ConversionStage::new("a"), &ConversionStage::new("b"), search.missing_pipeline) {
        PlanningError::MissingPipeline { edge, pipeline } => {
            assert_eq!(edge, "ab");
            assert_eq!(pipeline, "absent");
        },
        _ => panic!("the missing pipeline is reported"),
    }
    match no_plan_error(&ConversionStage::new("a"), &ConversionStage::new("b"), None) {
        PlanningError::NoRoute { source, target } => {
            assert_eq!(source.as_str(), "a");
            assert_eq!(target.as_str(), "b");
        },
        _ => panic!("no route"),
    }
}

#[test]
fn merges_route_properties_and_detects_conflicts() {
    let mut conversions = ConversionRegistry::new();
    conversions
        .register(ConversionEdgeDescriptor::new("ab", "a", "b", "p").property("x", PolicyValue::Integer(1)))
        .unwrap();
    conversions
        .register(
            ConversionEdgeDescriptor::new("bc", "b", "c", "p")
                .property("x", PolicyValue::Integer(1))
                .property("y", PolicyValue::Bool(true)),
        )
        .unwrap();
    conversions
        .register(ConversionEdgeDescriptor::new("bd", "b", "d", "p").property("x", PolicyValue::Integer(2)))
        .unwrap();
    let merged = route_properties(&conversions, &[0, 1]).unwrap();
    assert_eq!(merged.len(), 2);
    assert!(route_properties(&conversions, &[0, 2]).is_none());
    let props = conversions.properties();
    assert_eq!(props.len(), 2);
}

#[test]
fn rejects_invalid_edges() {
    let mut conversions = ConversionRegistry::new();
    match conversions.register(ConversionEdgeDescriptor::new("bad name", "a", "b", "p")) {
        Err(RegistryError::InvalidConversion { name, message }) => {
            assert_eq!(name, "bad name");
            assert_eq!(message, "invalid conversion edge name 'bad name'");
        },
        _ => panic!("invalid name"),
    }
    match conversions.register(ConversionEdgeDescriptor::new("e", "a", "b", "p").with_base_cost((-1.0f64).to_bits())) {
        Err(RegistryError::InvalidConversion { message, .. }) => {
            assert_eq!(message, "base cost must be finite and non-negative");
        },
        _ => panic!("negative cost"),
    }
    match conversions.register(ConversionEdgeDescriptor::new("e", "a", "b", "p").metric("time", f64::INFINITY.to_bits())) {
        Err(RegistryError::InvalidConversion { message, .. }) => {
            assert_eq!(message, "metric 'time' must be finite and non-negative");
        },
        _ => panic!("infinite metric"),
    }
    conversions.register(ConversionEdgeDescriptor::new("e", "a", "b", "p").with_base_cost((-0.0f64).to_bits())).unwrap();
    assert!(matches!(
        conversions.register(ConversionEdgeDescriptor::new("e", "x", "y", "p")),
        Err(RegistryError::DuplicateConversion(_))
    ));
    assert_eq!(conversions.len(), 1);
    assert!(conversions.get("e").is_some());
    assert_eq!(conversions.outgoing_indices(&ConversionStage::new("a")), vec![0]);
}

#[test]
fn records_route_decision() {
    let steps = vec![
        ConversionStep::new("ab", ConversionStage::new("a"), ConversionStage::new("b"), "p"),
        ConversionStep::new("bc", ConversionStage::new("b"), ConversionStage::new("c"), "p"),
    ];
    let decision = route_decision(&ConversionStage::new("a"), &ConversionStage::new("c"), &steps);
    assert_eq!(decision.reason(), "selected a 2-step conversion route from 'a' to 'c'");
    match decision.selected_value() {
        Some(PolicyValue::String(route)) => assert_eq!(route, "a -> b -> c"),
        _ => panic!("the route text is selected"),
    }
    let plan = identity_plan(&ConversionStage::new("a"));
    assert_eq!(plan.steps().len(), 0);
    assert_eq!(plan.decisions()[0].reason(), "selected a 0-step conversion route from 'a' to 'a'");
}

#[test]
fn builds_plan_from_route() {
    let (conversions, _) = chain_registry();
    let plan = route_plan(
        &ConversionStage::new("a"),
        &ConversionStage::new("c"),
        &conversions,
        &[0, 1],
        2.0f64.to_bits(),
        Vec::new(),
        Vec::new(),
        Vec::new(),
    );
    assert_eq!(plan.steps().len(), 2);
    assert_eq!(plan.steps()[1].pipeline(), "p");
    assert_eq!(f64::from_bits(plan.score()), 2.0);
    assert_eq!(plan.decisions().len(), 1);
    let copy = plan.clone_plan();
    assert_eq!(copy.steps().len(), 2);
    assert_eq!(copy.steps()[0].edge(), plan.steps()[0].edge());
    assert_eq!(copy.score(), plan.score());
    assert_eq!(copy.target().as_str(), "c");
    assert_eq!(copy.decisions()[0].reason(), plan.decisions()[0].reason());
}

#[test]
fn edge_applicability() {
    assert!(EdgeApplicability::Applicable.is_applicable());
    assert!(!EdgeApplicability::unavailable("no gpu").is_applicable());
}

#[test]
fn reports_first_missing_pipeline_in_search_order() {
    // Depth first: from `a` the edge to `b` is taken first, and below `b` the edge
    // `bx` lacks its pipeline; the later edge `ay` out of `a` lacks one too.
    let mut conversions = ConversionRegistry::new();
    conversions.register(ConversionEdgeDescriptor::new("ab", "a", "b", "p")).unwrap();
    conversions.register(ConversionEdgeDescriptor::new("ay", "a", "y", "gone.a")).unwrap();
    conversions.register(ConversionEdgeDescriptor::new("bx", "b", "x", "gone.b")).unwrap();
    let mut pipelines = PipelineRegistry::new();
    pipelines.register(PipelineDescriptor::new("p")).unwrap();
    let usable = vec![true; conversions.len()];
    let search = enumerate_routes(
        &conversions,
        &pipelines,
        &usable,
        &ConversionStage::new("a"),
        &ConversionStage::new("c"),
        &PlanningConfig::default(),
    );
    assert!(search.candidates.is_empty());
    assert_eq!(search.missing_pipeline, Some(("bx".to_string(), "gone.b".to_string())));
}

#[test]
fn missing_pipeline_after_the_search_stops_is_not_reported() {
    let mut conversions = ConversionRegistry::new();
    conversions.register(ConversionEdgeDescriptor::new("ac", "a", "c", "p")).unwrap();
    conversions.register(ConversionEdgeDescriptor::new("ay", "a", "y", "gone")).unwrap();
    let mut pipelines = PipelineRegistry::new();
    pipelines.register(PipelineDescriptor::new("p")).unwrap();
    let usable = vec![true; conversions.len()];
    let one = PlanningConfig { max_depth: 16, max_candidates: 1 };
    let stopped = enumerate_routes(
        &conversions,
        &pipelines,
        &usable,
        &ConversionStage::new("a"),
        &ConversionStage::new("c"),
        &one,
    );
    assert_eq!(stopped.candidates, vec![vec![0]]);
    assert!(stopped.missing_pipeline.is_none());
    let all = enumerate_routes(
        &conversions,
        &pipelines,
        &usable,
        &ConversionStage::new("a"),
        &ConversionStage::new("c"),
        &PlanningConfig::default(),
    );
    assert_eq!(all.candidates, vec![vec![0]]);
    assert_eq!(all.missing_pipeline, Some(("ay".to_string(), "gone".to_string())));
}
