use vstd::prelude::*;

use super::stage::ConversionStage;
use crate::names::{is_name_text, valid_name};
use crate::policy::constraint::Property;
use crate::policy::objective::Metric;
use crate::policy::value::{
    float_bits_finite, float_bits_negative, float_is_finite, float_is_negative, PolicyValue,
    ValueView,
};
use crate::request::CompileRequest;
use crate::target::{
    distinct_keys, entries_map, requirement_met, set_entry, CapabilityRequirement, NumericOrder,
    RequirementView, TargetView,
};

verus! {

/// Whether a conversion edge can be taken for a module and request.
#[derive(Debug, PartialEq, Eq)]
pub enum EdgeApplicability {
    Applicable,
    Unavailable { reason: String },
}

impl EdgeApplicability {
    pub fn unavailable(reason: &str) -> (r: EdgeApplicability)
        ensures
            r matches EdgeApplicability::Unavailable { reason: s } && s@ == reason@,
    {
        EdgeApplicability::Unavailable { reason: reason.to_string() }
    }

    pub fn is_applicable(&self) -> (r: bool)
        ensures
            r == (self is Applicable),
    {
        match self {
            EdgeApplicability::Applicable => true,
            EdgeApplicability::Unavailable { .. } => false,
        }
    }
}

/// The metric estimates of an edge, as name and value pairs.
pub open spec fn metric_entries(ms: Seq<(Metric, u64)>) -> Seq<(Seq<char>, u64)> {
    ms.map_values(|m: (Metric, u64)| (m.0@, m.1))
}

pub open spec fn distinct_metrics(ms: Seq<(Seq<char>, u64)>) -> bool {
    forall|i: int, j: int| 0 <= i < j < ms.len() ==> (#[trigger] ms[i]).0 != (#[trigger] ms[j]).0
}

/// A registered way to convert a module from one stage to another by running a pipeline.
/// The base cost and the metric estimates are held as the bits of their doubles.
#[derive(Debug)]
pub struct ConversionEdgeDescriptor {
    name: String,
    source: ConversionStage,
    target: ConversionStage,
    pipeline: String,
    base_cost: u64,
    properties: Vec<(Property, PolicyValue)>,
    metrics: Vec<(Metric, u64)>,
    target_requirements: Vec<CapabilityRequirement>,
}

pub struct EdgeView {
    pub name: Seq<char>,
    pub source: Seq<char>,
    pub target: Seq<char>,
    pub pipeline: Seq<char>,
    pub base_cost: u64,
    pub properties: Map<Seq<char>, ValueView>,
    pub metrics: Seq<(Seq<char>, u64)>,
    pub requirements: Seq<RequirementView>,
}

impl View for ConversionEdgeDescriptor {
    type V = EdgeView;

    closed spec fn view(&self) -> EdgeView {
        EdgeView {
            name: self.name@,
            source: self.source@,
            target: self.target@,
            pipeline: self.pipeline@,
            base_cost: self.base_cost,
            properties: entries_map(self.properties@),
            metrics: metric_entries(self.metrics@),
            requirements: self.target_requirements@.map_values(|r: CapabilityRequirement| r@),
        }
    }
}

/// The bits of the double 1.0, the base cost of a new edge.
pub open spec fn unit_cost() -> u64 {
    0x3ff0000000000000
}

/// The metrics with `name` set to `value`: an earlier estimate of the metric is replaced in
/// place, a new metric goes last.
pub open spec fn set_metric(ms: Seq<(Seq<char>, u64)>, name: Seq<char>, value: u64) -> Seq<(Seq<char>, u64)> {
    if exists|i: int| 0 <= i < ms.len() && (#[trigger] ms[i]).0 == name {
        ms.update(choose|i: int| 0 <= i < ms.len() && (#[trigger] ms[i]).0 == name, (name, value))
    } else {
        ms.push((name, value))
    }
}

/// A double that is finite and not below zero.
pub open spec fn cost_is_valid(bits: u64) -> bool {
    float_is_finite(bits) && !float_is_negative(bits)
}

/// Position of the first metric whose estimate is not a valid cost.
pub open spec fn first_bad_metric(ms: Seq<(Seq<char>, u64)>) -> Option<int> {
    if exists|i: int| 0 <= i < ms.len() && !cost_is_valid((#[trigger] ms[i]).1) {
        Some(
            choose|i: int|
                0 <= i < ms.len() && !cost_is_valid((#[trigger] ms[i]).1) && forall|j: int|
                    0 <= j < i ==> cost_is_valid(ms[j].1),
        )
    } else {
        None
    }
}

/// Why an edge cannot be registered, if it cannot: the first of its names that is not a
/// valid name, then a base cost or a metric estimate that is negative or not finite.
pub open spec fn edge_error(e: EdgeView) -> Option<Seq<char>> {
    if !is_name_text(e.name) {
        Some("invalid conversion edge name '"@ + e.name + "'"@)
    } else if !is_name_text(e.source) {
        Some("invalid source stage '"@ + e.source + "'"@)
    } else if !is_name_text(e.target) {
        Some("invalid target stage '"@ + e.target + "'"@)
    } else if !is_name_text(e.pipeline) {
        Some("invalid pipeline name '"@ + e.pipeline + "'"@)
    } else if !cost_is_valid(e.base_cost) {
        Some("base cost must be finite and non-negative"@)
    } else {
        match first_bad_metric(e.metrics) {
            Some(i) => Some("metric '"@ + e.metrics[i].0 + "' must be finite and non-negative"@),
            None => None,
        }
    }
}

/// Whether a target meets every requirement of an edge; `orders[i]` is how the target's
/// number compares with the bound of requirement `i`.
pub open spec fn supports(reqs: Seq<RequirementView>, target: Option<TargetView>, orders: Seq<NumericOrder>) -> bool {
    forall|i: int| 0 <= i < reqs.len() ==> requirement_met(#[trigger] reqs[i], target, orders[i])
}

fn quoted(prefix: &str, name: &str) -> (r: String)
    ensures
        r@ == prefix@ + name@ + "'"@,
{
    let mut s = String::from_str(prefix);
    s.append(name);
    s.append("'");
    s
}

impl ConversionEdgeDescriptor {
    #[verifier::type_invariant]
    spec fn inv(self) -> bool {
        &&& distinct_keys(self.properties@)
        &&& distinct_metrics(metric_entries(self.metrics@))
    }

    /// An edge with base cost 1.0, no properties, metrics or target requirements.
    pub fn new(name: &str, source: &str, target: &str, pipeline: &str) -> (r: ConversionEdgeDescriptor)
        ensures
            r@ == (EdgeView {
                name: name@,
                source: source@,
                target: target@,
                pipeline: pipeline@,
                base_cost: unit_cost(),
                properties: Map::empty(),
                metrics: Seq::empty(),
                requirements: Seq::empty(),
            }),
    {
        let r = ConversionEdgeDescriptor {
            name: name.to_string(),
            source: ConversionStage::new(source),
            target: ConversionStage::new(target),
            pipeline: pipeline.to_string(),
            base_cost: 0x3ff0000000000000,
            properties: Vec::new(),
            metrics: Vec::new(),
            target_requirements: Vec::new(),
        };
        proof {
            assert(metric_entries(r.metrics@) =~= Seq::<(Seq<char>, u64)>::empty());
            assert(r.target_requirements@.map_values(|q: CapabilityRequirement| q@) =~= Seq::<
                RequirementView,
            >::empty());
            assert(entries_map(r.properties@) =~= Map::<Seq<char>, ValueView>::empty());
        }
        r
    }

    pub fn with_base_cost(self, cost: u64) -> (r: ConversionEdgeDescriptor)
        ensures
            r@ == (EdgeView { base_cost: cost, ..self@ }),
    {
        proof {
            use_type_invariant(&self);
        }
        let mut e = self;
        e.base_cost = cost;
        e
    }

    /// Sets a property of the route, replacing an earlier value of it.
    pub fn property(self, name: &str, value: PolicyValue) -> (r: ConversionEdgeDescriptor)
        ensures
            r@ == (EdgeView { properties: self@.properties.insert(name@, value@), ..self@ }),
    {
        proof {
            use_type_invariant(&self);
        }
        let ConversionEdgeDescriptor {
            name: n,
            source,
            target,
            pipeline,
            base_cost,
            properties,
            metrics,
            target_requirements,
        } = self;
        let mut properties = properties;
        set_entry(&mut properties, name, value);
        ConversionEdgeDescriptor {
            name: n,
            source,
            target,
            pipeline,
            base_cost,
            properties,
            metrics,
            target_requirements,
        }
    }

    /// Sets a metric estimate, in normalized planner units, replacing an earlier one.
    pub fn metric(self, name: &str, estimate: u64) -> (r: ConversionEdgeDescriptor)
        ensures
            r@ == (EdgeView { metrics: set_metric(self@.metrics, name@, estimate), ..self@ }),
    {
        proof {
            use_type_invariant(&self);
        }
        let ConversionEdgeDescriptor {
            name: n,
            source,
            target,
            pipeline,
            base_cost,
            properties,
            metrics,
            target_requirements,
        } = self;
        let mut metrics = metrics;
        let ghost before = metric_entries(metrics@);
        let key = Metric::new(name);
        let mut i: usize = 0;
        let mut found = false;
        while i < metrics.len() && !found
            invariant
                0 <= i <= metrics@.len(),
                metric_entries(metrics@) == before,
                distinct_metrics(before),
                key@ == name@,
                found ==> i < metrics@.len() && before[i as int].0 == name@,
                !found ==> forall|k: int| 0 <= k < i ==> (#[trigger] before[k]).0 != name@,
            decreases metrics@.len() - i + (if found { 0int } else { 1int }),
        {
            if metrics[i].0.same(&key) {
                found = true;
            } else {
                i = i + 1;
            }
        }
        if found {
            proof {
                assert(before[i as int].0 == name@);
                let c = choose|j: int| 0 <= j < before.len() && (#[trigger] before[j]).0 == name@;
                if c != i {
                    if c < i {
                        assert(before[c].0 != before[i as int].0);
                    } else {
                        assert(before[i as int].0 != before[c].0);
                    }
                }
            }
            metrics.set(i, (key, estimate));
            proof {
                assert(metric_entries(metrics@) =~= before.update(i as int, (name@, estimate)));
            }
        } else {
            metrics.push((key, estimate));
            proof {
                assert(metric_entries(metrics@) =~= before.push((name@, estimate)));
            }
        }
        ConversionEdgeDescriptor {
            name: n,
            source,
            target,
            pipeline,
            base_cost,
            properties,
            metrics,
            target_requirements,
        }
    }

    /// Adds a capability the compile target must offer for the edge to be taken.
    pub fn requires_target(self, requirement: CapabilityRequirement) -> (r: ConversionEdgeDescriptor)
        ensures
            r@ == (EdgeView { requirements: self@.requirements.push(requirement@), ..self@ }),
    {
        proof {
            use_type_invariant(&self);
        }
        let ConversionEdgeDescriptor {
            name: n,
            source,
            target,
            pipeline,
            base_cost,
            properties,
            metrics,
            target_requirements,
        } = self;
        let mut target_requirements = target_requirements;
        let ghost before = target_requirements@;
        target_requirements.push(requirement);
        proof {
            assert(target_requirements@.map_values(|q: CapabilityRequirement| q@) =~= before.map_values(
                |q: CapabilityRequirement| q@,
            ).push(requirement@));
        }
        ConversionEdgeDescriptor {
            name: n,
            source,
            target,
            pipeline,
            base_cost,
            properties,
            metrics,
            target_requirements,
        }
    }

    pub fn target_requirements(&self) -> (r: &[CapabilityRequirement])
        ensures
            r@.map_values(|q: CapabilityRequirement| q@) == self@.requirements,
    {
        self.target_requirements.as_slice()
    }

    /// Whether the request's target meets every requirement of the edge; `orders[i]` is how
    /// the target's number compares with the bound of requirement `i`, as doubles.
    pub fn supports_target(&self, request: &CompileRequest, orders: &[NumericOrder]) -> (r: bool)
        requires
            orders@.len() == self@.requirements.len(),
            request.wf(),
        ensures
            r == supports(
                self@.requirements,
                match request@.target {
                    Some(t) => Some(t),
                    None => None,
                },
                orders@,
            ),
    {
        let target = request.target();
        let ghost reqs = self@.requirements;
        let ghost t = match request@.target {
            Some(t) => Some(t),
            None => None,
        };
        let mut i: usize = 0;
        while i < self.target_requirements.len()
            invariant
                0 <= i <= self.target_requirements@.len(),
                reqs == self.target_requirements@.map_values(|q: CapabilityRequirement| q@),
                orders@.len() == reqs.len(),
                reqs == self@.requirements,
                t == match request@.target {
                    Some(x) => Some(x),
                    None => None,
                },
                target matches Some(x) ==> x.wf(),
                t == match target {
                    Some(x) => Some(x@),
                    None => None,
                },
                forall|k: int| 0 <= k < i ==> requirement_met(#[trigger] reqs[k], t, orders@[k]),
            decreases self.target_requirements@.len() - i,
        {
            if !self.target_requirements[i].is_satisfied_by(target, orders[i]) {
                proof {
                    assert(reqs[i as int] == self.target_requirements@[i as int]@);
                    assert(!requirement_met(reqs[i as int], t, orders@[i as int]));
                    assert(!supports(reqs, t, orders@));
                }
                return false;
            }
            i = i + 1;
        }
        true
    }

    pub fn name(&self) -> (r: &str)
        ensures
            r@ == self@.name,
    {
        self.name.as_str()
    }

    pub fn source(&self) -> (r: &ConversionStage)
        ensures
            r@ == self@.source,
    {
        &self.source
    }

    pub fn target(&self) -> (r: &ConversionStage)
        ensures
            r@ == self@.target,
    {
        &self.target
    }

    pub fn pipeline(&self) -> (r: &str)
        ensures
            r@ == self@.pipeline,
    {
        self.pipeline.as_str()
    }

    pub fn base_cost(&self) -> (r: u64)
        ensures
            r == self@.base_cost,
    {
        self.base_cost
    }

    /// The properties, as property and value pairs with distinct properties.
    pub fn properties(&self) -> (r: &[(Property, PolicyValue)])
        ensures
            distinct_keys(r@),
            entries_map(r@) == self@.properties,
    {
        proof {
            use_type_invariant(self);
        }
        self.properties.as_slice()
    }

    /// The metric estimates, as metric and value pairs with distinct metrics.
    pub fn metrics(&self) -> (r: &[(Metric, u64)])
        ensures
            metric_entries(r@) == self@.metrics,
            distinct_metrics(self@.metrics),
    {
        proof {
            use_type_invariant(self);
        }
        self.metrics.as_slice()
    }

    /// Checks the names, the base cost and the metric estimates of the edge; the message
    /// says what is wrong.
    pub fn validate(&self) -> (r: Result<(), String>)
        ensures
            match r {
                Ok(()) => edge_error(self@) is None,
                Err(m) => edge_error(self@) == Some(m@),
            },
    {
        if !valid_name(self.name.as_str()) {
            return Err(quoted("invalid conversion edge name '", self.name.as_str()));
        }
        if !valid_name(self.source.as_str()) {
            return Err(quoted("invalid source stage '", self.source.as_str()));
        }
        if !valid_name(self.target.as_str()) {
            return Err(quoted("invalid target stage '", self.target.as_str()));
        }
        if !valid_name(self.pipeline.as_str()) {
            return Err(quoted("invalid pipeline name '", self.pipeline.as_str()));
        }
        if !float_bits_finite(self.base_cost) || float_bits_negative(self.base_cost) {
            return Err(String::from_str("base cost must be finite and non-negative"));
        }
        let ghost ms = self@.metrics;
        let mut i: usize = 0;
        while i < self.metrics.len()
            invariant
                0 <= i <= self.metrics@.len(),
                ms == metric_entries(self.metrics@),
                ms == self@.metrics,
                is_name_text(self@.name),
                is_name_text(self@.source),
                is_name_text(self@.target),
                is_name_text(self@.pipeline),
                cost_is_valid(self@.base_cost),
                forall|k: int| 0 <= k < i ==> cost_is_valid((#[trigger] ms[k]).1),
            decreases self.metrics@.len() - i,
        {
            let value = self.metrics[i].1;
            if !float_bits_finite(value) || float_bits_negative(value) {
                proof {
                    assert(!cost_is_valid(ms[i as int].1));
                    let c = choose|c: int|
                        0 <= c < ms.len() && !cost_is_valid((#[trigger] ms[c]).1) && forall|j: int|
                            0 <= j < c ==> cost_is_valid(ms[j].1);
                    if c < i {
                        assert(cost_is_valid(ms[c].1));
                    } else if i < c {
                        assert(cost_is_valid(ms[i as int].1));
                    }
                }
                proof {
                    assert(ms[i as int].0 == self.metrics@[i as int].0@);
                    assert(first_bad_metric(ms) == Some(i as int));
                }
                let mut s = String::from_str("metric '");
                s.append(self.metrics[i].0.as_str());
                s.append("' must be finite and non-negative");
                return Err(s);
            }
            i = i + 1;
        }
        Ok(())
    }

    pub fn clone_edge(&self) -> (r: ConversionEdgeDescriptor)
        ensures
            r@ == self@,
    {
        proof {
            use_type_invariant(self);
        }
        let mut properties: Vec<(Property, PolicyValue)> = Vec::new();
        for i in 0..self.properties.len()
            invariant
                properties@.len() == i,
                forall|k: int| 0 <= k < i ==> (#[trigger] properties@[k]).0@ == self.properties@[k].0@
                    && properties@[k].1@ == self.properties@[k].1@,
        {
            properties.push((self.properties[i].0.clone_property(), self.properties[i].1.clone_value()));
        }
        let mut metrics: Vec<(Metric, u64)> = Vec::new();
        for i in 0..self.metrics.len()
            invariant
                metrics@.len() == i,
                forall|k: int| 0 <= k < i ==> (#[trigger] metrics@[k]).0@ == self.metrics@[k].0@
                    && metrics@[k].1 == self.metrics@[k].1,
        {
            metrics.push((self.metrics[i].0.clone_metric(), self.metrics[i].1));
        }
        let mut reqs: Vec<CapabilityRequirement> = Vec::new();
        for i in 0..self.target_requirements.len()
            invariant
                reqs@.len() == i,
                forall|k: int| 0 <= k < i ==> (#[trigger] reqs@[k])@ == self.target_requirements@[k]@,
        {
            reqs.push(self.target_requirements[i].clone_requirement());
        }
        proof {
            lemma_entries_same(properties@, self.properties@);
            assert(metric_entries(metrics@) =~= metric_entries(self.metrics@));
            assert(reqs@.map_values(|q: CapabilityRequirement| q@) =~= self.target_requirements@.map_values(
                |q: CapabilityRequirement| q@,
            ));
        }
        ConversionEdgeDescriptor {
            name: self.name.clone(),
            source: self.source.clone_stage(),
            target: self.target.clone_stage(),
            pipeline: self.pipeline.clone(),
            base_cost: self.base_cost,
            properties,
            metrics,
            target_requirements: reqs,
        }
    }
}

/// Two lists of entries with the same properties and values, position by position, have
/// the same map and the same distinctness.
proof fn lemma_entries_same(a: Seq<(Property, PolicyValue)>, b: Seq<(Property, PolicyValue)>)
    requires
        a.len() == b.len(),
        forall|k: int| 0 <= k < a.len() ==> (#[trigger] a[k]).0@ == b[k].0@ && a[k].1@ == b[k].1@,
    ensures
        entries_map(a) == entries_map(b),
        distinct_keys(a) == distinct_keys(b),
    decreases a.len(),
{
    if a.len() > 0 {
        assert(a.drop_last().len() == b.drop_last().len());
        assert forall|k: int| 0 <= k < a.drop_last().len() implies (#[trigger] a.drop_last()[k]).0@
            == b.drop_last()[k].0@ && a.drop_last()[k].1@ == b.drop_last()[k].1@ by {
            assert(a.drop_last()[k] == a[k]);
            assert(b.drop_last()[k] == b[k]);
        }
        lemma_entries_same(a.drop_last(), b.drop_last());
        assert(a[a.len() - 1].0@ == b[b.len() - 1].0@);
    }
    if distinct_keys(a) {
        assert forall|i: int, j: int| 0 <= i < j < b.len() implies b[i].0@ != b[j].0@ by {
            assert(a[i].0@ != a[j].0@);
        }
    }
    if distinct_keys(b) {
        assert forall|i: int, j: int| 0 <= i < j < a.len() implies a[i].0@ != a[j].0@ by {
            assert(b[i].0@ != b[j].0@);
        }
    }
}

} // verus!
