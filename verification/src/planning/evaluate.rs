use vstd::prelude::*;

use super::edge::EdgeView;
use super::registry::ConversionRegistry;
use crate::policy::constraint::{ConstraintStrength, ConstraintView, CompilationConstraint, Property};
use crate::policy::decision::{DecisionKindView, DecisionView, PolicyDecision, PolicyDecisionKind, SubjectView};
use crate::policy::scope::{ConstraintScope, ScopeView};
use crate::policy::value::{value_eq, PolicyValue, ValueView};
use crate::request::CompileRequest;
use crate::target::{
    distinct_keys, entries_map, find_entry, lemma_entries_map_lookup, predicate_holds, predicate_matches,
    NumericOrder,
};

verus! {

/// Some property has different values in `m` and `props`.
pub open spec fn conflicts(m: Map<Seq<char>, ValueView>, props: Map<Seq<char>, ValueView>) -> bool {
    exists|k: Seq<char>|
        #[trigger] m.contains_key(k) && props.contains_key(k) && !value_eq(m[k], props[k])
}

/// The properties of the route through the edges at positions `p`: each property takes
/// the value of the first edge that sets it, and the route has none when a later edge sets
/// a property to another value.
pub open spec fn route_props(es: Seq<EdgeView>, p: Seq<usize>) -> Option<Map<Seq<char>, ValueView>>
    decreases p.len(),
{
    if p.len() == 0 {
        Some(Map::empty())
    } else {
        match route_props(es, p.drop_last()) {
            None => None,
            Some(m) => {
                let props = es[p.last() as int].properties;
                if conflicts(m, props) {
                    None
                } else {
                    Some(props.union_prefer_right(m))
                }
            },
        }
    }
}

pub open spec fn opt_view(v: Option<ValueView>) -> Option<ValueView> {
    v
}

/// Merges the properties of one edge into the properties gathered so far; `None` when they
/// conflict.
fn merge_edge(
    merged: &mut Vec<(Property, PolicyValue)>,
    entries: &[(Property, PolicyValue)],
) -> (ok: bool)
    requires
        distinct_keys(old(merged)@),
        distinct_keys(entries@),
    ensures
        distinct_keys(final(merged)@),
        ok == !conflicts(entries_map(old(merged)@), entries_map(entries@)),
        ok ==> entries_map(final(merged)@) == entries_map(entries@).union_prefer_right(entries_map(old(merged)@)),
{
    let ghost m0 = entries_map(merged@);
    let ghost props = entries_map(entries@);
    let ghost es = entries@;
    let mut l: usize = 0;
    while l < entries.len()
        invariant
            0 <= l <= entries@.len(),
            es == entries@,
            m0 == entries_map(old(merged)@),
            props == entries_map(es),
            distinct_keys(es),
            distinct_keys(merged@),
            forall|k: int| 0 <= k < l ==> !(m0.contains_key((#[trigger] es[k]).0@) && !value_eq(m0[es[k].0@], es[k].1@)),
            entries_map(merged@) == Map::new(
                |key: Seq<char>| m0.contains_key(key) || exists|k: int| 0 <= k < l && (#[trigger] es[k]).0@ == key,
                |key: Seq<char>| if m0.contains_key(key) { m0[key] } else { props[key] },
            ),
        decreases entries@.len() - l,
    {
        proof {
            lemma_entries_map_lookup(es, l as int);
        }
        let found = find_entry(merged.as_slice(), &entries[l].0);
        match found {
            Some(existing) => {
                if !existing.equals(&entries[l].1) {
                    proof {
                        let key = es[l as int].0@;
                        if !m0.contains_key(key) {
                            let k = choose|k: int| 0 <= k < l && (#[trigger] es[k]).0@ == key;
                            assert(es[k].0@ != es[l as int].0@);
                        }
                        assert(m0.contains_key(key) && props.contains_key(key) && !value_eq(m0[key], props[key]));
                        assert(conflicts(m0, props));
                    }
                    return false;
                }
                proof {
                    let key = es[l as int].0@;
                    if !m0.contains_key(key) {
                        let k = choose|k: int| 0 <= k < l && (#[trigger] es[k]).0@ == key;
                        assert(es[k].0@ != es[l as int].0@);
                    }
                    assert(entries_map(merged@) =~= Map::new(
                        |key: Seq<char>| m0.contains_key(key) || exists|k: int| 0 <= k < l + 1 && (#[trigger] es[k]).0@ == key,
                        |key: Seq<char>| if m0.contains_key(key) { m0[key] } else { props[key] },
                    ));
                }
            },
            None => {
                let ghost before = entries_map(merged@);
                crate::target::set_entry(merged, entries[l].0.as_str(), entries[l].1.clone_value());
                proof {
                    let key = es[l as int].0@;
                    assert(!m0.contains_key(key));
                    assert(entries_map(merged@) =~= Map::new(
                        |key: Seq<char>| m0.contains_key(key) || exists|k: int| 0 <= k < l + 1 && (#[trigger] es[k]).0@ == key,
                        |key: Seq<char>| if m0.contains_key(key) { m0[key] } else { props[key] },
                    )) by {
                        assert forall|x: Seq<char>| #![auto] (m0.contains_key(x) || exists|k: int| 0 <= k < l + 1 && (#[trigger] es[k]).0@ == x) implies
                            entries_map(merged@).contains_key(x) && entries_map(merged@)[x] == (if m0.contains_key(x) { m0[x] } else { props[x] }) by {
                            if x != key && !m0.contains_key(x) {
                                let k = choose|k: int| 0 <= k < l + 1 && (#[trigger] es[k]).0@ == x;
                                assert(k < l);
                            }
                        }
                        assert forall|x: Seq<char>| #![auto] entries_map(merged@).contains_key(x) implies
                            (m0.contains_key(x) || exists|k: int| 0 <= k < l + 1 && (#[trigger] es[k]).0@ == x) by {
                            if x == key {
                                assert(es[l as int].0@ == x);
                            }
                        }
                    }
                }
            },
        }
        l = l + 1;
    }
    proof {
        assert forall|key: Seq<char>| #[trigger] m0.contains_key(key) && props.contains_key(key) implies value_eq(m0[key], props[key]) by {
            crate::target::lemma_entries_map_index(es, key);
            let k = choose|k: int| 0 <= k < es.len() && (#[trigger] es[k]).0@ == key;
            lemma_entries_map_lookup(es, k);
        }
        assert forall|x: Seq<char>| #[trigger] props.contains_key(x) <==> exists|k: int| 0 <= k < es.len() && (#[trigger] es[k]).0@ == x by {
            crate::target::lemma_entries_map_index(es, x);
            if exists|k: int| 0 <= k < es.len() && (#[trigger] es[k]).0@ == x {
                let k = choose|k: int| 0 <= k < es.len() && (#[trigger] es[k]).0@ == x;
                lemma_entries_map_lookup(es, k);
            }
        }
        assert(entries_map(merged@) =~= props.union_prefer_right(m0));
    }
    true
}

/// The properties of the route through the edges at positions `indices`, or `None` when two
/// of its edges set a property to different values.
pub fn route_properties(registry: &ConversionRegistry, indices: &[usize]) -> (r: Option<Vec<(Property, PolicyValue)>>)
    requires
        forall|k: int| 0 <= k < indices@.len() ==> (#[trigger] indices@[k]) < registry@.len(),
    ensures
        match r {
            Some(v) => distinct_keys(v@) && route_props(registry@, indices@) == Some(entries_map(v@)),
            None => route_props(registry@, indices@) is None,
        },
{
    let mut merged: Vec<(Property, PolicyValue)> = Vec::new();
    let mut t: usize = 0;
    proof {
        assert(entries_map(merged@) =~= Map::<Seq<char>, ValueView>::empty());
        assert(indices@.subrange(0, 0) =~= Seq::<usize>::empty());
    }
    while t < indices.len()
        invariant
            0 <= t <= indices@.len(),
            forall|k: int| 0 <= k < indices@.len() ==> (#[trigger] indices@[k]) < registry@.len(),
            distinct_keys(merged@),
            route_props(registry@, indices@.subrange(0, t as int)) == Some(entries_map(merged@)),
        decreases indices@.len() - t,
    {
        let edge = match registry.edge(indices[t]) {
            Some(e) => e,
            None => {
                return None;
            },
        };
        let entries = edge.properties();
        let ghost prev = entries_map(merged@);
        proof {
            assert(indices@.subrange(0, t + 1).drop_last() =~= indices@.subrange(0, t as int));
            assert(indices@.subrange(0, t + 1).last() == indices@[t as int]);
        }
        if !merge_edge(&mut merged, entries) {
            proof {
                lemma_route_props_none(registry@, indices@, t as int);
            }
            return None;
        }
        t = t + 1;
    }
    proof {
        assert(indices@.subrange(0, indices@.len() as int) =~= indices@);
    }
    Some(merged)
}

/// A route with a conflict in its first edges has no properties.
proof fn lemma_route_props_none(es: Seq<EdgeView>, p: Seq<usize>, t: int)
    requires
        0 <= t < p.len(),
        route_props(es, p.subrange(0, t + 1)) is None,
    ensures
        route_props(es, p) is None,
    decreases p.len() - t,
{
    if t + 1 < p.len() {
        assert(p.subrange(0, t + 2).drop_last() =~= p.subrange(0, t + 1));
        lemma_route_props_none(es, p, t + 1);
    } else {
        assert(p.subrange(0, t + 1) =~= p);
    }
}

/// The reason of a decision on a constraint that the selected route satisfies.
pub open spec fn satisfied_reason() -> Seq<char> {
    "selected conversion route satisfies the planning constraint"@
}

/// The reason of a decision on a preference or hint that the selected route does not
/// satisfy.
pub open spec fn unsatisfied_reason() -> Seq<char> {
    "selected conversion route does not satisfy the preference or hint"@
}

/// The bits of the double 0.1, the penalty of a hint the route does not follow.
pub open spec fn hint_penalty() -> u64 {
    0x3fb999999999999a
}

/// The decision recorded for a global constraint on a route.
pub open spec fn constraint_decision_view(
    kind: DecisionKindView,
    property: Seq<char>,
    selected: Option<ValueView>,
    satisfied: bool,
) -> DecisionView {
    DecisionView {
        kind,
        scope: ScopeView::Global,
        subject: SubjectView::Property(property),
        requested: None,
        selected,
        score: None,
        reason: if satisfied { satisfied_reason() } else { unsatisfied_reason() },
        pass: None,
        operation: None,
    }
}

/// The value a route gives a property, if any.
pub open spec fn selected_value(props: Map<Seq<char>, ValueView>, property: Seq<char>) -> Option<ValueView> {
    if props.contains_key(property) {
        Some(props[property])
    } else {
        None
    }
}

/// How the global constraints on planned properties judge a route with properties
/// `props`: `None` when a required one fails, else the decisions, in constraint order, and
/// the penalties (bits of doubles) of the preferences and hints it does not meet, in the
/// order they are added to the score. `orders[i]` is how the route's number compares with the
/// bound of constraint `i`; constraints on other scopes or on properties no edge sets are
/// left to later passes.
pub open spec fn evaluation(
    cs: Seq<ConstraintView>,
    props: Map<Seq<char>, ValueView>,
    relevant: Set<Seq<char>>,
    orders: Seq<NumericOrder>,
) -> Option<(Seq<DecisionView>, Seq<u64>)>
    decreases cs.len(),
{
    if cs.len() == 0 {
        Some((Seq::empty(), Seq::empty()))
    } else {
        match evaluation(cs.drop_last(), props, relevant, orders) {
            None => None,
            Some(acc) => {
                let c = cs.last();
                let i = cs.len() - 1;
                if !(c.scope is Global) || !relevant.contains(c.property) {
                    Some(acc)
                } else {
                    let selected = selected_value(props, c.property);
                    let sat = predicate_holds(c.predicate, selected, orders[i]);
                    match c.strength {
                        ConstraintStrength::Required => if sat {
                            Some(
                                (
                                    acc.0.push(
                                        constraint_decision_view(
                                            DecisionKindView::RequiredSatisfied,
                                            c.property,
                                            selected,
                                            true,
                                        ),
                                    ),
                                    acc.1,
                                ),
                            )
                        } else {
                            None
                        },
                        ConstraintStrength::Preferred { weight } => Some(
                            (
                                acc.0.push(
                                    constraint_decision_view(
                                        if sat {
                                            DecisionKindView::PreferenceSelected
                                        } else {
                                            DecisionKindView::PreferenceRejected
                                        },
                                        c.property,
                                        selected,
                                        sat,
                                    ),
                                ),
                                if sat { acc.1 } else { acc.1.push(weight) },
                            ),
                        ),
                        ConstraintStrength::Hint => Some(
                            (
                                acc.0.push(
                                    constraint_decision_view(
                                        if sat {
                                            DecisionKindView::HintApplied
                                        } else {
                                            DecisionKindView::HintIgnored
                                        },
                                        c.property,
                                        selected,
                                        sat,
                                    ),
                                ),
                                if sat { acc.1 } else { acc.1.push(hint_penalty()) },
                            ),
                        ),
                    }
                }
            },
        }
    }
}

/// The decision recorded for a global constraint on a route.
pub fn constraint_decision(
    kind: PolicyDecisionKind,
    property: Property,
    selected: Option<&PolicyValue>,
    satisfied: bool,
) -> (r: PolicyDecision)
    ensures
        r@ == constraint_decision_view(
            kind@,
            property@,
            match selected {
                Some(v) => Some(v@),
                None => None,
            },
            satisfied,
        ),
{
    let reason = if satisfied {
        "selected conversion route satisfies the planning constraint"
    } else {
        "selected conversion route does not satisfy the preference or hint"
    };
    let decision = PolicyDecision::for_property(kind, ConstraintScope::Global, property, reason);
    match selected {
        Some(value) => decision.selected(value.clone_value()),
        None => decision,
    }
}

/// Whether `property` is one of `relevant`.
fn contains_property(relevant: &[Property], property: &Property) -> (r: bool)
    ensures
        r == relevant@.map_values(|q: Property| q@).contains(property@),
{
    let ghost views = relevant@.map_values(|q: Property| q@);
    let mut i: usize = 0;
    while i < relevant.len()
        invariant
            0 <= i <= relevant@.len(),
            views == relevant@.map_values(|q: Property| q@),
            forall|k: int| 0 <= k < i ==> views[k] != property@,
        decreases relevant@.len() - i,
    {
        if relevant[i].same(property) {
            proof {
                assert(views[i as int] == property@);
            }
            return true;
        }
        i = i + 1;
    }
    false
}

/// What the global constraints say of a route: the decisions, and the penalties (bits of
/// doubles) to add to its score, in order.
#[derive(Debug)]
pub struct RouteEvaluation {
    pub decisions: Vec<PolicyDecision>,
    pub penalties: Vec<u64>,
}

/// Judges a route with properties `properties` by the global constraints of the request on
/// the properties in `relevant`; `None` when a required constraint fails. `orders[i]` is
/// how the route's number compares with the bound of constraint `i`, as doubles.
pub fn evaluate_constraints(
    request: &CompileRequest,
    properties: &[(Property, PolicyValue)],
    relevant: &[Property],
    orders: &[NumericOrder],
) -> (r: Option<RouteEvaluation>)
    requires
        distinct_keys(properties@),
        orders@.len() == request@.constraints.len(),
    ensures
        match r {
            Some(ev) => evaluation(
                request@.constraints,
                entries_map(properties@),
                relevant@.map_values(|q: Property| q@).to_set(),
                orders@,
            ) == Some((ev.decisions@.map_values(|d: PolicyDecision| d@), ev.penalties@)),
            None => evaluation(
                request@.constraints,
                entries_map(properties@),
                relevant@.map_values(|q: Property| q@).to_set(),
                orders@,
            ) is None,
        },
{
    let constraints = request.constraints().iter();
    let ghost cs = request@.constraints;
    let ghost props = entries_map(properties@);
    let ghost rel = relevant@.map_values(|q: Property| q@).to_set();
    let mut decisions: Vec<PolicyDecision> = Vec::new();
    let mut penalties: Vec<u64> = Vec::new();
    let mut i: usize = 0;
    proof {
        assert(cs.subrange(0, 0) =~= Seq::<ConstraintView>::empty());
        assert(decisions@.map_values(|d: PolicyDecision| d@) =~= Seq::<DecisionView>::empty());
    }
    while i < constraints.len()
        invariant
            0 <= i <= constraints@.len(),
            constraints@.map_values(|c: CompilationConstraint| c@) == cs,
            cs == request@.constraints,
            orders@.len() == cs.len(),
            distinct_keys(properties@),
            props == entries_map(properties@),
            rel == relevant@.map_values(|q: Property| q@).to_set(),
            evaluation(cs.subrange(0, i as int), props, rel, orders@) == Some(
                (decisions@.map_values(|d: PolicyDecision| d@), penalties@),
            ),
        decreases constraints@.len() - i,
    {
        let c = &constraints[i];
        let ghost prefix = cs.subrange(0, i + 1);
        let ghost d0 = decisions@.map_values(|d: PolicyDecision| d@);
        proof {
            assert(prefix.drop_last() =~= cs.subrange(0, i as int));
            assert(prefix.last() == c@);
            assert(cs[i as int] == c@);
        }
        let global = match c.scope() {
            ConstraintScope::Global => true,
            _ => false,
        };
        if global && contains_property(relevant, c.property()) {
            let selected = find_entry(properties, c.property());
            let satisfied = predicate_matches(c.predicate(), selected, orders[i]);
            proof {
                assert(crate::target::opt_value_view(selected) == selected_value(props, c@.property));
            }
            match c.strength() {
                ConstraintStrength::Required => {
                    if !satisfied {
                        proof {
                            lemma_evaluation_none(cs, props, rel, orders@, i as int);
                        }
                        return None;
                    }
                    decisions.push(
                        constraint_decision(
                            PolicyDecisionKind::RequiredSatisfied,
                            c.property().clone_property(),
                            selected,
                            true,
                        ),
                    );
                },
                ConstraintStrength::Preferred { weight } => {
                    if !satisfied {
                        penalties.push(weight);
                    }
                    decisions.push(
                        constraint_decision(
                            if satisfied {
                                PolicyDecisionKind::PreferenceSelected
                            } else {
                                PolicyDecisionKind::PreferenceRejected
                            },
                            c.property().clone_property(),
                            selected,
                            satisfied,
                        ),
                    );
                },
                ConstraintStrength::Hint => {
                    if !satisfied {
                        penalties.push(0x3fb999999999999a);
                    }
                    decisions.push(
                        constraint_decision(
                            if satisfied {
                                PolicyDecisionKind::HintApplied
                            } else {
                                PolicyDecisionKind::HintIgnored
                            },
                            c.property().clone_property(),
                            selected,
                            satisfied,
                        ),
                    );
                },
            }
            proof {
                assert(decisions@.map_values(|d: PolicyDecision| d@) =~= d0.push(decisions@.last()@));
            }
        }
        i = i + 1;
    }
    proof {
        assert(cs.subrange(0, cs.len() as int) =~= cs);
    }
    Some(RouteEvaluation { decisions, penalties })
}

/// Once a required constraint fails, the whole evaluation fails.
proof fn lemma_evaluation_none(
    cs: Seq<ConstraintView>,
    props: Map<Seq<char>, ValueView>,
    relevant: Set<Seq<char>>,
    orders: Seq<NumericOrder>,
    i: int,
)
    requires
        0 <= i < cs.len(),
        evaluation(cs.subrange(0, i + 1), props, relevant, orders) is None,
    ensures
        evaluation(cs, props, relevant, orders) is None,
    decreases cs.len() - i,
{
    if i + 1 < cs.len() {
        assert(cs.subrange(0, i + 2).drop_last() =~= cs.subrange(0, i + 1));
        lemma_evaluation_none(cs, props, relevant, orders, i + 1);
    } else {
        assert(cs.subrange(0, i + 1) =~= cs);
    }
}

} // verus!
