use vstd::prelude::*;

use super::edge::EdgeView;
use super::evaluate::{evaluation, hint_penalty, route_props, selected_value};
use super::route::{lemma_lex_irreflexive, lex_lt, lex_sorted};
use crate::policy::constraint::{ConstraintStrength, ConstraintView};
use crate::policy::value::ValueView;
use crate::target::{predicate_holds, NumericOrder};

verus! {

/// The routes of a search come in strictly increasing order, so none appears twice.
pub proof fn law_candidates_distinct(n: Seq<Seq<usize>>)
    requires
        lex_sorted(n),
    ensures
        n.no_duplicates(),
{
    assert forall|i: int, j: int| 0 <= i < n.len() && 0 <= j < n.len() && i != j implies n[i] != n[j] by {
        if i < j {
            assert(lex_lt(n[i], n[j]));
        } else {
            assert(lex_lt(n[j], n[i]));
        }
        lemma_lex_irreflexive(n[i]);
    }
}

/// Constraint `i` is a global required constraint on a planned property that the route does
/// not meet.
pub open spec fn required_unmet(
    cs: Seq<ConstraintView>,
    props: Map<Seq<char>, ValueView>,
    relevant: Set<Seq<char>>,
    orders: Seq<NumericOrder>,
    i: int,
) -> bool {
    &&& 0 <= i < cs.len()
    &&& cs[i].scope is Global
    &&& relevant.contains(cs[i].property)
    &&& cs[i].strength == ConstraintStrength::Required
    &&& !predicate_holds(cs[i].predicate, selected_value(props, cs[i].property), orders[i])
}

/// A route is rejected exactly when it fails a global required constraint on a planned
/// property.
pub proof fn law_route_rejected_iff_required_unmet(
    cs: Seq<ConstraintView>,
    props: Map<Seq<char>, ValueView>,
    relevant: Set<Seq<char>>,
    orders: Seq<NumericOrder>,
)
    ensures
        evaluation(cs, props, relevant, orders) is None <==> exists|i: int|
            #[trigger] required_unmet(cs, props, relevant, orders, i),
    decreases cs.len(),
{
    if cs.len() > 0 {
        let init = cs.drop_last();
        law_route_rejected_iff_required_unmet(init, props, relevant, orders);
        assert forall|i: int| 0 <= i < init.len() implies (#[trigger] required_unmet(init, props, relevant, orders, i)
            <==> required_unmet(cs, props, relevant, orders, i)) by {
            assert(init[i] == cs[i]);
        }
        let last = cs.len() - 1;
        assert(init =~= cs.subrange(0, last));
        assert(cs.last() == cs[last]);
        assert(evaluation(cs, props, relevant, orders) is None <==> (evaluation(init, props, relevant, orders) is None
            || required_unmet(cs, props, relevant, orders, last)));
        if exists|i: int| #[trigger] required_unmet(cs, props, relevant, orders, i) {
            let i = choose|i: int| #[trigger] required_unmet(cs, props, relevant, orders, i);
            if i < last {
                assert(required_unmet(init, props, relevant, orders, i));
            }
        }
        if exists|i: int| #[trigger] required_unmet(init, props, relevant, orders, i) {
            let i = choose|i: int| #[trigger] required_unmet(init, props, relevant, orders, i);
            assert(required_unmet(cs, props, relevant, orders, i));
        }
    }
}

/// The properties of the edges at positions `p`, all together.
pub open spec fn set_by_some_edge(es: Seq<EdgeView>, p: Seq<usize>, k: Seq<char>) -> bool {
    exists|i: int| 0 <= i < p.len() && (#[trigger] es[p[i] as int]).properties.contains_key(k)
}

/// A route has exactly the properties that its edges set.
pub proof fn law_route_properties_are_edge_properties(es: Seq<EdgeView>, p: Seq<usize>, k: Seq<char>)
    requires
        route_props(es, p) is Some,
    ensures
        route_props(es, p)->0.contains_key(k) <==> set_by_some_edge(es, p, k),
    decreases p.len(),
{
    if p.len() > 0 {
        let init = p.drop_last();
        law_route_properties_are_edge_properties(es, init, k);
        let last = p.len() - 1;
        if set_by_some_edge(es, init, k) {
            let i = choose|i: int| 0 <= i < init.len() && (#[trigger] es[init[i] as int]).properties.contains_key(k);
            assert(p[i] == init[i]);
            assert(es[p[i] as int].properties.contains_key(k));
        }
        if set_by_some_edge(es, p, k) {
            let i = choose|i: int| 0 <= i < p.len() && (#[trigger] es[p[i] as int]).properties.contains_key(k);
            if i < last {
                assert(init[i] == p[i]);
                assert(es[init[i] as int].properties.contains_key(k));
            }
        }
    }
}


/// Constraint `i` is a global preference or hint on a planned property that the route does
/// not meet.
pub open spec fn soft_unmet(
    cs: Seq<ConstraintView>,
    props: Map<Seq<char>, ValueView>,
    relevant: Set<Seq<char>>,
    orders: Seq<NumericOrder>,
    i: int,
) -> bool {
    &&& 0 <= i < cs.len()
    &&& cs[i].scope is Global
    &&& relevant.contains(cs[i].property)
    &&& cs[i].strength != ConstraintStrength::Required
    &&& !predicate_holds(cs[i].predicate, selected_value(props, cs[i].property), orders[i])
}

/// How many of the first `n` constraints are preferences or hints the route does not meet.
pub open spec fn unmet_count(
    cs: Seq<ConstraintView>,
    props: Map<Seq<char>, ValueView>,
    relevant: Set<Seq<char>>,
    orders: Seq<NumericOrder>,
    n: int,
) -> nat
    decreases n,
{
    if n <= 0 {
        0
    } else {
        unmet_count(cs, props, relevant, orders, n - 1) + if soft_unmet(cs, props, relevant, orders, n - 1) {
            1nat
        } else {
            0nat
        }
    }
}

proof fn lemma_unmet_count_prefix(
    cs: Seq<ConstraintView>,
    props: Map<Seq<char>, ValueView>,
    relevant: Set<Seq<char>>,
    orders: Seq<NumericOrder>,
    n: int,
)
    requires
        0 <= n < cs.len(),
    ensures
        unmet_count(cs, props, relevant, orders, n) == unmet_count(cs.drop_last(), props, relevant, orders, n),
    decreases n,
{
    if n > 0 {
        lemma_unmet_count_prefix(cs, props, relevant, orders, n - 1);
        assert(cs.drop_last()[n - 1] == cs[n - 1]);
    }
}

/// `x` is the penalty of some preference or hint the route does not meet.
pub open spec fn penalty_of_unmet(
    cs: Seq<ConstraintView>,
    props: Map<Seq<char>, ValueView>,
    relevant: Set<Seq<char>>,
    orders: Seq<NumericOrder>,
    x: u64,
) -> bool {
    exists|i: int| #[trigger] soft_unmet(cs, props, relevant, orders, i) && x == soft_penalty(cs[i])
}

/// The penalty a preference or hint that is not met adds to a route's score: its weight, or
/// the bits of 0.1 for a hint.
pub open spec fn soft_penalty(c: ConstraintView) -> u64 {
    match c.strength {
        ConstraintStrength::Preferred { weight } => weight,
        _ => hint_penalty(),
    }
}

/// The penalties of an accepted route are those of the preferences and hints it does not
/// meet, one for each: every unmet global preference on a planned property puts its weight
/// among the penalties (every unmet hint the bits of 0.1), every penalty comes from such a
/// constraint, and there are as many penalties as such constraints, so the penalties are
/// empty exactly when the route meets every preference and hint.
pub proof fn law_unmet_preferences_are_penalised(
    cs: Seq<ConstraintView>,
    props: Map<Seq<char>, ValueView>,
    relevant: Set<Seq<char>>,
    orders: Seq<NumericOrder>,
)
    requires
        orders.len() >= cs.len(),
        evaluation(cs, props, relevant, orders) is Some,
    ensures
        ({
            let ps = evaluation(cs, props, relevant, orders).unwrap().1;
            &&& forall|i: int|
                #[trigger] soft_unmet(cs, props, relevant, orders, i) ==> ps.contains(soft_penalty(cs[i]))
            &&& forall|k: int| 0 <= k < ps.len() ==> penalty_of_unmet(cs, props, relevant, orders, #[trigger] ps[k])
            &&& ps.len() == unmet_count(cs, props, relevant, orders, cs.len() as int)
            &&& (ps.len() == 0 <==> forall|i: int| !#[trigger] soft_unmet(cs, props, relevant, orders, i))
        }),
    decreases cs.len(),
{
    if cs.len() > 0 {
        let d = cs.drop_last();
        let l = cs.len() - 1;
        law_unmet_preferences_are_penalised(d, props, relevant, orders);
        let ps0 = evaluation(d, props, relevant, orders).unwrap().1;
        let ps = evaluation(cs, props, relevant, orders).unwrap().1;
        assert forall|i: int| 0 <= i < l implies (#[trigger] soft_unmet(cs, props, relevant, orders, i)
            <==> soft_unmet(d, props, relevant, orders, i)) by {
            assert(d[i] == cs[i]);
        }
        assert(ps == ps0 || ps == ps0.push(soft_penalty(cs[l])));
        lemma_unmet_count_prefix(cs, props, relevant, orders, l);
        assert(ps == ps0.push(soft_penalty(cs[l])) <==> soft_unmet(cs, props, relevant, orders, l));
        assert forall|i: int| #[trigger] soft_unmet(cs, props, relevant, orders, i) implies ps.contains(
            soft_penalty(cs[i]),
        ) by {
            if i < l {
                assert(soft_unmet(d, props, relevant, orders, i));
                assert(d[i] == cs[i]);
                let k = choose|k: int| 0 <= k < ps0.len() && ps0[k] == soft_penalty(d[i]);
                assert(ps[k] == ps0[k]);
            } else {
                assert(ps[ps.len() - 1] == soft_penalty(cs[l]));
            }
        }
        assert forall|k: int| 0 <= k < ps.len() implies penalty_of_unmet(cs, props, relevant, orders, #[trigger] ps[k]) by {
            if k < ps0.len() {
                assert(ps[k] == ps0[k]);
                assert(penalty_of_unmet(d, props, relevant, orders, ps0[k]));
                let i = choose|i: int| #[trigger] soft_unmet(d, props, relevant, orders, i) && ps0[k] == soft_penalty(d[i]);
                assert(d[i] == cs[i]);
                assert(soft_unmet(cs, props, relevant, orders, i));
            } else {
                assert(soft_unmet(cs, props, relevant, orders, l));
            }
        }
        if ps.len() == 0 {
            assert forall|i: int| !#[trigger] soft_unmet(cs, props, relevant, orders, i) by {
                if soft_unmet(cs, props, relevant, orders, i) {
                    assert(ps.contains(soft_penalty(cs[i])));
                }
            }
        } else {
            assert(penalty_of_unmet(cs, props, relevant, orders, ps[0]));
            let i = choose|i: int| #[trigger] soft_unmet(cs, props, relevant, orders, i) && ps[0] == soft_penalty(cs[i]);
        }
    }
}

} // verus!
