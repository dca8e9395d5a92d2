use vstd::prelude::*;

use super::edge::EdgeView;
use super::plan::PlanningConfig;
use super::registry::{is_outgoing, ConversionRegistry};
use super::route::{is_prefix, lemma_lex_at, lemma_lex_irreflexive, lemma_lex_le_at, lex_lt, lex_sorted, RouteSpace};
use super::stage::ConversionStage;
use crate::registry::pipeline::PipelineRegistry;

verus! {

pub open spec fn cand_views(c: Seq<Vec<usize>>) -> Seq<Seq<usize>> {
    c.map_values(|v: Vec<usize>| v@)
}

/// Every sequence of `n` is a route that strictly extends `p`.
pub open spec fn all_complete(space: RouteSpace, p: Seq<usize>, n: Seq<Seq<usize>>) -> bool {
    forall|k: int| 0 <= k < n.len() ==> space.completes(p, #[trigger] n[k])
}

/// Every route that strictly extends `p`, and whose edge after `p` is below `bound` if
/// there is one, is in `n`.
pub open spec fn covers(space: RouteSpace, p: Seq<usize>, n: Seq<Seq<usize>>, bound: Option<int>) -> bool {
    forall|r: Seq<usize>|
        #[trigger] space.completes(p, r) && (bound matches Some(b) ==> r[p.len() as int] < b) ==> n.contains(r)
}

/// Every route that strictly extends `p` and comes before some element of `n` is in `n`.
pub open spec fn closed_below(space: RouteSpace, p: Seq<usize>, n: Seq<Seq<usize>>) -> bool {
    forall|r: Seq<usize>, k: int|
        #![trigger space.completes(p, r), n[k]]
        space.completes(p, r) && 0 <= k < n.len() && lex_lt(r, n[k]) ==> n.contains(r)
}

/// The search space of a registry, a pipeline registry and the usable edges.
pub open spec fn space_of(
    edges: Seq<EdgeView>,
    usable: Seq<bool>,
    pipelines: Set<Seq<char>>,
    source: Seq<char>,
    target: Seq<char>,
    max_depth: usize,
) -> RouteSpace {
    RouteSpace { edges, usable, pipelines, source, target, max_depth: max_depth as nat }
}

/// Whether `stage` is one of the stages of `path`.
fn on_path(
    space: Ghost<RouteSpace>,
    registry: &ConversionRegistry,
    source: &ConversionStage,
    path: &Vec<usize>,
    stage: &ConversionStage,
) -> (r: bool)
    requires
        space@.edges == registry@,
        space@.source == source@,
        forall|k: int| 0 <= k < path@.len() ==> (#[trigger] path@[k]) < registry@.len(),
    ensures
        r == exists|k: int| 0 <= k <= path@.len() && #[trigger] space@.stage_at(path@, k) == stage@,
{
    if source.same(stage) {
        proof {
            assert(space@.stage_at(path@, 0) == stage@);
        }
        return true;
    }
    let mut i: usize = 0;
    while i < path.len()
        invariant
            0 <= i <= path@.len(),
            space@.edges == registry@,
            space@.source == source@,
            forall|k: int| 0 <= k < path@.len() ==> (#[trigger] path@[k]) < registry@.len(),
            forall|k: int| 0 <= k <= i ==> #[trigger] space@.stage_at(path@, k) != stage@,
        decreases path@.len() - i,
    {
        match registry.edge(path[i]) {
            Some(edge) => {
                if edge.target().same(stage) {
                    proof {
                        assert(space@.stage_at(path@, i + 1) == stage@);
                    }
                    return true;
                }
                proof {
                    assert(space@.stage_at(path@, i + 1) != stage@);
                }
            },
            None => {
                proof {
                    assert(false);
                }
            },
        }
        i = i + 1;
    }
    false
}

/// The edge at `out[j]`, if there is one.
pub open spec fn bound_at(out: Seq<usize>, j: int) -> Option<int> {
    if 0 <= j < out.len() {
        Some(out[j] as int)
    } else {
        None
    }
}

proof fn lemma_between(out: Seq<usize>, j: int, x: usize)
    requires
        forall|k: int, l: int| 0 <= k < l < out.len() ==> (#[trigger] out[k]) < (#[trigger] out[l]),
        out.contains(x),
        0 <= j < out.len(),
        out[j] <= x,
        j + 1 < out.len() ==> x < out[j + 1],
    ensures
        x == out[j],
{
    let t = choose|t: int| 0 <= t < out.len() && out[t] == x;
    if t < j {
        assert(out[t] < out[j]);
    } else if t > j {
        if t > j + 1 {
            assert(out[j + 1] < out[t]);
        }
    }
}

/// Routes through the edges below `out[j]` and through `out[j]` are those through the edges
/// below `out[j + 1]`.
proof fn lemma_covers_step(sp: RouteSpace, p: Seq<usize>, out: Seq<usize>, j: int, n: Seq<Seq<usize>>)
    requires
        is_outgoing(sp.edges, sp.stage_at(p, p.len() as int), out),
        0 <= j < out.len(),
        covers(sp, p, n, Some(out[j] as int)),
        forall|r: Seq<usize>| #[trigger] sp.completes(p, r) && r[p.len() as int] == out[j] ==> n.contains(r),
    ensures
        covers(sp, p, n, bound_at(out, j + 1)),
{
    let m = p.len() as int;
    assert forall|r: Seq<usize>|
        #[trigger] sp.completes(p, r) && (bound_at(out, j + 1) matches Some(b) ==> r[m] < b) implies n.contains(r) by {
        if r[m] >= out[j] {
            sp.lemma_next_edge(p, r);
            assert(out.contains(r[m]));
            lemma_between(out, j, r[m]);
        }
    }
}

/// Edges met through the edges below `out[j]` and through `out[j]` are those met through
/// the edges below `out[j + 1]`.
proof fn lemma_missing_step(sp: RouteSpace, p: Seq<usize>, out: Seq<usize>, j: int)
    requires
        sp.edges.len() <= usize::MAX,
        is_outgoing(sp.edges, sp.stage_at(p, p.len() as int), out),
        0 <= j < out.len(),
        forall|i: int| !#[trigger] sp.missing_within(p, i, Some(out[j] as int)),
        !sp.lacks_pipeline(out[j] as int),
        forall|i: int| !#[trigger] sp.missing_within(p.push(out[j]), i, None),
    ensures
        forall|i: int| !#[trigger] sp.missing_within(p, i, bound_at(out, j + 1)),
{
    let m = p.len() as int;
    let e = out[j];
    let nb = bound_at(out, j + 1);
    assert forall|i: int| !#[trigger] sp.missing_within(p, i, nb) by {
        if sp.missing_within(p, i, nb) {
            let q = choose|q: Seq<usize>|
                #![trigger sp.expandable(q), is_prefix(p, q)]
                sp.expandable(q) && is_prefix(p, q) && sp.lacks_pipeline(i) && sp.edges[i].source
                    == sp.stage_at(q, q.len() as int) && (nb matches Some(b) ==> sp.first_after(p, q, i) < b);
            if !sp.missing_within(p, i, Some(e as int)) {
                assert(sp.first_after(p, q, i) >= e);
            }
            if q.len() > p.len() {
                sp.lemma_expandable_next(p, q);
                assert(out.contains(q[m]));
                lemma_between(out, j, q[m]);
                assert(q.subrange(0, (m + 1) as int) == p.push(e));
                assert(sp.missing_within(p.push(e), i, None));
            } else {
                assert(q.len() == p.len());
                assert(q =~= p) by {
                    assert(q.subrange(0, p.len() as int) =~= q);
                }
                assert(out.contains(i as usize));
                lemma_between(out, j, i as usize);
            }
        }
    }
}

/// No route and no expanded walk extends `p.push(e)` when `e` cannot be taken after `p`.
proof fn lemma_blocked(sp: RouteSpace, p: Seq<usize>, e: usize)
    requires
        !(sp.takes(e as int) && sp.edges[e as int].source == sp.stage_at(p, p.len() as int) && forall|k: int|
            0 <= k <= p.len() ==> #[trigger] sp.stage_at(p, k) != sp.edges[e as int].target),
    ensures
        forall|r: Seq<usize>| #[trigger] sp.completes(p, r) ==> r[p.len() as int] != e,
        forall|i: int| !#[trigger] sp.missing_within(p.push(e), i, None),
{
    assert forall|r: Seq<usize>| #[trigger] sp.completes(p, r) implies r[p.len() as int] != e by {
        sp.lemma_next_edge(p, r);
    }
    assert forall|i: int| !#[trigger] sp.missing_within(p.push(e), i, None) by {
        if sp.missing_within(p.push(e), i, None) {
            let q = choose|q: Seq<usize>|
                #![trigger sp.expandable(q), is_prefix(p.push(e), q)]
                sp.expandable(q) && is_prefix(p.push(e), q) && sp.lacks_pipeline(i) && sp.edges[i].source
                    == sp.stage_at(q, q.len() as int);
            sp.lemma_prefix_push(p, e, q);
            sp.lemma_expandable_next(p, q);
        }
    }
}

/// Before any outgoing edge is looked at, no route and no missing pipeline lies below the
/// first one.
proof fn lemma_start(sp: RouteSpace, p: Seq<usize>, out: Seq<usize>)
    requires
        is_outgoing(sp.edges, sp.stage_at(p, p.len() as int), out),
        sp.edges.len() <= usize::MAX,
    ensures
        covers(sp, p, Seq::empty(), bound_at(out, 0)),
        forall|i: int| !#[trigger] sp.missing_within(p, i, bound_at(out, 0)),
{
    let m = p.len() as int;
    assert forall|r: Seq<usize>| #[trigger] sp.completes(p, r) && (bound_at(out, 0) matches Some(b) ==> r[m] < b) implies Seq::<Seq<usize>>::empty().contains(r) by {
        sp.lemma_next_edge(p, r);
        assert(out.contains(r[m]));
        let t = choose|t: int| 0 <= t < out.len() && out[t] == r[m];
        if t > 0 {
            assert(out[0] < out[t]);
        }
    }
    assert forall|i: int| !#[trigger] sp.missing_within(p, i, bound_at(out, 0)) by {
        if sp.missing_within(p, i, bound_at(out, 0)) {
            let q = choose|q: Seq<usize>|
                #![trigger sp.expandable(q), is_prefix(p, q)]
                sp.expandable(q) && is_prefix(p, q) && sp.lacks_pipeline(i) && sp.edges[i].source
                    == sp.stage_at(q, q.len() as int) && (bound_at(out, 0) matches Some(b) ==> sp.first_after(p, q, i) < b);
            let f = sp.first_after(p, q, i);
            if q.len() > p.len() {
                sp.lemma_expandable_next(p, q);
            } else {
                assert(q =~= p) by {
                    assert(q.subrange(0, p.len() as int) =~= q);
                }
            }
            assert(out.contains(f as usize));
            let t = choose|t: int| 0 <= t < out.len() && out[t] == f as usize;
            if t > 0 {
                assert(out[0] < out[t]);
            }
        }
    }
}

/// The facts the search keeps of the routes `n` found after `p` through the edges before
/// `out[j]`.
pub open spec fn found_before(sp: RouteSpace, p: Seq<usize>, out: Seq<usize>, j: int, n: Seq<Seq<usize>>) -> bool {
    &&& all_complete(sp, p, n)
    &&& lex_sorted(n)
    &&& closed_below(sp, p, n)
    &&& forall|k: int| 0 <= k < n.len() && j < out.len() ==> (#[trigger] n[k])[p.len() as int] < out[j]
}

/// Appending the one-edge extension `q` of `p`, which reaches the target, to the routes found
/// before it keeps the facts, one edge further.
proof fn lemma_push_route(sp: RouteSpace, p: Seq<usize>, out: Seq<usize>, j: int, n0: Seq<Seq<usize>>)
    requires
        is_outgoing(sp.edges, sp.stage_at(p, p.len() as int), out),
        0 <= j < out.len(),
        found_before(sp, p, out, j, n0),
        covers(sp, p, n0, Some(out[j] as int)),
        sp.completes(p, p.push(out[j])),
        sp.edges[out[j] as int].target == sp.target,
    ensures
        found_before(sp, p, out, j + 1, n0.push(p.push(out[j]))),
        covers(sp, p, n0.push(p.push(out[j])), bound_at(out, j + 1)),
        forall|i: int| !#[trigger] sp.missing_within(p.push(out[j]), i, None),
{
    let m = p.len() as int;
    let e = out[j];
    let q = p.push(e);
    let n1 = n0.push(q);
    assert(q.subrange(0, m) =~= p);
    assert forall|k: int| 0 <= k < n1.len() implies sp.completes(p, #[trigger] n1[k]) by {
        if k < n0.len() {
            assert(n1[k] == n0[k]);
        }
    }
    assert forall|a: int, b: int| 0 <= a < b < n1.len() implies lex_lt(#[trigger] n1[a], #[trigger] n1[b]) by {
        if b == n1.len() - 1 {
            assert(n1[a] == n0[a]);
            assert(sp.completes(p, n0[a]));
            assert(n1[a].subrange(0, m) == p);
            lemma_lex_at(n1[a], q, m);
        } else {
            assert(lex_lt(n0[a], n0[b]));
        }
    }
    assert forall|r: Seq<usize>, k: int|
        #![trigger sp.completes(p, r), n1[k]]
        sp.completes(p, r) && 0 <= k < n1.len() && lex_lt(r, n1[k]) implies n1.contains(r) by {
        if k < n0.len() {
            assert(n0[k] == n1[k]);
            assert(n0.contains(r));
            let t = choose|t: int| 0 <= t < n0.len() && n0[t] == r;
            assert(n1[t] == r);
        } else {
            assert(r.subrange(0, m) == p);
            lemma_lex_le_at(r, q, m);
            if r[m] < e {
                assert(n0.contains(r));
                let t = choose|t: int| 0 <= t < n0.len() && n0[t] == r;
                assert(n1[t] == r);
            } else {
                sp.lemma_next_edge(p, r);
                lemma_lex_irreflexive(q);
            }
        }
    }
    assert forall|k: int| 0 <= k < n1.len() && j + 1 < out.len() implies (#[trigger] n1[k])[m] < out[j + 1] by {
        if k < n0.len() {
            assert(n1[k] == n0[k]);
        }
    }
    assert forall|r: Seq<usize>| #[trigger] sp.completes(p, r) && r[m] < e implies n1.contains(r) by {
        assert(n0.contains(r));
        let t = choose|t: int| 0 <= t < n0.len() && n0[t] == r;
        assert(n1[t] == r);
    }
    assert forall|r: Seq<usize>| #[trigger] sp.completes(p, r) && r[m] == e implies n1.contains(r) by {
        sp.lemma_next_edge(p, r);
        assert(n1[n1.len() - 1] == r);
    }
    lemma_covers_step(sp, p, out, j, n1);
    assert forall|i: int| !#[trigger] sp.missing_within(q, i, None) by {
        if sp.missing_within(q, i, None) {
            let w = choose|w: Seq<usize>|
                #![trigger sp.expandable(w), is_prefix(q, w)]
                sp.expandable(w) && is_prefix(q, w) && sp.lacks_pipeline(i) && sp.edges[i].source
                    == sp.stage_at(w, w.len() as int);
            sp.lemma_prefix_push(p, e, w);
            sp.lemma_expandable_next(p, w);
        }
    }
}

/// Appending the routes `ns` found after `q = p.push(out[j])` to the routes found before it
/// keeps the facts, one edge further.
proof fn lemma_merge(sp: RouteSpace, p: Seq<usize>, out: Seq<usize>, j: int, n0: Seq<Seq<usize>>, ns: Seq<Seq<usize>>)
    requires
        is_outgoing(sp.edges, sp.stage_at(p, p.len() as int), out),
        0 <= j < out.len(),
        found_before(sp, p, out, j, n0),
        covers(sp, p, n0, Some(out[j] as int)),
        all_complete(sp, p.push(out[j]), ns),
        lex_sorted(ns),
        closed_below(sp, p.push(out[j]), ns),
        sp.edges[out[j] as int].target != sp.target,
    ensures
        found_before(sp, p, out, j + 1, n0 + ns),
        covers(sp, p.push(out[j]), ns, None) ==> covers(sp, p, n0 + ns, bound_at(out, j + 1)),
{
    let m = p.len() as int;
    let e = out[j];
    let q = p.push(e);
    let n1 = n0 + ns;
    assert forall|k: int| 0 <= k < ns.len() implies (#[trigger] ns[k])[m] == e && ns[k].subrange(0, m) == p
        && sp.completes(p, ns[k]) by {
        assert(sp.completes(q, ns[k]));
        sp.lemma_prefix_push(p, e, ns[k]);
    }
    assert forall|k: int| 0 <= k < n1.len() implies sp.completes(p, #[trigger] n1[k]) by {
        if k >= n0.len() {
            assert(n1[k] == ns[k - n0.len()]);
        } else {
            assert(n1[k] == n0[k]);
        }
    }
    assert forall|a: int, b: int| 0 <= a < b < n1.len() implies lex_lt(#[trigger] n1[a], #[trigger] n1[b]) by {
        if b < n0.len() {
            assert(n1[a] == n0[a]);
            assert(n1[b] == n0[b]);
            assert(lex_lt(n0[a], n0[b]));
        } else if a >= n0.len() {
            assert(n1[a] == ns[a - n0.len()]);
            assert(n1[b] == ns[b - n0.len()]);
            assert(lex_lt(ns[a - n0.len()], ns[b - n0.len()]));
        } else {
            assert(n1[a] == n0[a]);
            assert(n1[b] == ns[b - n0.len()]);
            assert(sp.completes(p, n0[a]));
            assert(n1[a].subrange(0, m) == p);
            lemma_lex_at(n1[a], n1[b], m);
        }
    }
    assert forall|r: Seq<usize>| #[trigger] sp.completes(p, r) && r[m] == e implies sp.completes(q, r) by {
        sp.lemma_next_edge(p, r);
    }
    assert forall|r: Seq<usize>, k: int|
        #![trigger sp.completes(p, r), n1[k]]
        sp.completes(p, r) && 0 <= k < n1.len() && lex_lt(r, n1[k]) implies n1.contains(r) by {
        if k < n0.len() {
            assert(n0[k] == n1[k]);
            assert(n0.contains(r));
            let t = choose|t: int| 0 <= t < n0.len() && n0[t] == r;
            assert(n1[t] == r);
        } else {
            let k2 = k - n0.len();
            assert(n1[k] == ns[k2]);
            assert(r.subrange(0, m) == p);
            lemma_lex_le_at(r, ns[k2], m);
            if r[m] < e {
                assert(n0.contains(r));
                let t = choose|t: int| 0 <= t < n0.len() && n0[t] == r;
                assert(n1[t] == r);
            } else {
                assert(sp.completes(q, r));
                assert(ns.contains(r));
                let t = choose|t: int| 0 <= t < ns.len() && ns[t] == r;
                assert(n1[n0.len() + t] == r);
            }
        }
    }
    assert forall|k: int| 0 <= k < n1.len() && j + 1 < out.len() implies (#[trigger] n1[k])[m] < out[j + 1] by {
        if k < n0.len() {
            assert(n1[k] == n0[k]);
        } else {
            assert(n1[k] == ns[k - n0.len()]);
        }
    }
    if covers(sp, q, ns, None) {
        assert forall|r: Seq<usize>| #[trigger] sp.completes(p, r) && r[m] == e implies n1.contains(r) by {
            assert(sp.completes(q, r));
            assert(ns.contains(r));
            let t = choose|t: int| 0 <= t < ns.len() && ns[t] == r;
            assert(n1[n0.len() + t] == r);
        }
        assert forall|r: Seq<usize>| #[trigger] sp.completes(p, r) && r[m] < e implies n1.contains(r) by {
            assert(n0.contains(r));
            let t = choose|t: int| 0 <= t < n0.len() && n0[t] == r;
            assert(n1[t] == r);
        }
        lemma_covers_step(sp, p, out, j, n1);
    }
}

/// Edge `i` lacks its pipeline and leaves the end of the expanded walk `q` that extends `p`:
/// the search meets it there.
pub open spec fn missing_event(sp: RouteSpace, p: Seq<usize>, q: Seq<usize>, i: int) -> bool {
    &&& sp.expandable(q)
    &&& is_prefix(p, q)
    &&& sp.lacks_pipeline(i)
    &&& sp.edges[i].source == sp.stage_at(q, q.len() as int)
}

/// Edge `i`, met at the end of the walk `q`, is the first edge lacking its pipeline that the
/// depth-first search beyond `p` meets: no such edge is met at the end of a walk `q2` with
/// `q2` and the edge before `q` and `i` in lexicographic order, which is the order the search
/// meets them in.
pub open spec fn first_missing_at(sp: RouteSpace, p: Seq<usize>, q: Seq<usize>, i: int) -> bool {
    &&& missing_event(sp, p, q, i)
    &&& forall|q2: Seq<usize>, i2: int|
        #![trigger lex_lt(q2.push(i2 as usize), q.push(i as usize))]
        missing_event(sp, p, q2, i2) ==> !lex_lt(q2.push(i2 as usize), q.push(i as usize))
}

/// The search meets the walk-and-edge `s` before it stops: it never filled up on routes, or
/// `s` comes before the last route it found, at which it stopped.
pub open spec fn met_before_stop(s: Seq<usize>, n: Seq<Seq<usize>>, max_candidates: nat) -> bool {
    n.len() < max_candidates || (n.len() > 0 && lex_lt(s, n.last()))
}

/// Of two sequences that extend `p`, the one with the smaller element after `p` comes first.
proof fn lemma_lex_after(a: Seq<usize>, b: Seq<usize>, p: Seq<usize>)
    requires
        is_prefix(p, a),
        is_prefix(p, b),
        a.len() > p.len(),
        b.len() > p.len(),
        a[p.len() as int] < b[p.len() as int],
    ensures
        lex_lt(a, b),
{
    let m = p.len() as int;
    assert(a.subrange(0, m) == b.subrange(0, m));
}

/// Of two sequences that extend `p`, the one before the other in lexicographic order has an
/// element after `p` no greater, and not equal when the other ends right after `p`.
proof fn lemma_lex_after_prefix(a: Seq<usize>, b: Seq<usize>, p: Seq<usize>)
    requires
        is_prefix(p, a),
        is_prefix(p, b),
        a.len() > p.len(),
        b.len() > p.len(),
        lex_lt(a, b),
    ensures
        a[p.len() as int] <= b[p.len() as int],
        b.len() == p.len() + 1 ==> a[p.len() as int] != b[p.len() as int],
{
    let m = p.len() as int;
    let k = choose|k: int|
        #![trigger a.subrange(0, k), b.subrange(0, k)]
        0 <= k <= a.len() && k <= b.len() && a.subrange(0, k) == b.subrange(0, k) && ((k < a.len() && k
            < b.len() && a[k] < b[k]) || (k == a.len() && k < b.len()));
    if k < m {
        assert(a[k] == a.subrange(0, m)[k]);
        assert(b[k] == b.subrange(0, m)[k]);
    } else if k > m {
        assert(a[m] == a.subrange(0, k)[m]);
        assert(b[m] == b.subrange(0, k)[m]);
    }
}

/// The element after `p` of an edge met beyond `p` is the first edge after `p` on its way.
proof fn lemma_event_first_after(sp: RouteSpace, p: Seq<usize>, q: Seq<usize>, i: int)
    requires
        missing_event(sp, p, q, i),
        0 <= i,
        i <= usize::MAX,
    ensures
        is_prefix(p, q.push(i as usize)),
        q.push(i as usize).len() > p.len(),
        q.push(i as usize)[p.len() as int] as int == sp.first_after(p, q, i),
{
    let a = q.push(i as usize);
    assert(a.subrange(0, p.len() as int) =~= q.subrange(0, p.len() as int));
}

/// An edge lacking its pipeline at the end of `p` itself, with none met below it beyond
/// `p`, is the first met beyond `p`.
proof fn lemma_first_direct(sp: RouteSpace, p: Seq<usize>, e: usize)
    requires
        sp.edges.len() <= usize::MAX,
        missing_event(sp, p, p, e as int),
        forall|i: int| !#[trigger] sp.missing_within(p, i, Some(e as int)),
    ensures
        first_missing_at(sp, p, p, e as int),
{
    let m = p.len() as int;
    assert forall|q2: Seq<usize>, i2: int|
        #![trigger lex_lt(q2.push(i2 as usize), p.push(e))]
        missing_event(sp, p, q2, i2) implies !lex_lt(q2.push(i2 as usize), p.push(e)) by {
        if lex_lt(q2.push(i2 as usize), p.push(e)) {
            lemma_event_first_after(sp, p, q2, i2);
            assert(is_prefix(p, p.push(e))) by {
                assert(p.push(e).subrange(0, m) =~= p);
            }
            lemma_lex_after_prefix(q2.push(i2 as usize), p.push(e), p);
            assert(sp.missing_within(p, i2, Some(e as int)));
        }
    }
    assert(is_prefix(p, p)) by {
        assert(p.subrange(0, m) =~= p);
    }
    assert(sp.expandable(p));
}

/// The first edge lacking its pipeline met beyond `p.push(e)` is the first met beyond `p`
/// when none is met below `e` beyond `p` and `e` itself can be taken.
proof fn lemma_first_lift(sp: RouteSpace, p: Seq<usize>, e: usize, q: Seq<usize>, i: int)
    requires
        sp.edges.len() <= usize::MAX,
        first_missing_at(sp, p.push(e), q, i),
        forall|i2: int| !#[trigger] sp.missing_within(p, i2, Some(e as int)),
        !sp.lacks_pipeline(e as int),
    ensures
        first_missing_at(sp, p, q, i),
        is_prefix(p, q.push(i as usize)),
        q.push(i as usize).len() > p.len(),
        q.push(i as usize)[p.len() as int] == e,
{
    let m = p.len() as int;
    let pe = p.push(e);
    sp.lemma_prefix_push(p, e, q);
    assert(is_prefix(p, q));
    lemma_event_first_after(sp, p, q, i);
    assert forall|q2: Seq<usize>, i2: int|
        #![trigger lex_lt(q2.push(i2 as usize), q.push(i as usize))]
        missing_event(sp, p, q2, i2) implies !lex_lt(q2.push(i2 as usize), q.push(i as usize)) by {
        if lex_lt(q2.push(i2 as usize), q.push(i as usize)) {
            lemma_event_first_after(sp, p, q2, i2);
            lemma_lex_after_prefix(q2.push(i2 as usize), q.push(i as usize), p);
            let f = q2.push(i2 as usize)[m];
            if (f as int) < (e as int) {
                assert(sp.missing_within(p, i2, Some(e as int)));
            } else if q2.len() > m {
                assert(q2[m] == e);
                assert(is_prefix(pe, q2)) by {
                    assert(q2.subrange(0, m + 1) =~= q2.subrange(0, m).push(q2[m]));
                }
                assert(missing_event(sp, pe, q2, i2));
            } else {
                assert(i2 == e as int);
            }
        }
    }
}

/// An edge lacking its pipeline met beyond `p` whose element after `p` is not below `e`
/// does not come before a walk that extends `p.push(e)`, unless it is met beyond `p.push(e)`.
proof fn lemma_not_before(sp: RouteSpace, p: Seq<usize>, e: usize, q: Seq<usize>, i: int, r: Seq<usize>)
    requires
        sp.edges.len() <= usize::MAX,
        missing_event(sp, p, q, i),
        !sp.missing_within(p, i, Some(e as int)),
        !missing_event(sp, p.push(e), q, i),
        !sp.lacks_pipeline(e as int),
        is_prefix(p.push(e), r),
    ensures
        !lex_lt(q.push(i as usize), r),
{
    let m = p.len() as int;
    sp.lemma_prefix_push(p, e, r);
    lemma_event_first_after(sp, p, q, i);
    if lex_lt(q.push(i as usize), r) {
        lemma_lex_after_prefix(q.push(i as usize), r, p);
        let f = q.push(i as usize)[m];
        if (f as int) < (e as int) {
            assert(sp.missing_within(p, i, Some(e as int)));
        } else if q.len() > m {
            assert(q[m] == e);
            assert(is_prefix(p.push(e), q)) by {
                assert(q.subrange(0, m + 1) =~= q.subrange(0, m).push(q[m]));
            }
        } else {
            assert(i == e as int);
        }
    }
}

/// What the search knows after looking at the outgoing edges before `out[j]`: the routes
/// `n` found so far, and the edge remembered in `missing` (if `old_missing` was empty).
pub open spec fn search_state(
    sp: RouteSpace,
    p: Seq<usize>,
    out: Seq<usize>,
    j: int,
    n: Seq<Seq<usize>>,
    full: bool,
    missing: Option<(String, String)>,
    old_missing: Option<(String, String)>,
) -> bool {
    &&& found_before(sp, p, out, j, n)
    &&& !full ==> covers(sp, p, n, bound_at(out, j))
    &&& old_missing is Some ==> missing == old_missing
    &&& old_missing is None ==> match missing {
        Some(mm) => exists|q: Seq<usize>, i: int|
            {
                &&& #[trigger] first_missing_at(sp, p, q, i)
                &&& sp.edges[i].name == mm.0@
                &&& sp.edges[i].pipeline == mm.1@
                &&& full ==> n.len() > 0 && lex_lt(q.push(i as usize), n.last())
                &&& !full ==> (bound_at(out, j) matches Some(b) ==> sp.first_after(p, q, i) < b)
            },
        None => {
            &&& !full ==> forall|i: int| !#[trigger] sp.missing_within(p, i, bound_at(out, j))
            &&& full ==> forall|q: Seq<usize>, i: int|
                #[trigger] missing_event(sp, p, q, i) ==> n.len() > 0 && !lex_lt(q.push(i as usize), n.last())
        },
    }
}

/// Looks at the outgoing edge `out[j]` of the end of `path`: takes it if it can be taken and
/// leads to a stage not on `path`, recording the route if it reaches the target and
/// searching on from it otherwise.
#[verifier::rlimit(100)]
fn visit_edge(
    space: Ghost<RouteSpace>,
    registry: &ConversionRegistry,
    pipelines: &PipelineRegistry,
    usable: &[bool],
    source: &ConversionStage,
    current: &ConversionStage,
    target: &ConversionStage,
    config: &PlanningConfig,
    out: &Vec<usize>,
    j: usize,
    c0: Ghost<Seq<Seq<usize>>>,
    old_missing: Ghost<Option<(String, String)>>,
    depth: Ghost<int>,
    path: &mut Vec<usize>,
    candidates: &mut Vec<Vec<usize>>,
    missing: &mut Option<(String, String)>,
)
    requires
        depth@ == old(path)@.len(),
        space@ == space_of(registry@, usable@, pipelines@.dom(), source@, target@, config.max_depth),
        usable@.len() == registry@.len(),
        registry@.len() <= usize::MAX,
        is_outgoing(registry@, current@, out@),
        j < out@.len(),
        current@ == space@.stage_at(old(path)@, old(path)@.len() as int),
        old(path)@.len() < config.max_depth,
        space@.chain(old(path)@),
        space@.simple(old(path)@),
        forall|k: int| 0 <= k <= old(path)@.len() ==> #[trigger] space@.stage_at(old(path)@, k) != target@,
        old(candidates)@.len() < config.max_candidates,
        c0@.len() <= old(candidates)@.len(),
        cand_views(old(candidates)@).subrange(0, c0@.len() as int) == c0@,
        search_state(
            space@,
            old(path)@,
            out@,
            j as int,
            cand_views(old(candidates)@).subrange(c0@.len() as int, old(candidates)@.len() as int),
            false,
            *old(missing),
            old_missing@,
        ),
    ensures
        final(path)@ == old(path)@,
        final(candidates)@.len() <= config.max_candidates,
        c0@.len() <= final(candidates)@.len(),
        cand_views(final(candidates)@).subrange(0, c0@.len() as int) == c0@,
        search_state(
            space@,
            old(path)@,
            out@,
            j + 1,
            cand_views(final(candidates)@).subrange(c0@.len() as int, final(candidates)@.len() as int),
            final(candidates)@.len() >= config.max_candidates,
            *final(missing),
            old_missing@,
        ),
    decreases config.max_depth - depth@, 0int,
{
    let ghost sp = space@;
    let ghost p = path@;
    let ghost m = p.len() as int;
    let ghost c0 = c0@;
    let e = out[j];
    let ghost n0 = cand_views(candidates@).subrange(c0.len() as int, candidates@.len() as int);
    let ghost before_call = cand_views(candidates@);
    let ghost missing_before = *missing;
    proof {
        if j + 1 < out@.len() {
            assert(out@[j as int] < out@[j + 1]);
        }
    }
    let edge = match registry.edge(e) {
        Some(edge) => edge,
        None => {
            proof {
                assert(out@[j as int] < registry@.len());
            }
            return;
        },
    };
    proof {
        assert(before_call =~= c0 + n0);
        assert(bound_at(out@, j as int) == Some(e as int));
    }
    if !usable[e] || pipelines.get(edge.pipeline()).is_none() || on_path(
        space,
        registry,
        source,
        path,
        edge.target(),
    ) {
        if usable[e] && pipelines.get(edge.pipeline()).is_none() && missing.is_none() {
            *missing = Some((edge.name().to_string(), edge.pipeline().to_string()));
            proof {
                assert(sp.expandable(p));
                assert(is_prefix(p, p)) by {
                    assert(p.subrange(0, p.len() as int) =~= p);
                }
                assert(sp.lacks_pipeline(e as int));
                assert(sp.missing_within(p, e as int, None));
                assert(sp.edges[e as int].name == edge@.name);
                lemma_first_direct(sp, p, e);
            }
        }
        proof {
            lemma_blocked(sp, p, e);
            lemma_covers_step(sp, p, out@, j as int, n0);
            if *missing is None {
                lemma_missing_step(sp, p, out@, j as int);
            }
            assert forall|k: int| 0 <= k < n0.len() && j + 1 < out@.len() implies (#[trigger] n0[k])[m] < out@[j + 1] by {
                assert(n0[k][m] < out@[j as int]);
            }
            if old_missing@ is None && missing_before is None && *missing is Some {
                assert(first_missing_at(sp, p, p, e as int));
                assert(sp.first_after(p, p, e as int) == e as int);
            }
        }
    } else {
        proof {
            sp.lemma_extend(p, e);
        }
        path.push(e);
        let ghost q = path@;
        if edge.target().same(target) {
            let route = path.clone();
            candidates.push(route);
            proof {
                assert(cand_views(candidates@) =~= before_call.push(q));
                assert(cand_views(candidates@).subrange(0, c0.len() as int) =~= c0);
                assert(cand_views(candidates@).subrange(c0.len() as int, candidates@.len() as int) =~= n0.push(q));
                assert(sp.completes(p, q));
                lemma_push_route(sp, p, out@, j as int, n0);
                if *missing is None {
                    lemma_missing_step(sp, p, out@, j as int);
                }
                let n1 = n0.push(q);
                assert(n1.last() == q);
                assert(is_prefix(p.push(e), q)) by {
                    assert(q.subrange(0, m + 1) =~= q);
                }
                assert(!sp.lacks_pipeline(e as int));
                let missing_now = *missing;
                if old_missing@ is None {
                    match missing_now {
                        Some(mm) => {
                            let (w, i) = choose|w: Seq<usize>, i: int|
                                {
                                    &&& #[trigger] first_missing_at(sp, p, w, i)
                                    &&& sp.edges[i].name == mm.0@
                                    &&& sp.edges[i].pipeline == mm.1@
                                    &&& sp.first_after(p, w, i) < e as int
                                };
                            lemma_event_first_after(sp, p, w, i);
                            sp.lemma_prefix_push(p, e, q);
                            lemma_lex_after(w.push(i as usize), q, p);
                        },
                        None => {
                            assert forall|w: Seq<usize>, i: int|
                                #[trigger] missing_event(sp, p, w, i) implies n1.len() > 0 && !lex_lt(
                                w.push(i as usize),
                                n1.last(),
                            ) by {
                                if missing_event(sp, p.push(e), w, i) {
                                    assert(sp.missing_within(p.push(e), i, None));
                                }
                                lemma_not_before(sp, p, e, w, i, q);
                            }
                        },
                    }
                }
            }
        } else {
            let ghost missing_at_call = *missing;
            search(space, registry, pipelines, usable, source, edge.target(), target, config, Ghost(depth@ + 1), path, candidates, missing);
            proof {
                let all = cand_views(candidates@);
                let n1 = all.subrange(c0.len() as int, all.len() as int);
                let ns = all.subrange(before_call.len() as int, all.len() as int);
                assert(all.subrange(0, before_call.len() as int) == before_call);
                assert(all.subrange(0, c0.len() as int) =~= c0) by {
                    assert(all.subrange(0, c0.len() as int) =~= all.subrange(0, before_call.len() as int).subrange(0, c0.len() as int));
                }
                assert(n1 =~= n0 + ns) by {
                    assert forall|k: int| 0 <= k < n0.len() implies n1[k] == n0[k] by {
                        assert(all.subrange(0, before_call.len() as int)[c0.len() + k] == all[c0.len() + k]);
                    }
                }
                lemma_merge(sp, p, out@, j as int, n0, ns);
                if candidates@.len() < config.max_candidates && *missing is None {
                    lemma_missing_step(sp, p, out@, j as int);
                }
                let full = candidates@.len() >= config.max_candidates;
                assert(!sp.lacks_pipeline(e as int));
                assert forall|k: int| 0 <= k < ns.len() implies is_prefix(p.push(e), #[trigger] ns[k]) by {
                    assert(sp.completes(q, ns[k]));
                }
                if ns.len() > 0 {
                    assert(n1.last() == ns.last());
                    assert(is_prefix(p.push(e), ns.last()));
                    sp.lemma_prefix_push(p, e, ns.last());
                }
                if full {
                    assert(ns.len() > 0);
                }
                let missing_now = *missing;
                if old_missing@ is None {
                    if missing_at_call is None {
                        match missing_now {
                            Some(mm) => {
                                let (w, i) = choose|w: Seq<usize>, i: int|
                                    {
                                        &&& #[trigger] first_missing_at(sp, q, w, i)
                                        &&& sp.edges[i].name == mm.0@
                                        &&& sp.edges[i].pipeline == mm.1@
                                        &&& full ==> ns.len() > 0 && lex_lt(w.push(i as usize), ns.last())
                                    };
                                lemma_first_lift(sp, p, e, w, i);
                                lemma_event_first_after(sp, p, w, i);
                                assert(first_missing_at(sp, p, w, i));
                            },
                            None => {
                                if full {
                                    assert forall|w: Seq<usize>, i: int|
                                        #[trigger] missing_event(sp, p, w, i) implies n1.len() > 0 && !lex_lt(
                                        w.push(i as usize),
                                        n1.last(),
                                    ) by {
                                        if !missing_event(sp, q, w, i) {
                                            lemma_not_before(sp, p, e, w, i, ns.last());
                                        }
                                    }
                                }
                            },
                        }
                    } else {
                        let mm = missing_at_call->0;
                        let (w, i) = choose|w: Seq<usize>, i: int|
                            {
                                &&& #[trigger] first_missing_at(sp, p, w, i)
                                &&& sp.edges[i].name == mm.0@
                                &&& sp.edges[i].pipeline == mm.1@
                                &&& sp.first_after(p, w, i) < e as int
                            };
                        lemma_event_first_after(sp, p, w, i);
                        if full {
                            lemma_lex_after(w.push(i as usize), ns.last(), p);
                        }
                    }
                }
            }
        }
        path.pop();
        proof {
            assert(path@ =~= p);
        }
    }
}

/// Depth-first search for routes from the end of `path`, visiting outgoing edges in
/// registration order. New routes are appended to `candidates` in lexicographic order until
/// there are `max_candidates`; an edge that only lacks its pipeline is remembered in
/// `missing` if nothing is remembered yet.
fn search(
    space: Ghost<RouteSpace>,
    registry: &ConversionRegistry,
    pipelines: &PipelineRegistry,
    usable: &[bool],
    source: &ConversionStage,
    current: &ConversionStage,
    target: &ConversionStage,
    config: &PlanningConfig,
    depth: Ghost<int>,
    path: &mut Vec<usize>,
    candidates: &mut Vec<Vec<usize>>,
    missing: &mut Option<(String, String)>,
)
    requires
        depth@ == old(path)@.len(),
        space@ == space_of(registry@, usable@, pipelines@.dom(), source@, target@, config.max_depth),
        usable@.len() == registry@.len(),
        space@.chain(old(path)@),
        space@.simple(old(path)@),
        forall|k: int| 0 <= k <= old(path)@.len() ==> #[trigger] space@.stage_at(old(path)@, k) != target@,
        current@ == space@.stage_at(old(path)@, old(path)@.len() as int),
        old(candidates)@.len() <= config.max_candidates,
    ensures
        final(path)@ == old(path)@,
        final(candidates)@.len() <= config.max_candidates,
        old(candidates)@.len() <= final(candidates)@.len(),
        cand_views(final(candidates)@).subrange(0, old(candidates)@.len() as int) == cand_views(old(candidates)@),
        ({
            let n = cand_views(final(candidates)@).subrange(old(candidates)@.len() as int, final(candidates)@.len() as int);
            &&& all_complete(space@, old(path)@, n)
            &&& lex_sorted(n)
            &&& closed_below(space@, old(path)@, n)
            &&& final(candidates)@.len() < config.max_candidates ==> covers(space@, old(path)@, n, None)
        }),
        *old(missing) is Some ==> *final(missing) == *old(missing),
        ({
            let n = cand_views(final(candidates)@).subrange(old(candidates)@.len() as int, final(candidates)@.len() as int);
            let full = final(candidates)@.len() >= config.max_candidates;
            *old(missing) is None ==> match *final(missing) {
                Some(m) => exists|q: Seq<usize>, i: int|
                    {
                        &&& #[trigger] first_missing_at(space@, old(path)@, q, i)
                        &&& space@.edges[i].name == m.0@
                        &&& space@.edges[i].pipeline == m.1@
                        &&& full ==> n.len() > 0 && lex_lt(q.push(i as usize), n.last())
                    },
                None => {
                    &&& !full ==> forall|i: int| !#[trigger] space@.missing_within(old(path)@, i, None)
                    &&& full ==> forall|q: Seq<usize>, i: int|
                        #[trigger] missing_event(space@, old(path)@, q, i) ==> n.len() == 0 || !lex_lt(
                            q.push(i as usize),
                            n.last(),
                        )
                },
            }
        }),
    decreases config.max_depth - depth@, 1int,
{
    let ghost sp = space@;
    let ghost p = path@;
    let ghost c0 = cand_views(candidates@);
    let ghost old_missing = *missing;
    if candidates.len() >= config.max_candidates || path.len() >= config.max_depth {
        proof {
            assert(cand_views(candidates@).subrange(0, c0.len() as int) =~= c0);
            let n = cand_views(candidates@).subrange(c0.len() as int, c0.len() as int);
            assert(n =~= Seq::<Seq<usize>>::empty());
            if path.len() >= config.max_depth {
                assert forall|i: int| !#[trigger] sp.missing_within(p, i, None) by {
                    if sp.missing_within(p, i, None) {
                        let q = choose|q: Seq<usize>|
                            #![trigger sp.expandable(q), is_prefix(p, q)]
                            sp.expandable(q) && is_prefix(p, q) && sp.lacks_pipeline(i) && sp.edges[i].source
                                == sp.stage_at(q, q.len() as int);
                    }
                }
            }
        }
        return;
    }
    let out = registry.outgoing_indices(current);
    let total = registry.len();
    proof {
        lemma_start(sp, p, out@);
        assert(cand_views(candidates@).subrange(c0.len() as int, candidates@.len() as int) =~= Seq::<Seq<usize>>::empty());
        assert(cand_views(candidates@).subrange(0, c0.len() as int) =~= c0);
    }
    let mut j: usize = 0;
    while j < out.len()
        invariant
            0 <= j <= out@.len(),
            sp == space@,
            sp == space_of(registry@, usable@, pipelines@.dom(), source@, target@, config.max_depth),
            usable@.len() == registry@.len(),
            total == registry@.len(),
            depth@ == p.len(),
            p == old(path)@,
            c0 == cand_views(old(candidates)@),
            old_missing == *old(missing),
            is_outgoing(registry@, current@, out@),
            current@ == sp.stage_at(p, p.len() as int),
            p.len() < config.max_depth,
            path@ == p,
            sp.chain(p),
            sp.simple(p),
            forall|k: int| 0 <= k <= p.len() ==> #[trigger] sp.stage_at(p, k) != target@,
            candidates@.len() < config.max_candidates,
            c0.len() <= candidates@.len(),
            cand_views(candidates@).subrange(0, c0.len() as int) == c0,
            search_state(
                sp,
                p,
                out@,
                j as int,
                cand_views(candidates@).subrange(c0.len() as int, candidates@.len() as int),
                false,
                *missing,
                old_missing,
            ),
        decreases out@.len() - j,
    {
        visit_edge(
            space,
            registry,
            pipelines,
            usable,
            source,
            current,
            target,
            config,
            &out,
            j,
            Ghost(c0),
            Ghost(old_missing),
            depth,
            path,
            candidates,
            missing,
        );
        if candidates.len() >= config.max_candidates {
            return;
        }
        j = j + 1;
    }
}

/// The result of a route search: the routes found, in lexicographic order of their edge
/// positions, and an edge that was left out only because its pipeline is not registered.
#[derive(Debug)]
pub struct RouteSearch {
    pub candidates: Vec<Vec<usize>>,
    pub missing_pipeline: Option<(String, String)>,
}

/// Searches the routes from `source` to `target` through the registered edges, depth first
/// and in registration order. `usable[i]` says whether edge `i` can be taken for the module
/// and request at hand. Routes are simple (no stage twice), take at most `max_depth` edges,
/// and at most `max_candidates` of them are kept: the first ones in lexicographic order of
/// their edge positions. An edge that lacks its pipeline is reported exactly when the search
/// meets one before it stops, and then it is the first such edge the search meets.
pub fn enumerate_routes(
    registry: &ConversionRegistry,
    pipelines: &PipelineRegistry,
    usable: &[bool],
    source: &ConversionStage,
    target: &ConversionStage,
    config: &PlanningConfig,
) -> (r: RouteSearch)
    requires
        usable@.len() == registry@.len(),
    ensures
        ({
            let sp = space_of(registry@, usable@, pipelines@.dom(), source@, target@, config.max_depth);
            let n = cand_views(r.candidates@);
            &&& n.len() <= config.max_candidates
            &&& lex_sorted(n)
            &&& forall|k: int| 0 <= k < n.len() ==> sp.route(#[trigger] n[k])
            &&& forall|q: Seq<usize>, k: int|
                #![trigger sp.route(q), n[k]]
                sp.route(q) && 0 <= k < n.len() && lex_lt(q, n[k]) ==> n.contains(q)
            &&& n.len() < config.max_candidates ==> forall|q: Seq<usize>| #[trigger] sp.route(q) ==> n.contains(q)
            &&& match r.missing_pipeline {
                Some(m) => exists|q: Seq<usize>, i: int|
                    {
                        &&& #[trigger] first_missing_at(sp, Seq::empty(), q, i)
                        &&& met_before_stop(q.push(i as usize), n, config.max_candidates as nat)
                        &&& sp.edges[i].name == m.0@
                        &&& sp.edges[i].pipeline == m.1@
                    },
                None => forall|q: Seq<usize>, i: int|
                    #[trigger] missing_event(sp, Seq::empty(), q, i) ==> !met_before_stop(
                        q.push(i as usize),
                        n,
                        config.max_candidates as nat,
                    ),
            }
        }),
{
    let ghost sp = space_of(registry@, usable@, pipelines@.dom(), source@, target@, config.max_depth);
    let mut candidates: Vec<Vec<usize>> = Vec::new();
    let mut missing: Option<(String, String)> = None;
    let mut path: Vec<usize> = Vec::new();
    proof {
        assert forall|q: Seq<usize>| #[trigger] sp.route(q) implies sp.completes(Seq::empty(), q) by {
            assert(q.subrange(0, 0) =~= Seq::<usize>::empty());
        }
    }
    if source.same(target) {
        proof {
            assert forall|q: Seq<usize>| !#[trigger] sp.route(q) by {
                if sp.route(q) {
                    assert(sp.stage_at(q, 0) == sp.stage_at(q, q.len() as int));
                }
            }
            assert forall|i: int| !#[trigger] sp.missing_within(Seq::empty(), i, None) by {
                if sp.missing_within(Seq::empty(), i, None) {
                    let q = choose|q: Seq<usize>|
                        #![trigger sp.expandable(q), is_prefix(Seq::<usize>::empty(), q)]
                        sp.expandable(q) && is_prefix(Seq::empty(), q) && sp.lacks_pipeline(i)
                            && sp.edges[i].source == sp.stage_at(q, q.len() as int);
                    assert(sp.stage_at(q, 0) != sp.target);
                }
            }
            assert forall|q: Seq<usize>, i: int|
                #[trigger] missing_event(sp, Seq::empty(), q, i) implies !met_before_stop(
                q.push(i as usize),
                cand_views(candidates@),
                config.max_candidates as nat,
            ) by {
                assert(sp.missing_within(Seq::empty(), i, None));
            }
        }
        return RouteSearch { candidates, missing_pipeline: missing };
    }
    proof {
        assert(cand_views(candidates@) =~= Seq::<Seq<usize>>::empty());
    }
    search(
        Ghost(sp),
        registry,
        pipelines,
        usable,
        source,
        source,
        target,
        config,
        Ghost(0),
        &mut path,
        &mut candidates,
        &mut missing,
    );
    proof {
        let n = cand_views(candidates@);
        assert(n.subrange(0, n.len() as int) =~= n);
        assert forall|k: int| 0 <= k < n.len() implies sp.route(#[trigger] n[k]) by {
            assert(sp.completes(Seq::empty(), n[k]));
        }
        if missing is None {
            assert forall|q: Seq<usize>, i: int|
                #[trigger] missing_event(sp, Seq::empty(), q, i) implies !met_before_stop(
                q.push(i as usize),
                n,
                config.max_candidates as nat,
            ) by {
                if n.len() < config.max_candidates {
                    assert(sp.missing_within(Seq::empty(), i, None));
                }
            }
        }
    }
    RouteSearch { candidates, missing_pipeline: missing }
}

} // verus!
