use vstd::prelude::*;

use super::edge::EdgeView;

verus! {

/// `a` comes before `b` in lexicographic order of edge positions.
pub open spec fn lex_lt(a: Seq<usize>, b: Seq<usize>) -> bool {
    exists|k: int|
        #![trigger a.subrange(0, k), b.subrange(0, k)]
        0 <= k <= a.len() && k <= b.len() && a.subrange(0, k) == b.subrange(0, k) && ((k < a.len() && k
            < b.len() && a[k] < b[k]) || (k == a.len() && k < b.len()))
}

/// Each element of `s` comes before the next ones.
pub open spec fn lex_sorted(s: Seq<Seq<usize>>) -> bool {
    forall|i: int, j: int| 0 <= i < j < s.len() ==> lex_lt(#[trigger] s[i], #[trigger] s[j])
}

/// `p` is a prefix of `r`.
pub open spec fn is_prefix(p: Seq<usize>, r: Seq<usize>) -> bool {
    p.len() <= r.len() && r.subrange(0, p.len() as int) == p
}

/// The edges a route search may use, the stages it goes between, and its depth limit.
/// `usable[i]` says whether edge `i` can be taken at all (its target requirements are met and
/// it applies to the module); `pipelines` are the names of the registered pipelines.
pub struct RouteSpace {
    pub edges: Seq<EdgeView>,
    pub usable: Seq<bool>,
    pub pipelines: Set<Seq<char>>,
    pub source: Seq<char>,
    pub target: Seq<char>,
    pub max_depth: nat,
}

impl RouteSpace {
    /// Edge `i` can be taken: it is usable and its pipeline is registered.
    pub open spec fn takes(self, i: int) -> bool {
        0 <= i < self.edges.len() && i < self.usable.len() && self.usable[i]
            && self.pipelines.contains(self.edges[i].pipeline)
    }

    /// Edge `i` would be taken but for its pipeline, which is not registered.
    pub open spec fn lacks_pipeline(self, i: int) -> bool {
        0 <= i < self.edges.len() && i < self.usable.len() && self.usable[i]
            && !self.pipelines.contains(self.edges[i].pipeline)
    }

    /// The stage reached after the first `k` edges of `p`.
    pub open spec fn stage_at(self, p: Seq<usize>, k: int) -> Seq<char> {
        if k == 0 {
            self.source
        } else {
            self.edges[p[k - 1] as int].target
        }
    }

    /// `p` is a walk of edges that can be taken, starting at the source.
    pub open spec fn chain(self, p: Seq<usize>) -> bool {
        forall|k: int|
            0 <= k < p.len() ==> self.takes(#[trigger] p[k] as int) && self.edges[p[k] as int].source
                == self.stage_at(p, k)
    }

    /// No stage is visited twice along `p`.
    pub open spec fn simple(self, p: Seq<usize>) -> bool {
        forall|a: int, b: int|
            0 <= a < b <= p.len() ==> #[trigger] self.stage_at(p, a) != #[trigger] self.stage_at(p, b)
    }

    /// `p` is a route: a simple walk of at least one and at most `max_depth` edges from the
    /// source to the target.
    pub open spec fn route(self, p: Seq<usize>) -> bool {
        &&& 1 <= p.len() <= self.max_depth
        &&& self.chain(p)
        &&& self.simple(p)
        &&& self.stage_at(p, p.len() as int) == self.target
    }

    /// `r` is a route that strictly extends `p`.
    pub open spec fn completes(self, p: Seq<usize>, r: Seq<usize>) -> bool {
        self.route(r) && is_prefix(p, r) && r.len() > p.len()
    }

    /// `q` is a walk the search expands: simple, shorter than the depth limit, and not
    /// passing through the target.
    pub open spec fn expandable(self, q: Seq<usize>) -> bool {
        &&& q.len() < self.max_depth
        &&& self.chain(q)
        &&& self.simple(q)
        &&& forall|k: int| 0 <= k <= q.len() ==> #[trigger] self.stage_at(q, k) != self.target
    }

    /// The first edge after `p` on the way to edge `i` through `q`: the element of `q` after
    /// `p`, or `i` itself when `q` is `p`.
    pub open spec fn first_after(self, p: Seq<usize>, q: Seq<usize>, i: int) -> int {
        if q.len() > p.len() {
            q[p.len() as int] as int
        } else {
            i
        }
    }

    /// Edge `i` leaves the end of an expanded walk `q` that extends `p` (or is `p`), only its
    /// missing pipeline keeps it from being taken, and the first edge after `p` on the way is
    /// below `bound`, if there is one.
    pub open spec fn missing_within(self, p: Seq<usize>, i: int, bound: Option<int>) -> bool {
        exists|q: Seq<usize>|
            #![trigger self.expandable(q), is_prefix(p, q)]
            self.expandable(q) && is_prefix(p, q) && self.lacks_pipeline(i) && self.edges[i].source
                == self.stage_at(q, q.len() as int) && (bound matches Some(b) ==> self.first_after(p, q, i) < b)
    }
}

pub proof fn lemma_lex_irreflexive(a: Seq<usize>)
    ensures
        !lex_lt(a, a),
{
}

/// Two sequences that agree before `m` and differ first at `m` are ordered by their elements
/// at `m`.
pub proof fn lemma_lex_at(a: Seq<usize>, b: Seq<usize>, m: int)
    requires
        0 <= m < a.len(),
        m < b.len(),
        a.subrange(0, m) == b.subrange(0, m),
        a[m] < b[m],
    ensures
        lex_lt(a, b),
{
    assert(a.subrange(0, m) == b.subrange(0, m));
}

/// If `a` comes before `b` and both agree before `m`, then `a[m] <= b[m]`.
pub proof fn lemma_lex_le_at(a: Seq<usize>, b: Seq<usize>, m: int)
    requires
        0 <= m < a.len(),
        m < b.len(),
        a.subrange(0, m) == b.subrange(0, m),
        lex_lt(a, b),
    ensures
        a[m] <= b[m],
{
    let k = choose|k: int|
        #![trigger a.subrange(0, k), b.subrange(0, k)]
        0 <= k <= a.len() && k <= b.len() && a.subrange(0, k) == b.subrange(0, k) && ((k < a.len() && k
            < b.len() && a[k] < b[k]) || (k == a.len() && k < b.len()));
    if k < m {
        assert(a.subrange(0, m)[k] == a[k]);
        assert(b.subrange(0, m)[k] == b[k]);
    } else if k > m {
        assert(a.subrange(0, k)[m] == a[m]);
        assert(b.subrange(0, k)[m] == b[m]);
    }
}

impl RouteSpace {
    /// The stages of a walk are the stages of its prefix, up to the prefix's length.
    pub proof fn lemma_stage_prefix(self, p: Seq<usize>, r: Seq<usize>, k: int)
        requires
            is_prefix(p, r),
            0 <= k <= p.len(),
        ensures
            self.stage_at(p, k) == self.stage_at(r, k),
    {
        if k > 0 {
            assert(r.subrange(0, p.len() as int)[k - 1] == r[k - 1]);
        }
    }

    /// Appending an edge that leaves the end of a simple walk and goes to a stage not on it
    /// gives a simple walk.
    pub proof fn lemma_extend(self, p: Seq<usize>, e: usize)
        requires
            self.chain(p),
            self.simple(p),
            self.takes(e as int),
            self.edges[e as int].source == self.stage_at(p, p.len() as int),
            forall|k: int| 0 <= k <= p.len() ==> #[trigger] self.stage_at(p, k) != self.edges[e as int].target,
        ensures
            self.chain(p.push(e)),
            self.simple(p.push(e)),
            is_prefix(p, p.push(e)),
            self.stage_at(p.push(e), p.len() as int + 1) == self.edges[e as int].target,
            forall|k: int| 0 <= k <= p.len() ==> #[trigger] self.stage_at(p.push(e), k) == self.stage_at(p, k),
    {
        let q = p.push(e);
        assert(q.subrange(0, p.len() as int) =~= p);
        assert forall|k: int| 0 <= k <= p.len() implies #[trigger] self.stage_at(q, k) == self.stage_at(p, k) by {
            self.lemma_stage_prefix(p, q, k);
        }
        assert forall|k: int| 0 <= k < q.len() implies self.takes(#[trigger] q[k] as int) && self.edges[q[k] as int].source
            == self.stage_at(q, k) by {
            if k < p.len() {
                assert(q[k] == p[k]);
                assert(self.stage_at(q, k) == self.stage_at(p, k));
            }
        }
        assert forall|a: int, b: int| 0 <= a < b <= q.len() implies #[trigger] self.stage_at(q, a) != #[trigger] self.stage_at(q, b) by {
            assert(self.stage_at(q, a) == self.stage_at(p, a));
            if b <= p.len() {
                assert(self.stage_at(q, b) == self.stage_at(p, b));
            }
        }
    }

    /// A route that strictly extends a walk `p` takes next an edge leaving the end of `p` that
    /// can be taken and goes to a stage not on `p`; it extends `p` with that edge.
    pub proof fn lemma_next_edge(self, p: Seq<usize>, r: Seq<usize>)
        requires
            self.completes(p, r),
        ensures
            self.takes(r[p.len() as int] as int),
            self.edges[r[p.len() as int] as int].source == self.stage_at(p, p.len() as int),
            forall|k: int| 0 <= k <= p.len() ==> #[trigger] self.stage_at(p, k) != self.edges[r[p.len() as int] as int].target,
            is_prefix(p.push(r[p.len() as int]), r),
            self.edges[r[p.len() as int] as int].target == self.target ==> r == p.push(r[p.len() as int]),
    {
        let m = p.len() as int;
        let e = r[m];
        self.lemma_stage_prefix(p, r, m);
        assert(self.takes(r[m] as int));
        assert forall|k: int| 0 <= k <= p.len() implies #[trigger] self.stage_at(p, k) != self.edges[e as int].target by {
            self.lemma_stage_prefix(p, r, k);
            assert(self.stage_at(r, m + 1) == self.edges[e as int].target);
            assert(self.stage_at(r, k) != self.stage_at(r, m + 1));
        }
        assert(r.subrange(0, m + 1) =~= p.push(e)) by {
            assert forall|k: int| 0 <= k < m implies r.subrange(0, m + 1)[k] == p.push(e)[k] by {
                assert(r.subrange(0, m)[k] == r[k]);
            }
        }
        if self.edges[e as int].target == self.target && r.len() > m + 1 {
            assert(self.stage_at(r, m + 1) == self.target);
            assert(self.stage_at(r, m + 1) != self.stage_at(r, r.len() as int));
        }
        if r.len() == m + 1 {
            assert(r =~= p.push(e));
        }
    }

    /// A walk extending `p.push(e)` extends `p`, and its element after `p` is `e`.
    pub proof fn lemma_prefix_push(self, p: Seq<usize>, e: usize, r: Seq<usize>)
        requires
            is_prefix(p.push(e), r),
        ensures
            is_prefix(p, r),
            r.len() > p.len(),
            r[p.len() as int] == e,
            r.subrange(0, p.len() as int) == p,
    {
        let m = p.len() as int;
        assert(r.subrange(0, m + 1)[m] == r[m]);
        assert(r.subrange(0, m) =~= p) by {
            assert forall|k: int| 0 <= k < m implies r.subrange(0, m)[k] == p[k] by {
                assert(r.subrange(0, m + 1)[k] == r[k]);
                assert(p.push(e)[k] == p[k]);
            }
        }
    }

    /// An expanded walk that strictly extends `p` takes next an edge leaving the end of `p`
    /// that can be taken, goes to a stage that is neither on `p` nor the target, and extends
    /// `p` with that edge.
    pub proof fn lemma_expandable_next(self, p: Seq<usize>, q: Seq<usize>)
        requires
            self.expandable(q),
            is_prefix(p, q),
            q.len() > p.len(),
        ensures
            self.takes(q[p.len() as int] as int),
            self.edges[q[p.len() as int] as int].source == self.stage_at(p, p.len() as int),
            forall|k: int| 0 <= k <= p.len() ==> #[trigger] self.stage_at(p, k) != self.edges[q[p.len() as int] as int].target,
            self.edges[q[p.len() as int] as int].target != self.target,
            is_prefix(p.push(q[p.len() as int]), q),
    {
        let m = p.len() as int;
        let e = q[m];
        self.lemma_stage_prefix(p, q, m);
        assert(self.takes(q[m] as int));
        assert(self.stage_at(q, m + 1) == self.edges[e as int].target);
        assert forall|k: int| 0 <= k <= p.len() implies #[trigger] self.stage_at(p, k) != self.edges[e as int].target by {
            self.lemma_stage_prefix(p, q, k);
            assert(self.stage_at(q, k) != self.stage_at(q, m + 1));
        }
        assert(q.subrange(0, m + 1) =~= p.push(e)) by {
            assert forall|k: int| 0 <= k < m implies q.subrange(0, m + 1)[k] == p.push(e)[k] by {
                assert(q.subrange(0, m)[k] == q[k]);
            }
        }
    }
}

} // verus!
