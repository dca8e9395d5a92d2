use vstd::prelude::*;

verus! {

/// Every successor index names a node of the graph.
pub open spec fn graph_wf(succ: Seq<Seq<usize>>) -> bool {
    forall|a: int, k: int|
        0 <= a < succ.len() && 0 <= k < succ[a].len() ==> (#[trigger] succ[a][k] as int)
            < succ.len()
}

/// The `i`-th step of `p` follows an edge of the graph.
pub open spec fn path_step(succ: Seq<Seq<usize>>, p: Seq<usize>, i: int) -> bool {
    succ[p[i] as int].contains(p[i + 1])
}

/// `p` is a non-empty walk through the graph.
pub open spec fn is_path(succ: Seq<Seq<usize>>, p: Seq<usize>) -> bool {
    &&& p.len() > 0
    &&& forall|i: int| 0 <= i < p.len() ==> (#[trigger] p[i] as int) < succ.len()
    &&& forall|i: int| 0 <= i < p.len() - 1 ==> #[trigger] path_step(succ, p, i)
}

/// The walk `p` does not pass through `avoid`.
pub open spec fn avoids(p: Seq<usize>, avoid: Option<usize>) -> bool {
    match avoid {
        Some(x) => !p.contains(x),
        None => true,
    }
}

/// `p` is a walk from `from` to `to` that never passes through `avoid`.
pub open spec fn is_walk(
    succ: Seq<Seq<usize>>,
    p: Seq<usize>,
    from: usize,
    to: usize,
    avoid: Option<usize>,
) -> bool {
    &&& is_path(succ, p)
    &&& p[0] == from
    &&& p.last() == to
    &&& avoids(p, avoid)
}

/// Some walk leads from `from` to `to` without passing through `avoid`.
pub open spec fn reaches(succ: Seq<Seq<usize>>, from: usize, to: usize, avoid: Option<usize>) -> bool {
    exists|p: Seq<usize>| #[trigger] is_walk(succ, p, from, to, avoid)
}

/// `d` lies on every walk from `entry` to `b`.
pub open spec fn on_every_walk(succ: Seq<Seq<usize>>, entry: usize, d: usize, b: usize) -> bool {
    forall|p: Seq<usize>| #[trigger] is_walk(succ, p, entry, b, None) ==> p.contains(d)
}

/// Number of `true` entries.
pub open spec fn count_true(s: Seq<bool>) -> nat
    decreases s.len(),
{
    if s.len() == 0 {
        0
    } else {
        count_true(s.drop_last()) + if s.last() {
            1nat
        } else {
            0nat
        }
    }
}

proof fn lemma_count_true_bound(s: Seq<bool>)
    ensures
        count_true(s) <= s.len(),
    decreases s.len(),
{
    if s.len() > 0 {
        lemma_count_true_bound(s.drop_last());
    }
}

proof fn lemma_count_true_set(s: Seq<bool>, i: int)
    requires
        0 <= i < s.len(),
        !s[i],
    ensures
        count_true(s.update(i, true)) == count_true(s) + 1,
    decreases s.len(),
{
    let t = s.update(i, true);
    if i == s.len() - 1 {
        assert(t.drop_last() =~= s.drop_last());
    } else {
        assert(t.drop_last() =~= s.drop_last().update(i, true));
        lemma_count_true_set(s.drop_last(), i);
    }
}

/// A walk extended by one edge is a walk.
pub proof fn lemma_walk_push(
    succ: Seq<Seq<usize>>,
    p: Seq<usize>,
    from: usize,
    to: usize,
    next: usize,
    avoid: Option<usize>,
)
    requires
        is_walk(succ, p, from, to, avoid),
        succ[to as int].contains(next),
        (next as int) < succ.len(),
        avoid != Some(next),
    ensures
        is_walk(succ, p.push(next), from, next, avoid),
{
    let q = p.push(next);
    assert forall|i: int| 0 <= i < q.len() implies (#[trigger] q[i] as int) < succ.len() by {
        if i < p.len() {
            assert(q[i] == p[i]);
        }
    }
    assert forall|i: int| 0 <= i < q.len() - 1 implies #[trigger] path_step(succ, q, i) by {
        if i < p.len() - 1 {
            assert(path_step(succ, p, i));
        }
    }
    match avoid {
        Some(x) => {
            assert forall|i: int| 0 <= i < q.len() implies q[i] != x by {
                if i < p.len() {
                    assert(q[i] == p[i]);
                }
            }
        },
        None => {},
    }
}

/// The single-node walk.
pub proof fn lemma_walk_single(succ: Seq<Seq<usize>>, x: usize, avoid: Option<usize>)
    requires
        (x as int) < succ.len(),
        avoid != Some(x),
    ensures
        is_walk(succ, seq![x], x, x, avoid),
{
    let p = seq![x];
    match avoid {
        Some(y) => {
            assert(!p.contains(y)) by {
                if p.contains(y) {
                    let k = choose|k: int| 0 <= k < p.len() && p[k] == y;
                }
            }
        },
        None => {},
    }
}

/// A set of nodes that holds `from` and is closed under the edges that avoid `avoid`
/// holds every node that such a walk reaches.
proof fn lemma_closed_holds_walks(
    succ: Seq<Seq<usize>>,
    seen: Seq<bool>,
    p: Seq<usize>,
    from: usize,
    to: usize,
    avoid: Option<usize>,
    i: int,
)
    requires
        seen.len() == succ.len(),
        is_walk(succ, p, from, to, avoid),
        seen[from as int],
        forall|b: int, k: int|
            0 <= b < seen.len() && seen[b] && 0 <= k < succ[b].len() ==> seen[
                #[trigger] succ[b][k] as int] || avoid == Some(succ[b][k]),
        0 <= i < p.len(),
    ensures
        seen[p[i] as int],
    decreases i,
{
    if i > 0 {
        lemma_closed_holds_walks(succ, seen, p, from, to, avoid, i - 1);
        assert(path_step(succ, p, i - 1));
        let b = p[i - 1] as int;
        let k = choose|k: int| 0 <= k < succ[b].len() && succ[b][k] == p[i];
        assert(p.contains(p[i]));
    }
}

/// The nodes that some walk from `from` reaches without passing through `avoid`.
pub fn reachable_nodes(succ: &Vec<Vec<usize>>, from: usize, avoid: Option<usize>) -> (seen: Vec<
    bool,
>)
    requires
        graph_wf(succ@.map_values(|v: Vec<usize>| v@)),
        (from as int) < succ@.len(),
    ensures
        seen@.len() == succ@.len(),
        forall|b: int|
            0 <= b < seen@.len() ==> (#[trigger] seen@[b] <==> reaches(
                succ@.map_values(|v: Vec<usize>| v@),
                from,
                b as usize,
                avoid,
            )),
{
    let ghost g = succ@.map_values(|v: Vec<usize>| v@);
    let n = succ.len();
    let mut seen: Vec<bool> = Vec::new();
    for i in 0..n
        invariant
            seen@.len() == i,
            forall|b: int| 0 <= b < i ==> !seen@[b],
    {
        seen.push(false);
    }
    let mut stack: Vec<usize> = Vec::new();
    let starts = match avoid {
        Some(x) => x != from,
        None => true,
    };
    if starts {
        seen.set(from, true);
        stack.push(from);
        proof {
            lemma_walk_single(g, from, avoid);
        }
    }
    proof {
        lemma_count_true_bound(seen@);
    }
    while stack.len() > 0
        invariant
            g == succ@.map_values(|v: Vec<usize>| v@),
            graph_wf(g),
            n == succ@.len(),
            seen@.len() == n,
            (from as int) < n,
            starts == (avoid != Some(from)),
            starts ==> seen@[from as int],
            forall|k: int| 0 <= k < stack@.len() ==> (#[trigger] stack@[k] as int) < n && seen@[stack@[k] as int],
            forall|b: int| 0 <= b < n && #[trigger] seen@[b] ==> reaches(g, from, b as usize, avoid),
            forall|b: int, k: int|
                0 <= b < n && seen@[b] && !stack@.contains(b as usize) && 0 <= k < g[b].len()
                    ==> seen@[#[trigger] g[b][k] as int] || avoid == Some(g[b][k]),
            count_true(seen@) <= n,
        decreases n - count_true(seen@), stack@.len(),
    {
        let ghost old_stack = stack@;
        let x = stack.pop().unwrap();
        proof {
            assert(old_stack == stack@.push(x));
            assert forall|b: usize| !stack@.contains(b) && b != x implies !old_stack.contains(b) by {
                if old_stack.contains(b) {
                    let k = choose|k: int| 0 <= k < old_stack.len() && old_stack[k] == b;
                    assert(stack@[k] == b);
                }
            }
        }
        let ghost before = count_true(seen@);
        let ghost popped_len = stack@.len();
        let row = &succ[x];
        let m = row.len();
        for j in 0..m
            invariant
                g == succ@.map_values(|v: Vec<usize>| v@),
                graph_wf(g),
                n == succ@.len(),
                seen@.len() == n,
                (x as int) < n,
                seen@[x as int],
                row@ == g[x as int],
                m == row@.len(),
                (from as int) < n,
                starts ==> seen@[from as int],
                forall|k: int| 0 <= k < stack@.len() ==> (#[trigger] stack@[k] as int) < n && seen@[stack@[k] as int],
                forall|b: int| 0 <= b < n && #[trigger] seen@[b] ==> reaches(g, from, b as usize, avoid),
                forall|b: int, k: int|
                    0 <= b < n && seen@[b] && !stack@.contains(b as usize) && b != x && 0 <= k < g[b].len()
                        ==> seen@[#[trigger] g[b][k] as int] || avoid == Some(g[b][k]),
                forall|k: int| 0 <= k < j ==> seen@[#[trigger] g[x as int][k] as int] || avoid == Some(g[x as int][k]),
                count_true(seen@) <= n,
                count_true(seen@) >= before,
                stack@.len() == popped_len + (count_true(seen@) - before),
        {
            let s = row[j];
            proof {
                assert(g[x as int][j as int] == s);
            }
            let blocked = match avoid {
                Some(y) => y == s,
                None => false,
            };
            if !blocked && !seen[s] {
                proof {
                    let p = choose|p: Seq<usize>| #[trigger] is_walk(g, p, from, x, avoid);
                    assert(g[x as int].contains(s)) by {
                        assert(g[x as int][j as int] == s);
                    }
                    lemma_walk_push(g, p, from, x, s, avoid);
                    lemma_count_true_set(seen@, s as int);
                    lemma_count_true_bound(seen@.update(s as int, true));
                }
                let ghost prev_stack = stack@;
                let ghost prev_seen = seen@;
                seen.set(s, true);
                stack.push(s);
                proof {
                    assert forall|b: usize| !stack@.contains(b) implies !prev_stack.contains(b) by {
                        if prev_stack.contains(b) {
                            let k = choose|k: int| 0 <= k < prev_stack.len() && prev_stack[k] == b;
                            assert(stack@[k] == b);
                        }
                    }
                    assert forall|b: int, k: int|
                        0 <= b < n && seen@[b] && !stack@.contains(b as usize) && b != x && 0 <= k
                            < g[b].len() implies seen@[#[trigger] g[b][k] as int] || avoid == Some(
                        g[b][k],
                    ) by {
                        if b == s as int {
                            assert(stack@[stack@.len() - 1] == s);
                        }
                        assert(prev_seen[b]);
                        assert(!prev_stack.contains(b as usize));
                        assert(prev_seen[g[b][k] as int] || avoid == Some(g[b][k]));
                    }
                }
            }
        }
        proof {
            assert(count_true(seen@) >= before);
        }
    }
    proof {
        assert forall|b: int| 0 <= b < seen@.len() implies (#[trigger] seen@[b] <==> reaches(
            g,
            from,
            b as usize,
            avoid,
        )) by {
            if reaches(g, from, b as usize, avoid) {
                let p = choose|p: Seq<usize>| #[trigger] is_walk(g, p, from, b as usize, avoid);
                assert(avoids(p, avoid));
                if avoid == Some(from) {
                    assert(p.contains(from)) by {
                        assert(p[0] == from);
                    }
                }
                assert forall|c: int, k: int|
                    0 <= c < seen@.len() && seen@[c] && 0 <= k < g[c].len() implies seen@[
                        #[trigger] g[c][k] as int] || avoid == Some(g[c][k]) by {
                    assert(!stack@.contains(c as usize));
                }
                lemma_closed_holds_walks(g, seen@, p, from, b as usize, avoid, p.len() - 1);
            }
        }
    }
    seen
}


/// A slice of a walk is a walk.
pub proof fn lemma_walk_slice(succ: Seq<Seq<usize>>, p: Seq<usize>, lo: int, hi: int)
    requires
        is_path(succ, p),
        0 <= lo < hi <= p.len(),
    ensures
        is_walk(succ, p.subrange(lo, hi), p[lo], p[hi - 1], None),
{
    let q = p.subrange(lo, hi);
    assert forall|i: int| 0 <= i < q.len() implies (#[trigger] q[i] as int) < succ.len() by {
        assert(q[i] == p[lo + i]);
    }
    assert forall|i: int| 0 <= i < q.len() - 1 implies #[trigger] path_step(succ, q, i) by {
        assert(path_step(succ, p, lo + i));
        assert(q[i] == p[lo + i]);
        assert(q[i + 1] == p[lo + i + 1]);
    }
}

/// Two walks that meet in `m` join into one walk.
pub proof fn lemma_walk_join(
    succ: Seq<Seq<usize>>,
    p: Seq<usize>,
    q: Seq<usize>,
    a: usize,
    m: usize,
    z: usize,
)
    requires
        is_walk(succ, p, a, m, None),
        is_walk(succ, q, m, z, None),
    ensures
        is_walk(succ, p + q.drop_first(), a, z, None),
        forall|x: usize| (p + q.drop_first()).contains(x) ==> p.contains(x) || q.contains(x),
{
    let r = p + q.drop_first();
    assert forall|i: int| 0 <= i < r.len() implies (#[trigger] r[i] as int) < succ.len() by {
        if i >= p.len() {
            assert(r[i] == q[i - p.len() + 1]);
        }
    }
    assert forall|i: int| 0 <= i < r.len() - 1 implies #[trigger] path_step(succ, r, i) by {
        if i < p.len() - 1 {
            assert(path_step(succ, p, i));
        } else if i == p.len() - 1 {
            assert(path_step(succ, q, 0));
            assert(r[i] == m);
            assert(q[0] == m);
        } else {
            assert(path_step(succ, q, i - p.len() + 1));
        }
    }
    if q.len() == 1 {
        assert(r =~= p);
    } else {
        assert(r.last() == q.last());
    }
    assert forall|x: usize| r.contains(x) implies p.contains(x) || q.contains(x) by {
        let k = choose|k: int| 0 <= k < r.len() && r[k] == x;
        if k >= p.len() {
            assert(q[k - p.len() + 1] == x);
        }
    }
}

/// A walk to `x` can be cut at the first visit of `x`.
pub proof fn lemma_walk_first_visit(succ: Seq<Seq<usize>>, p: Seq<usize>, a: usize, x: usize) -> (q:
    Seq<usize>)
    requires
        is_path(succ, p),
        p[0] == a,
        p.contains(x),
    ensures
        is_walk(succ, q, a, x, None),
        forall|j: int| 0 <= j < q.len() - 1 ==> q[j] != x,
        forall|y: usize| q.contains(y) ==> p.contains(y),
        q.len() <= p.len(),
        forall|j: int| 0 <= j < q.len() ==> q[j] == p[j],
{
    p.index_of_first_ensures(x);
    let i = p.index_of_first(x).unwrap();
    lemma_walk_slice(succ, p, 0, i + 1);
    let q = p.subrange(0, i + 1);
    assert forall|y: usize| q.contains(y) implies p.contains(y) by {
        let k = choose|k: int| 0 <= k < q.len() && q[k] == y;
        assert(p[k] == y);
    }
    q
}

/// A node on every walk to a reachable node is itself reachable.
pub proof fn lemma_dominator_reachable(succ: Seq<Seq<usize>>, entry: usize, d: usize, b: usize)
    requires
        reaches(succ, entry, b, None),
        on_every_walk(succ, entry, d, b),
    ensures
        reaches(succ, entry, d, None),
{
    let p = choose|p: Seq<usize>| #[trigger] is_walk(succ, p, entry, b, None);
    let q = lemma_walk_first_visit(succ, p, entry, d);
}

/// Two distinct reachable nodes cannot each lie on every walk to the other.
pub proof fn lemma_dominance_antisymmetric(succ: Seq<Seq<usize>>, entry: usize, x: usize, y: usize)
    requires
        reaches(succ, entry, x, None),
        on_every_walk(succ, entry, x, y),
        on_every_walk(succ, entry, y, x),
    ensures
        x == y,
{
    if x != y {
        let p = choose|p: Seq<usize>| #[trigger] is_walk(succ, p, entry, x, None);
        let q = lemma_walk_first_visit(succ, p, entry, x);
        assert(q.contains(y));
        let r = lemma_walk_first_visit(succ, q, entry, y);
        assert(r.contains(x));
        let k = choose|k: int| 0 <= k < r.len() && r[k] == x;
        let j = choose|j: int| 0 <= j < q.len() && q[j] == y;
        // r is a prefix of q ending at the first visit of y; x only closes q
        assert(r[k] == q[k]);
        assert(k == q.len() - 1);
        assert(false);
    }
}

/// The largest index before the end of `q` whose node lies on every walk to `b`.
proof fn lemma_last_strict_dominator(
    succ: Seq<Seq<usize>>,
    entry: usize,
    b: usize,
    q: Seq<usize>,
    k: int,
) -> (m: int)
    requires
        is_walk(succ, q, entry, b, None),
        0 <= k < q.len() - 1,
        q[k] != b && on_every_walk(succ, entry, q[k], b),
    ensures
        k <= m < q.len() - 1,
        q[m] != b && on_every_walk(succ, entry, q[m], b),
        forall|j: int| m < j < q.len() - 1 ==> !(q[j] != b && on_every_walk(succ, entry, q[j], b)),
    decreases q.len() - k,
{
    if exists|j: int| k < j < q.len() - 1 && q[j] != b && on_every_walk(succ, entry, q[j], b) {
        let j = choose|j: int| k < j < q.len() - 1 && q[j] != b && on_every_walk(succ, entry, q[j], b);
        lemma_last_strict_dominator(succ, entry, b, q, j)
    } else {
        k
    }
}

/// Every reachable node other than the entry has an immediate dominator.
pub proof fn lemma_immediate_dominator_exists(succ: Seq<Seq<usize>>, entry: usize, b: usize) -> (c:
    usize)
    requires
        reaches(succ, entry, b, None),
        b != entry,
    ensures
        c != b,
        on_every_walk(succ, entry, c, b),
        forall|d: usize|
            d != b && on_every_walk(succ, entry, d, b) ==> #[trigger] on_every_walk(succ, entry, d, c),
{
    let q = choose|q: Seq<usize>| #[trigger] is_walk(succ, q, entry, b, None);
    assert(on_every_walk(succ, entry, entry, b)) by {
        assert forall|p: Seq<usize>| #[trigger] is_walk(succ, p, entry, b, None) implies p.contains(
            entry,
        ) by {
            assert(p[0] == entry);
        }
    }
    assert(q.len() > 1) by {
        if q.len() == 1 {
            assert(q[0] == q.last());
        }
    }
    let m = lemma_last_strict_dominator(succ, entry, b, q, 0);
    let c = q[m];
    assert forall|d: usize| d != b && on_every_walk(succ, entry, d, b) implies #[trigger] on_every_walk(
        succ,
        entry,
        d,
        c,
    ) by {
        assert forall|r: Seq<usize>| #[trigger] is_walk(succ, r, entry, c, None) implies r.contains(
            d,
        ) by {
            if !r.contains(d) {
                lemma_walk_slice(succ, q, m, q.len() as int);
                let tail = q.subrange(m, q.len() as int);
                lemma_walk_join(succ, r, tail, entry, c, b);
                let w = r + tail.drop_first();
                assert(w.contains(d));
                assert(tail.contains(d));
                let t = choose|t: int| 0 <= t < tail.len() && tail[t] == d;
                assert(q[m + t] == d);
                if t == 0 {
                    assert(r.last() == c);
                    assert(r.contains(c)) by {
                        assert(r[r.len() - 1] == c);
                    }
                } else if m + t == q.len() - 1 {
                    assert(q.last() == b);
                } else {
                    assert(q[m + t] != b && on_every_walk(succ, entry, q[m + t], b));
                }
            }
        }
    }
    c
}


/// What the dominance analysis reports: a reachable node is dominated by the nodes that lie
/// on every walk to it from the entry; an unreachable node only by itself.
pub open spec fn dominates_node(succ: Seq<Seq<usize>>, entry: usize, d: usize, b: usize) -> bool {
    if reaches(succ, entry, b, None) {
        on_every_walk(succ, entry, d, b)
    } else {
        d == b
    }
}

/// `c` is the immediate dominator of `b`: it strictly dominates `b`, and every other strict
/// dominator of `b` dominates `c`.
pub open spec fn is_immediate_dominator(succ: Seq<Seq<usize>>, entry: usize, c: usize, b: usize) -> bool {
    &&& c != b
    &&& on_every_walk(succ, entry, c, b)
    &&& forall|d: usize|
        d != b && on_every_walk(succ, entry, d, b) ==> #[trigger] on_every_walk(succ, entry, d, c)
}

proof fn lemma_every_walk_iff_not_avoidable(succ: Seq<Seq<usize>>, entry: usize, d: usize, b: usize)
    ensures
        on_every_walk(succ, entry, d, b) <==> !reaches(succ, entry, b, Some(d)),
{
    if reaches(succ, entry, b, Some(d)) {
        let p = choose|p: Seq<usize>| #[trigger] is_walk(succ, p, entry, b, Some(d));
        assert(is_walk(succ, p, entry, b, None));
    }
    if !on_every_walk(succ, entry, d, b) {
        let p = choose|p: Seq<usize>| #[trigger] is_walk(succ, p, entry, b, None) && !p.contains(d);
        assert(is_walk(succ, p, entry, b, Some(d)));
    }
}

/// Nodes outside the graph lie on no walk.
proof fn lemma_outside_not_on_walk(succ: Seq<Seq<usize>>, entry: usize, d: usize, b: usize)
    requires
        reaches(succ, entry, b, None),
        (d as int) >= succ.len(),
    ensures
        !on_every_walk(succ, entry, d, b),
{
    let p = choose|p: Seq<usize>| #[trigger] is_walk(succ, p, entry, b, None);
    if p.contains(d) {
        let k = choose|k: int| 0 <= k < p.len() && p[k] == d;
        assert((p[k] as int) < succ.len());
    }
}

/// Reachability from the entry and the dominance relation, as a matrix `dom[b][d]`.
pub fn dominator_matrix(succ: &Vec<Vec<usize>>, entry: usize) -> (r: (Vec<bool>, Vec<Vec<bool>>))
    requires
        graph_wf(succ@.map_values(|v: Vec<usize>| v@)),
        (entry as int) < succ@.len(),
    ensures
        r.0@.len() == succ@.len(),
        forall|b: int|
            0 <= b < succ@.len() ==> (#[trigger] r.0@[b] <==> reaches(
                succ@.map_values(|v: Vec<usize>| v@),
                entry,
                b as usize,
                None,
            )),
        r.1@.len() == succ@.len(),
        forall|b: int| 0 <= b < succ@.len() ==> (#[trigger] r.1@[b]@.len()) == succ@.len(),
        forall|b: int, d: int|
            0 <= b < succ@.len() && 0 <= d < succ@.len() ==> (#[trigger] r.1@[b]@[d]
                <==> dominates_node(succ@.map_values(|v: Vec<usize>| v@), entry, d as usize, b as usize)),
{
    let ghost g = succ@.map_values(|v: Vec<usize>| v@);
    let n = succ.len();
    let reach = reachable_nodes(succ, entry, None);
    let mut avoiding: Vec<Vec<bool>> = Vec::new();
    for d in 0..n
        invariant
            g == succ@.map_values(|v: Vec<usize>| v@),
            graph_wf(g),
            n == succ@.len(),
            (entry as int) < n,
            avoiding@.len() == d,
            forall|e: int| 0 <= e < d ==> (#[trigger] avoiding@[e]@.len()) == n,
            forall|e: int, b: int|
                0 <= e < d && 0 <= b < n ==> (#[trigger] avoiding@[e]@[b] <==> reaches(
                    g,
                    entry,
                    b as usize,
                    Some(e as usize),
                )),
    {
        let col = reachable_nodes(succ, entry, Some(d));
        avoiding.push(col);
    }
    let mut dom: Vec<Vec<bool>> = Vec::new();
    for b in 0..n
        invariant
            g == succ@.map_values(|v: Vec<usize>| v@),
            n == succ@.len(),
            reach@.len() == n,
            forall|c: int| 0 <= c < n ==> (#[trigger] reach@[c] <==> reaches(g, entry, c as usize, None)),
            avoiding@.len() == n,
            forall|e: int| 0 <= e < n ==> (#[trigger] avoiding@[e]@.len()) == n,
            forall|e: int, c: int|
                0 <= e < n && 0 <= c < n ==> (#[trigger] avoiding@[e]@[c] <==> reaches(
                    g,
                    entry,
                    c as usize,
                    Some(e as usize),
                )),
            dom@.len() == b,
            forall|c: int| 0 <= c < b ==> (#[trigger] dom@[c]@.len()) == n,
            forall|c: int, d: int|
                0 <= c < b && 0 <= d < n ==> (#[trigger] dom@[c]@[d] <==> dominates_node(
                    g,
                    entry,
                    d as usize,
                    c as usize,
                )),
    {
        let mut row: Vec<bool> = Vec::new();
        for d in 0..n
            invariant
                g == succ@.map_values(|v: Vec<usize>| v@),
                n == succ@.len(),
                0 <= b < n,
                reach@.len() == n,
                forall|c: int| 0 <= c < n ==> (#[trigger] reach@[c] <==> reaches(g, entry, c as usize, None)),
                avoiding@.len() == n,
                forall|e: int| 0 <= e < n ==> (#[trigger] avoiding@[e]@.len()) == n,
                forall|e: int, c: int|
                    0 <= e < n && 0 <= c < n ==> (#[trigger] avoiding@[e]@[c] <==> reaches(
                        g,
                        entry,
                        c as usize,
                        Some(e as usize),
                    )),
                row@.len() == d,
                forall|e: int| 0 <= e < d ==> (#[trigger] row@[e] <==> dominates_node(
                    g,
                    entry,
                    e as usize,
                    b as usize,
                )),
        {
            let value = if reach[b] {
                !avoiding[d][b]
            } else {
                d == b
            };
            proof {
                lemma_every_walk_iff_not_avoidable(g, entry, d as usize, b as usize);
            }
            row.push(value);
        }
        dom.push(row);
    }
    (reach, dom)
}

/// The immediate dominator of every node: none for the entry and for unreachable nodes.
pub fn immediate_dominator_table(
    succ: &Vec<Vec<usize>>,
    entry: usize,
    reach: &Vec<bool>,
    dom: &Vec<Vec<bool>>,
) -> (idom: Vec<Option<usize>>)
    requires
        graph_wf(succ@.map_values(|v: Vec<usize>| v@)),
        (entry as int) < succ@.len(),
        reach@.len() == succ@.len(),
        forall|b: int|
            0 <= b < succ@.len() ==> (#[trigger] reach@[b] <==> reaches(
                succ@.map_values(|v: Vec<usize>| v@),
                entry,
                b as usize,
                None,
            )),
        dom@.len() == succ@.len(),
        forall|b: int| 0 <= b < succ@.len() ==> (#[trigger] dom@[b]@.len()) == succ@.len(),
        forall|b: int, d: int|
            0 <= b < succ@.len() && 0 <= d < succ@.len() ==> (#[trigger] dom@[b]@[d]
                <==> dominates_node(succ@.map_values(|v: Vec<usize>| v@), entry, d as usize, b as usize)),
    ensures
        idom@.len() == succ@.len(),
        forall|b: int|
            0 <= b < succ@.len() ==> match #[trigger] idom@[b] {
                None => b == entry || !reaches(succ@.map_values(|v: Vec<usize>| v@), entry, b as usize, None),
                Some(c) => b != entry && reaches(succ@.map_values(|v: Vec<usize>| v@), entry, b as usize, None)
                    && is_immediate_dominator(succ@.map_values(|v: Vec<usize>| v@), entry, c, b as usize),
            },
{
    let ghost g = succ@.map_values(|v: Vec<usize>| v@);
    let n = succ.len();
    let mut idom: Vec<Option<usize>> = Vec::new();
    for b in 0..n
        invariant
            g == succ@.map_values(|v: Vec<usize>| v@),
            graph_wf(g),
            n == succ@.len(),
            (entry as int) < n,
            reach@.len() == n,
            forall|c: int| 0 <= c < n ==> (#[trigger] reach@[c] <==> reaches(g, entry, c as usize, None)),
            dom@.len() == n,
            forall|c: int| 0 <= c < n ==> (#[trigger] dom@[c]@.len()) == n,
            forall|c: int, d: int|
                0 <= c < n && 0 <= d < n ==> (#[trigger] dom@[c]@[d] <==> dominates_node(
                    g,
                    entry,
                    d as usize,
                    c as usize,
                )),
            idom@.len() == b,
            forall|c: int|
                0 <= c < b ==> match #[trigger] idom@[c] {
                    None => c == entry || !reaches(g, entry, c as usize, None),
                    Some(x) => c != entry && reaches(g, entry, c as usize, None)
                        && is_immediate_dominator(g, entry, x, c as usize),
                },
    {
        if b == entry || !reach[b] {
            idom.push(None);
        } else {
            let ghost witness = lemma_immediate_dominator_exists(g, entry, b);
            proof {
                lemma_dominator_reachable(g, entry, witness, b);
                if (witness as int) >= n {
                    lemma_outside_not_on_walk(g, entry, witness, b);
                }
            }
            let mut found: Option<usize> = None;
            let mut c: usize = 0;
            while c < n && found.is_none()
                invariant
                    g == succ@.map_values(|v: Vec<usize>| v@),
                    graph_wf(g),
                    n == succ@.len(),
                    0 <= b < n,
                    b != entry,
                    reaches(g, entry, b as usize, None),
                    0 <= c <= n,
                    (witness as int) < n,
                    is_immediate_dominator(g, entry, witness, b as usize),
                    found.is_none() ==> c <= witness,
                    found matches Some(x) ==> is_immediate_dominator(g, entry, x, b as usize),
                    reach@.len() == n,
                    forall|e: int| 0 <= e < n ==> (#[trigger] reach@[e] <==> reaches(g, entry, e as usize, None)),
                    dom@.len() == n,
                    forall|e: int| 0 <= e < n ==> (#[trigger] dom@[e]@.len()) == n,
                    forall|e: int, d: int|
                        0 <= e < n && 0 <= d < n ==> (#[trigger] dom@[e]@[d] <==> dominates_node(
                            g,
                            entry,
                            d as usize,
                            e as usize,
                        )),
                decreases n - c,
            {
                if c != b && dom[b][c] {
                    let mut all = true;
                    let mut d: usize = 0;
                    while d < n
                        invariant
                            g == succ@.map_values(|v: Vec<usize>| v@),
                            n == succ@.len(),
                            0 <= b < n,
                            0 <= c < n,
                            0 <= d <= n,
                            dom@.len() == n,
                            forall|e: int| 0 <= e < n ==> (#[trigger] dom@[e]@.len()) == n,
                            all == (forall|e: int|
                                0 <= e < d ==> (e != b && #[trigger] dom@[b as int]@[e]) ==> dom@[c as int]@[e]),
                        decreases n - d,
                    {
                        if d != b && dom[b][d] && !dom[c][d] {
                            all = false;
                        }
                        d = d + 1;
                    }
                    proof {
                        lemma_dominator_reachable(g, entry, c, b);
                        assert(dom@[b as int]@[c as int]);
                        if all {
                            assert forall|d2: usize|
                                d2 != b && on_every_walk(g, entry, d2, b) implies #[trigger] on_every_walk(
                                g,
                                entry,
                                d2,
                                c,
                            ) by {
                                if (d2 as int) >= n {
                                    lemma_outside_not_on_walk(g, entry, d2, b);
                                } else {
                                    assert(dom@[b as int]@[d2 as int]);
                                    assert(dom@[c as int]@[d2 as int]);
                                }
                            }
                        } else if c == witness {
                            let e = choose|e: int|
                                0 <= e < n && e != b && #[trigger] dom@[b as int]@[e] && !dom@[c as int]@[e];
                            assert(on_every_walk(g, entry, e as usize, c));
                        }
                    }
                    if all {
                        found = Some(c);
                    }
                } else {
                    proof {
                        if c == witness {
                            assert(dom@[b as int]@[c as int]);
                        }
                    }
                }
                c = c + 1;
            }
            idom.push(found);
        }
    }
    idom
}

} // verus!
