use vstd::prelude::*;

use super::graph::{
    dominates_node, is_immediate_dominator, is_walk, lemma_dominance_antisymmetric,
    lemma_dominator_reachable, lemma_walk_first_visit, on_every_walk, reaches,
};

use super::dominance::{lemma_region_position, region_position, DominanceAnalysis};
use super::cfg::{
    block_successors, concat_lists, first_occurrences, lemma_first_occurrences_no_duplicates,
    lemma_predecessor_list_bound, lemma_predecessor_list_contains, predecessor_list, RegionControlFlowGraph,
};

verus! {

/// Every node dominates itself.
pub proof fn law_dominance_reflexive(succ: Seq<Seq<usize>>, entry: usize, b: usize)
    ensures
        dominates_node(succ, entry, b, b),
{
    assert forall|p: Seq<usize>| #[trigger] is_walk(succ, p, entry, b, None) implies p.contains(b) by {
        assert(p[p.len() - 1] == b);
    }
}

/// The entry dominates every node it reaches.
pub proof fn law_entry_dominates_reachable(succ: Seq<Seq<usize>>, entry: usize, b: usize)
    requires
        reaches(succ, entry, b, None),
    ensures
        dominates_node(succ, entry, entry, b),
{
    assert forall|p: Seq<usize>| #[trigger] is_walk(succ, p, entry, b, None) implies p.contains(entry) by {
        assert(p[0] == entry);
    }
}

/// Dominance is transitive: a dominator of a dominator of `c` dominates `c`.
pub proof fn law_dominance_transitive(succ: Seq<Seq<usize>>, entry: usize, a: usize, b: usize, c: usize)
    requires
        dominates_node(succ, entry, a, b),
        dominates_node(succ, entry, b, c),
    ensures
        dominates_node(succ, entry, a, c),
{
    if reaches(succ, entry, c, None) {
        lemma_dominator_reachable(succ, entry, b, c);
        assert forall|p: Seq<usize>| #[trigger] is_walk(succ, p, entry, c, None) implies p.contains(a) by {
            assert(p.contains(b));
            let q = lemma_walk_first_visit(succ, p, entry, b);
            assert(q.contains(a));
        }
    }
}

/// Dominance is antisymmetric: two nodes that dominate each other are the same node.
pub proof fn law_dominance_antisymmetric(succ: Seq<Seq<usize>>, entry: usize, a: usize, b: usize)
    requires
        dominates_node(succ, entry, a, b),
        dominates_node(succ, entry, b, a),
    ensures
        a == b,
{
    if reaches(succ, entry, b, None) {
        lemma_dominator_reachable(succ, entry, a, b);
        lemma_dominance_antisymmetric(succ, entry, a, b);
    }
}

/// A node has at most one immediate dominator.
pub proof fn law_immediate_dominator_unique(succ: Seq<Seq<usize>>, entry: usize, b: usize, c1: usize, c2: usize)
    requires
        reaches(succ, entry, b, None),
        is_immediate_dominator(succ, entry, c1, b),
        is_immediate_dominator(succ, entry, c2, b),
    ensures
        c1 == c2,
{
    assert(on_every_walk(succ, entry, c1, c2));
    assert(on_every_walk(succ, entry, c2, c1));
    lemma_dominator_reachable(succ, entry, c1, b);
    lemma_dominance_antisymmetric(succ, entry, c1, c2);
}

/// An analysis is computed on its first request and served from the cache on the next
/// (a request computes exactly when the name is not cached, and caches it); once it is
/// invalidated, or everything is, the next request computes it again.
pub proof fn law_analysis_cached_until_invalidated(cached: Set<Seq<char>>, analysis: Seq<char>)
    ensures
        cached.insert(analysis).contains(analysis),
        !cached.insert(analysis).remove(analysis).contains(analysis),
        !Set::<Seq<char>>::empty().contains(analysis),
{
}

/// In the graph of a region, block `s` is a successor of block `b` exactly when `b` is a
/// predecessor of `s`.
pub proof fn law_successor_iff_predecessor(g: RegionControlFlowGraph, b: u64, s: u64)
    requires
        g.wf(),
        g.spec_blocks().contains(b),
        g.spec_blocks().contains(s),
    ensures
        g.successor_blocks(b).contains(s) <==> g.predecessor_blocks(s).contains(b),
{
    g.lemma_wf();
    let blocks = g.spec_blocks();
    let succ = g.graph();
    let n = blocks.len() as int;
    let ib = blocks.index_of(b);
    let is = blocks.index_of(s);
    let row = succ[ib];
    let preds = predecessor_list(succ, is as usize, n);
    lemma_predecessor_list_contains(succ, is as usize, n, ib as usize);
    lemma_predecessor_list_bound(succ, is as usize, n);
    if g.successor_blocks(b).contains(s) {
        let k = choose|k: int| 0 <= k < g.successor_blocks(b).len() && g.successor_blocks(b)[k] == s;
        assert(blocks[row[k] as int] == s);
        assert(row[k] as int == is);
        assert(row.contains(is as usize));
        assert(preds.contains(ib as usize));
        let t = choose|t: int| 0 <= t < preds.len() && preds[t] == ib as usize;
        assert(blocks[ib] == b);
        assert(g.predecessor_blocks(s)[t] == blocks[preds[t] as int]);
    }
    if g.predecessor_blocks(s).contains(b) {
        let k = choose|k: int| 0 <= k < g.predecessor_blocks(s).len() && g.predecessor_blocks(s)[k] == b;
        assert(blocks[preds[k] as int] == b);
        assert(preds[k] as int == ib);
        let t = choose|t: int| 0 <= t < row.len() && row[t] == is as usize;
        assert(g.successor_blocks(b)[t] == s);
    }
}

/// What `dominates_block` reports, in terms of the region graphs: every block dominates
/// itself; a block `a` dominates another block `b` exactly when both lie in the same region,
/// that region has an entry block, `b` is reachable from it, and every walk from the entry to
/// `b` passes through `a`. So a block that is not reachable is dominated by itself alone.
pub proof fn law_block_dominance(d: DominanceAnalysis, a: u64, b: u64)
    requires
        d.wf(),
    ensures
        d.block_dominates(a, a),
        a != b ==> (d.block_dominates(a, b) <==> match region_position(d.graphs(), b) {
            Some(r) => {
                let g = d.graphs()[r];
                &&& region_position(d.graphs(), a) == Some(r)
                &&& match g.spec_entry() {
                    Some(e) => {
                        &&& reaches(g.graph(), e, g.spec_blocks().index_of(b) as usize, None)
                        &&& on_every_walk(
                            g.graph(),
                            e,
                            g.spec_blocks().index_of(a) as usize,
                            g.spec_blocks().index_of(b) as usize,
                        )
                    },
                    None => false,
                }
            },
            None => false,
        }),
{
    lemma_region_position(d.graphs(), a);
    lemma_region_position(d.graphs(), b);
    if a != b {
        if let Some(r) = region_position(d.graphs(), b) {
            let g = d.graphs()[r];
            if region_position(d.graphs(), a) == Some(r) {
                if let Some(e) = g.spec_entry() {
                    d.lemma_graphs_wf();
                    g.lemma_wf();
                    let blocks = g.spec_blocks();
                    let ia = blocks.index_of(a);
                    let ib = blocks.index_of(b);
                    assert(blocks[ib] == b);
                    assert(blocks[ia] == a);
                    assert(ia != ib);
                    assert(ia as usize != ib as usize);
                }
            }
        }
    }
}

/// The predecessors of a node are listed once each.
proof fn lemma_predecessor_list_no_duplicates(succ: Seq<Seq<usize>>, b: usize, k: int)
    requires
        k <= usize::MAX + 1,
    ensures
        predecessor_list(succ, b, k).no_duplicates(),
    decreases k,
{
    if k > 0 {
        lemma_predecessor_list_no_duplicates(succ, b, k - 1);
        lemma_predecessor_list_bound(succ, b, k - 1);
        let d = predecessor_list(succ, b, k - 1);
        if succ[k - 1].contains(b) {
            let e = d.push((k - 1) as usize);
            assert forall|x: int, y: int| 0 <= x < e.len() && 0 <= y < e.len() && x != y implies e[x] != e[y] by {
                if x < d.len() && y < d.len() {
                    assert(e[x] == d[x] && e[y] == d[y]);
                    assert(d[x] != d[y]);
                } else if x < d.len() {
                    assert(e[x] == d[x] && e[y] == (k - 1) as usize);
                    assert((predecessor_list(succ, b, k - 1)[x] as int) < k - 1);
                } else {
                    assert(e[y] == d[y] && e[x] == (k - 1) as usize);
                    assert((predecessor_list(succ, b, k - 1)[y] as int) < k - 1);
                }
            }
        }
    }
}

/// Positions listed once each name distinct blocks, so the blocks are listed once each.
proof fn lemma_map_no_duplicates(positions: Seq<usize>, blocks: Seq<u64>)
    requires
        positions.no_duplicates(),
        blocks.no_duplicates(),
        forall|k: int| 0 <= k < positions.len() ==> (#[trigger] positions[k] as int) < blocks.len(),
    ensures
        positions.map_values(|i: usize| blocks[i as int]).no_duplicates(),
{
    let m = positions.map_values(|i: usize| blocks[i as int]);
    assert forall|a: int, c: int| 0 <= a < m.len() && 0 <= c < m.len() && a != c implies m[a] != m[c] by {
        assert(positions[a] != positions[c]);
    }
}

/// The graph of a region, as `RegionControlFlowGraph::build` makes it from the region's
/// blocks and the successor lists of each block's operations (as positions in `blocks`):
/// each block belongs to the region; its successors are the distinct successors of its
/// operations in order of first mention, each listed once; a block `s` is a successor of `b`
/// exactly when `b` is a predecessor of `s`, and predecessors are listed once each; and a
/// block is reachable exactly when a walk along successors leads to it from the entry block.
pub proof fn law_built_region_graph(
    g: RegionControlFlowGraph,
    region: u64,
    blocks: Seq<u64>,
    entry: Option<usize>,
    operation_successors: Seq<Seq<Seq<usize>>>,
    b: u64,
    s: u64,
)
    requires
        g.wf(),
        g.spec_region() == region,
        g.spec_blocks() == blocks,
        g.spec_entry() == entry,
        g.graph() == block_successors(operation_successors),
        blocks.contains(b),
        blocks.contains(s),
    ensures
        g.spec_region() == region && g.spec_blocks().contains(b),
        g.successor_blocks(b) == first_occurrences(concat_lists(operation_successors[blocks.index_of(b)])).map_values(
            |i: usize| blocks[i as int],
        ),
        g.successor_blocks(b).no_duplicates(),
        g.successor_blocks(b).contains(s) <==> g.predecessor_blocks(s).contains(b),
        g.predecessor_blocks(s).no_duplicates(),
        g.reaches_block(blocks.index_of(s)) <==> (entry matches Some(e) && reaches(
            g.graph(),
            e,
            blocks.index_of(s) as usize,
            None,
        )),
{
    g.lemma_wf();
    law_successor_iff_predecessor(g, b, s);
    let n = blocks.len() as int;
    let ib = blocks.index_of(b);
    let is = blocks.index_of(s);
    let row = g.graph()[ib];
    assert(row == first_occurrences(concat_lists(operation_successors[ib])));
    lemma_first_occurrences_no_duplicates(concat_lists(operation_successors[ib]));
    assert forall|k: int| 0 <= k < row.len() implies (#[trigger] row[k] as int) < blocks.len() by {
        assert(g.graph()[ib][k] == row[k]);
    }
    lemma_map_no_duplicates(row, blocks);
    let preds = predecessor_list(g.graph(), is as usize, n);
    lemma_predecessor_list_no_duplicates(g.graph(), is as usize, n);
    lemma_predecessor_list_bound(g.graph(), is as usize, n);
    lemma_map_no_duplicates(preds, blocks);
}

} // verus!
