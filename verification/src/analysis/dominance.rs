use vstd::prelude::*;

use super::cfg::{lemma_index_of_unique, position_of, RegionControlFlowGraph};
use super::graph::{
    dominates_node, dominator_matrix, graph_wf, immediate_dominator_table, is_immediate_dominator,
    reaches,
};

verus! {

/// Position of the first region whose blocks include `block`.
pub open spec fn region_position(graphs: Seq<RegionControlFlowGraph>, block: u64) -> Option<int> {
    if exists|r: int| 0 <= r < graphs.len() && #[trigger] graphs[r].spec_blocks().contains(block) {
        Some(
            choose|r: int|
                0 <= r < graphs.len() && #[trigger] graphs[r].spec_blocks().contains(block) && forall|
                    q: int,
                |
                    0 <= q < r ==> !graphs[q].spec_blocks().contains(block),
        )
    } else {
        None
    }
}

pub proof fn lemma_region_position(graphs: Seq<RegionControlFlowGraph>, block: u64)
    ensures
        match region_position(graphs, block) {
            Some(r) => 0 <= r < graphs.len() && graphs[r].spec_blocks().contains(block) && forall|
                q: int,
            |
                0 <= q < r ==> !(#[trigger] graphs[q]).spec_blocks().contains(block),
            None => forall|q: int| 0 <= q < graphs.len() ==> !(#[trigger] graphs[q]).spec_blocks().contains(block),
        },
{
    if exists|r: int| 0 <= r < graphs.len() && #[trigger] graphs[r].spec_blocks().contains(block) {
        let w = choose|r: int| 0 <= r < graphs.len() && #[trigger] graphs[r].spec_blocks().contains(block);
        lemma_first_region(graphs, block, w);
    }
}

proof fn lemma_first_region(graphs: Seq<RegionControlFlowGraph>, block: u64, w: int)
    requires
        0 <= w < graphs.len(),
        graphs[w].spec_blocks().contains(block),
    ensures
        exists|r: int|
            0 <= r < graphs.len() && #[trigger] graphs[r].spec_blocks().contains(block) && forall|q: int|
                0 <= q < r ==> !graphs[q].spec_blocks().contains(block),
    decreases w,
{
    if exists|q: int| 0 <= q < w && #[trigger] graphs[q].spec_blocks().contains(block) {
        let q = choose|q: int| 0 <= q < w && #[trigger] graphs[q].spec_blocks().contains(block);
        lemma_first_region(graphs, block, q);
    } else {
        assert(forall|q: int| 0 <= q < w ==> !graphs[q].spec_blocks().contains(block));
    }
}

/// The dominance facts of one region.
#[derive(Debug)]
pub struct RegionDominance {
    graph: RegionControlFlowGraph,
    dominators: Vec<Vec<bool>>,
    immediate: Vec<Option<usize>>,
}

impl RegionDominance {
    pub closed spec fn spec_graph(&self) -> RegionControlFlowGraph {
        self.graph
    }

    /// `dom[b][d]`: the block at position `d` dominates the block at position `b`.
    pub closed spec fn spec_dominators(&self) -> Seq<Seq<bool>> {
        self.dominators@.map_values(|v: Vec<bool>| v@)
    }

    pub closed spec fn spec_immediate(&self) -> Seq<Option<usize>> {
        self.immediate@
    }

    #[verifier::opaque]
    pub closed spec fn wf(&self) -> bool {
        let g = self.spec_graph();
        let n = g.spec_blocks().len();
        &&& g.wf()
        &&& match g.spec_entry() {
            Some(e) => {
                &&& self.spec_dominators().len() == n
                &&& forall|b: int| 0 <= b < n ==> (#[trigger] self.spec_dominators()[b]).len() == n
                &&& forall|b: int, d: int|
                    0 <= b < n && 0 <= d < n ==> (#[trigger] self.spec_dominators()[b][d]
                        <==> dominates_node(g.graph(), e, d as usize, b as usize))
                &&& self.spec_immediate().len() == n
                &&& forall|b: int|
                    0 <= b < n ==> match #[trigger] self.spec_immediate()[b] {
                        None => b == e || !reaches(g.graph(), e, b as usize, None),
                        Some(c) => b != e && reaches(g.graph(), e, b as usize, None)
                            && is_immediate_dominator(g.graph(), e, c, b as usize),
                    }
            },
            None => self.spec_dominators().len() == 0 && self.spec_immediate().len() == 0,
        }
    }

    pub proof fn lemma_wf(&self)
        requires
            self.wf(),
        ensures
            self.spec_graph().wf(),
            ({
                let g = self.spec_graph();
                let n = g.spec_blocks().len();
                match g.spec_entry() {
                    Some(e) => {
                        &&& self.spec_dominators().len() == n
                        &&& forall|b: int| 0 <= b < n ==> (#[trigger] self.spec_dominators()[b]).len() == n
                        &&& forall|b: int, d: int|
                            0 <= b < n && 0 <= d < n ==> (#[trigger] self.spec_dominators()[b][d]
                                <==> dominates_node(g.graph(), e, d as usize, b as usize))
                        &&& self.spec_immediate().len() == n
                        &&& forall|b: int|
                            0 <= b < n ==> match #[trigger] self.spec_immediate()[b] {
                                None => b == e || !reaches(g.graph(), e, b as usize, None),
                                Some(c) => b != e && reaches(g.graph(), e, b as usize, None)
                                    && is_immediate_dominator(g.graph(), e, c, b as usize),
                            }
                    },
                    None => self.spec_dominators().len() == 0 && self.spec_immediate().len() == 0,
                }
            }),
    {
        reveal(RegionDominance::wf);
    }

    /// Computes reachability, dominators and immediate dominators of a region.
    pub fn compute(graph: RegionControlFlowGraph) -> (r: RegionDominance)
        requires
            graph.wf(),
        ensures
            r.wf(),
            r.spec_graph() == graph,
    {
        proof {
            graph.lemma_wf();
            reveal(RegionDominance::wf);
        }
        match graph.entry_position() {
            Some(e) => {
                let (reach, dominators) = dominator_matrix(graph.successor_table(), e);
                let immediate = immediate_dominator_table(graph.successor_table(), e, &reach, &dominators);
                RegionDominance { graph, dominators, immediate }
            },
            None => RegionDominance { graph, dominators: Vec::new(), immediate: Vec::new() },
        }
    }
}

/// Dominance over all regions, plus where each operation sits in its block.
#[derive(Debug)]
pub struct DominanceAnalysis {
    regions: Vec<RegionDominance>,
    operation_positions: Vec<(u64, u64, usize)>,
}

/// Position of the first entry for operation `op`.
pub open spec fn operation_entry(positions: Seq<(u64, u64, usize)>, op: u64) -> Option<int> {
    if exists|i: int| 0 <= i < positions.len() && (#[trigger] positions[i]).0 == op {
        Some(
            choose|i: int|
                0 <= i < positions.len() && (#[trigger] positions[i]).0 == op && forall|j: int|
                    0 <= j < i ==> positions[j].0 != op,
        )
    } else {
        None
    }
}

/// The positions of the operations of each block: `(operation, block, index in block)`.
pub open spec fn operation_layout(block_operations: Seq<(u64, Seq<u64>)>) -> Seq<(u64, u64, usize)>
    decreases block_operations.len(),
{
    if block_operations.len() == 0 {
        Seq::empty()
    } else {
        let (block, ops) = block_operations.last();
        operation_layout(block_operations.drop_last()) + Seq::new(
            ops.len(),
            |i: int| (ops[i], block, i as usize),
        )
    }
}

impl DominanceAnalysis {
    pub closed spec fn spec_regions(&self) -> Seq<RegionDominance> {
        self.regions@
    }

    pub open spec fn graphs(&self) -> Seq<RegionControlFlowGraph> {
        self.spec_regions().map_values(|r: RegionDominance| r.spec_graph())
    }

    pub closed spec fn spec_positions(&self) -> Seq<(u64, u64, usize)> {
        self.operation_positions@
    }

    pub closed spec fn wf(&self) -> bool {
        forall|r: int| 0 <= r < self.spec_regions().len() ==> (#[trigger] self.spec_regions()[r]).wf()
    }

    /// The region graphs of a well-formed analysis are well formed.
    pub proof fn lemma_graphs_wf(&self)
        requires
            self.wf(),
        ensures
            forall|r: int| 0 <= r < self.graphs().len() ==> (#[trigger] self.graphs()[r]).wf(),
    {
        assert forall|r: int| 0 <= r < self.graphs().len() implies (#[trigger] self.graphs()[r]).wf() by {
            self.spec_regions()[r].lemma_wf();
        }
    }

    /// The dominance relation the analysis reports between two blocks: a block dominates
    /// itself; otherwise both blocks belong to the same region, which has an entry block,
    /// and `dominator` dominates `block` in that region's graph.
    pub open spec fn block_dominates(&self, dominator: u64, block: u64) -> bool {
        dominator == block || match region_position(self.graphs(), block) {
            Some(r) => {
                let g = self.graphs()[r];
                &&& region_position(self.graphs(), dominator) == Some(r)
                &&& match g.spec_entry() {
                    Some(e) => dominates_node(
                        g.graph(),
                        e,
                        g.spec_blocks().index_of(dominator) as usize,
                        g.spec_blocks().index_of(block) as usize,
                    ),
                    None => false,
                }
            },
            None => false,
        }
    }

    /// The analysis of the given region graphs, with `block_operations` listing the
    /// operations of each block in order.
    pub fn new(graphs: Vec<RegionControlFlowGraph>, block_operations: &Vec<(u64, Vec<u64>)>) -> (r:
        DominanceAnalysis)
        requires
            forall|i: int| 0 <= i < graphs@.len() ==> (#[trigger] graphs@[i]).wf(),
        ensures
            r.wf(),
            r.graphs() == graphs@,
            r.spec_positions() == operation_layout(
                block_operations@.map_values(|e: (u64, Vec<u64>)| (e.0, e.1@)),
            ),
    {
        let mut graphs = graphs;
        let mut regions: Vec<RegionDominance> = Vec::new();
        let ghost all = graphs@;
        let n = graphs.len();
        let mut i: usize = 0;
        while i < n
            invariant
                n == all.len(),
                0 <= i <= n,
                graphs@ == all.subrange(i as int, n as int),
                forall|k: int| 0 <= k < all.len() ==> (#[trigger] all[k]).wf(),
                regions@.len() == i,
                forall|k: int| 0 <= k < i ==> (#[trigger] regions@[k]).wf() && regions@[k].spec_graph() == all[k],
            decreases n - i,
        {
            let g = graphs.remove(0);
            proof {
                assert(g == all[i as int]);
                assert(graphs@ =~= all.subrange(i + 1, n as int));
            }
            regions.push(RegionDominance::compute(g));
            i = i + 1;
        }
        let ghost input = block_operations@.map_values(|e: (u64, Vec<u64>)| (e.0, e.1@));
        let mut positions: Vec<(u64, u64, usize)> = Vec::new();
        for b in 0..block_operations.len()
            invariant
                input == block_operations@.map_values(|e: (u64, Vec<u64>)| (e.0, e.1@)),
                positions@ == operation_layout(input.take(b as int)),
        {
            let block = block_operations[b].0;
            let ops = &block_operations[b].1;
            let ghost before = positions@;
            for k in 0..ops.len()
                invariant
                    input == block_operations@.map_values(|e: (u64, Vec<u64>)| (e.0, e.1@)),
                    0 <= b < block_operations@.len(),
                    block == block_operations@[b as int].0,
                    ops@ == block_operations@[b as int].1@,
                    positions@ == before + Seq::new(k as nat, |j: int| (ops@[j], block, j as usize)),
            {
                positions.push((ops[k], block, k));
                proof {
                    assert(positions@ =~= before + Seq::new((k + 1) as nat, |j: int| (ops@[j], block, j as usize)));
                }
            }
            proof {
                let t = input.take(b + 1);
                assert(t.drop_last() =~= input.take(b as int));
                assert(t.last() == input[b as int]);
                assert(positions@ =~= operation_layout(t));
            }
        }
        proof {
            assert(input.take(block_operations@.len() as int) =~= input);
        }
        let r = DominanceAnalysis { regions, operation_positions: positions };
        proof {
            assert(r.graphs() =~= all);
        }
        r
    }

    fn find_region(&self, block: u64) -> (r: Option<usize>)
        ensures
            match r {
                Some(p) => region_position(self.graphs(), block) == Some(p as int),
                None => region_position(self.graphs(), block) is None,
            },
            r matches Some(p) ==> (p as int) < self.graphs().len() && self.graphs()[p as int].spec_blocks().contains(block),
    {
        proof {
            lemma_region_position(self.graphs(), block);
        }
        let mut i: usize = 0;
        while i < self.regions.len()
            invariant
                0 <= i <= self.regions@.len(),
                self.graphs().len() == self.regions@.len(),
                forall|q: int| 0 <= q < i ==> !(#[trigger] self.graphs()[q]).spec_blocks().contains(block),
            decreases self.regions@.len() - i,
        {
            proof {
                assert(self.graphs()[i as int] == self.regions@[i as int].spec_graph());
            }
            if self.regions[i].graph.position(block).is_some() {
                proof {
                    let r = region_position(self.graphs(), block).unwrap();
                    assert(self.graphs()[i as int].spec_blocks().contains(block));
                    if r < i {
                        assert(!self.graphs()[r].spec_blocks().contains(block));
                    }
                    assert(r == i);
                }
                return Some(i);
            }
            i = i + 1;
        }
        None
    }

    /// Whether the entry block of its region reaches `block`.
    pub fn is_reachable(&self, block: u64) -> (r: bool)
        requires
            self.wf(),
        ensures
            r == (match region_position(self.graphs(), block) {
                Some(p) => self.graphs()[p].reaches_block(
                    self.graphs()[p].spec_blocks().index_of(block),
                ),
                None => false,
            }),
    {
        match self.find_region(block) {
            Some(p) => {
                proof {
                    assert(self.graphs()[p as int] == self.regions@[p as int].spec_graph());
                    assert(self.regions@[p as int].wf());
                    self.regions@[p as int].lemma_wf();
                }
                self.regions[p].graph.is_reachable(block)
            },
            None => false,
        }
    }

    /// Whether `dominator` dominates `block`.
    pub fn dominates_block(&self, dominator: u64, block: u64) -> (r: bool)
        requires
            self.wf(),
        ensures
            r == self.block_dominates(dominator, block),
    {
        if dominator == block {
            return true;
        }
        let p = match self.find_region(block) {
            Some(p) => p,
            None => return false,
        };
        match self.find_region(dominator) {
            Some(q) => {
                if q != p {
                    return false;
                }
            },
            None => return false,
        }
        let region = &self.regions[p];
        proof {
            assert(self.graphs()[p as int] == region.spec_graph());
            assert(region.wf());
            region.lemma_wf();
            region.spec_graph().lemma_wf();
        }
        match region.graph.entry_position() {
            Some(e) => {
                let lb = region.graph.position(block).unwrap();
                let ld = region.graph.position(dominator).unwrap();
                proof {
                    lemma_index_of_unique(region.spec_graph().spec_blocks(), lb as int);
                    lemma_index_of_unique(region.spec_graph().spec_blocks(), ld as int);
                    assert(region.spec_dominators()[lb as int] == region.dominators@[lb as int]@);
                }
                region.dominators[lb][ld]
            },
            None => false,
        }
    }

    /// Whether `dominator` dominates `block` and differs from it.
    pub fn properly_dominates_block(&self, dominator: u64, block: u64) -> (r: bool)
        requires
            self.wf(),
        ensures
            r == (dominator != block && self.block_dominates(dominator, block)),
    {
        dominator != block && self.dominates_block(dominator, block)
    }

    /// The immediate dominator of `block`, if it has one.
    pub fn immediate_dominator(&self, block: u64) -> (r: Option<u64>)
        requires
            self.wf(),
        ensures
            r is None <==> (match region_position(self.graphs(), block) {
                Some(p) => {
                    let g = self.graphs()[p];
                    match g.spec_entry() {
                        Some(e) => g.spec_blocks().index_of(block) == e || !reaches(
                            g.graph(),
                            e,
                            g.spec_blocks().index_of(block) as usize,
                            None,
                        ),
                        None => true,
                    }
                },
                None => true,
            }),
            r matches Some(c) ==> (match region_position(self.graphs(), block) {
                Some(p) => {
                    let g = self.graphs()[p];
                    &&& g.spec_entry() is Some
                    &&& g.spec_blocks().contains(c)
                    &&& is_immediate_dominator(
                        g.graph(),
                        g.spec_entry().unwrap(),
                        g.spec_blocks().index_of(c) as usize,
                        g.spec_blocks().index_of(block) as usize,
                    )
                },
                None => false,
            }),
    {
        let p = match self.find_region(block) {
            Some(p) => p,
            None => return None,
        };
        let region = &self.regions[p];
        proof {
            assert(self.graphs()[p as int] == region.spec_graph());
            assert(self.spec_regions()[p as int] == *region);
            assert(region.wf());
            region.lemma_wf();
            region.spec_graph().lemma_wf();
        }
        let lb = region.graph.position(block).unwrap();
        proof {
            lemma_index_of_unique(region.spec_graph().spec_blocks(), lb as int);
        }
        match region.graph.entry_position() {
            Some(e) => {
                proof {
                    assert(region.spec_immediate()[lb as int] == region.immediate@[lb as int]);
                }
                match region.immediate[lb] {
                    Some(c) => {
                        let id = region.graph.block_at(c);
                        proof {
                            lemma_index_of_unique(region.spec_graph().spec_blocks(), c as int);
                            assert(region.spec_graph().spec_blocks().contains(id)) by {
                                assert(region.spec_graph().spec_blocks()[c as int] == id);
                            }
                        }
                        Some(id)
                    },
                    None => None,
                }
            },
            None => {
                proof {
                    assert(region.spec_immediate().len() == 0);
                }
                None
            },
        }
    }

    fn find_operation(&self, op: u64) -> (r: Option<(u64, usize)>)
        ensures
            r == (match operation_entry(self.spec_positions(), op) {
                Some(i) => Some((self.spec_positions()[i].1, self.spec_positions()[i].2)),
                None => None,
            }),
    {
        let mut i: usize = 0;
        while i < self.operation_positions.len()
            invariant
                0 <= i <= self.operation_positions@.len(),
                self.spec_positions() == self.operation_positions@,
                forall|j: int| 0 <= j < i ==> self.operation_positions@[j].0 != op,
            decreases self.operation_positions@.len() - i,
        {
            let entry = self.operation_positions[i];
            if entry.0 == op {
                proof {
                    let k = operation_entry(self.spec_positions(), op).unwrap();
                    assert((self.spec_positions()[i as int]).0 == op);
                    if k < i {
                        assert(self.operation_positions@[k].0 != op);
                    }
                    assert(k == i);
                }
                return Some((entry.1, entry.2));
            }
            i = i + 1;
        }
        None
    }

    /// Whether operation `dominator` dominates `operation`: an operation dominates itself and
    /// the later operations of its block; across blocks, block dominance decides.
    pub fn dominates_operation(&self, dominator: u64, operation: u64) -> (r: bool)
        requires
            self.wf(),
        ensures
            r == (dominator == operation || match (
                operation_entry(self.spec_positions(), dominator),
                operation_entry(self.spec_positions(), operation),
            ) {
                (Some(i), Some(j)) => {
                    let (_, db, di) = self.spec_positions()[i];
                    let (_, ob, oi) = self.spec_positions()[j];
                    if db == ob {
                        di <= oi
                    } else {
                        self.block_dominates(db, ob)
                    }
                },
                _ => false,
            }),
    {
        if dominator == operation {
            return true;
        }
        let (db, di) = match self.find_operation(dominator) {
            Some(position) => position,
            None => return false,
        };
        let (ob, oi) = match self.find_operation(operation) {
            Some(position) => position,
            None => return false,
        };
        if db == ob {
            return di <= oi;
        }
        self.dominates_block(db, ob)
    }
}

} // verus!
