use vstd::prelude::*;

use super::graph::{graph_wf, reachable_nodes, reaches};

verus! {

/// The lists of `s` joined in order.
pub open spec fn concat_lists(s: Seq<Seq<usize>>) -> Seq<usize>
    decreases s.len(),
{
    if s.len() == 0 {
        Seq::empty()
    } else {
        concat_lists(s.drop_last()) + s.last()
    }
}

/// The elements of `s` in the order of their first occurrence.
pub open spec fn first_occurrences(s: Seq<usize>) -> Seq<usize>
    decreases s.len(),
{
    if s.len() == 0 {
        Seq::empty()
    } else {
        let d = first_occurrences(s.drop_last());
        if d.contains(s.last()) {
            d
        } else {
            d.push(s.last())
        }
    }
}

/// The nodes `a < k`, in increasing order, that have an edge to `b`.
pub open spec fn predecessor_list(succ: Seq<Seq<usize>>, b: usize, k: int) -> Seq<usize>
    decreases k,
{
    if k <= 0 {
        Seq::empty()
    } else if succ[k - 1].contains(b) {
        predecessor_list(succ, b, k - 1).push((k - 1) as usize)
    } else {
        predecessor_list(succ, b, k - 1)
    }
}

/// The successor lists of the blocks of a region, given the successor lists of the
/// operations of each block: each block's successors in order of first mention.
pub open spec fn block_successors(operation_successors: Seq<Seq<Seq<usize>>>) -> Seq<Seq<usize>> {
    Seq::new(
        operation_successors.len(),
        |b: int| first_occurrences(concat_lists(operation_successors[b])),
    )
}

pub proof fn lemma_push_contains<A>(s: Seq<A>, v: A, x: A)
    ensures
        s.push(v).contains(x) <==> (s.contains(x) || x == v),
{
    if s.push(v).contains(x) {
        let k = choose|k: int| 0 <= k < s.push(v).len() && s.push(v)[k] == x;
        if k < s.len() {
            assert(s[k] == x);
        }
    }
    if s.contains(x) {
        let k = choose|k: int| 0 <= k < s.len() && s[k] == x;
        assert(s.push(v)[k] == x);
    }
    if x == v {
        assert(s.push(v)[s.len() as int] == x);
    }
}

pub proof fn lemma_drop_last_contains<A>(s: Seq<A>, x: A)
    requires
        s.len() > 0,
    ensures
        s.contains(x) <==> (s.drop_last().contains(x) || x == s.last()),
{
    assert(s.drop_last().push(s.last()) =~= s);
    lemma_push_contains(s.drop_last(), s.last(), x);
}

pub proof fn lemma_first_occurrences_contains(s: Seq<usize>, x: usize)
    ensures
        first_occurrences(s).contains(x) <==> s.contains(x),
    decreases s.len(),
{
    if s.len() > 0 {
        lemma_first_occurrences_contains(s.drop_last(), x);
        lemma_first_occurrences_contains(s.drop_last(), s.last());
        lemma_drop_last_contains(s, x);
        let d = first_occurrences(s.drop_last());
        lemma_push_contains(d, s.last(), x);
    }
}

pub proof fn lemma_first_occurrences_no_duplicates(s: Seq<usize>)
    ensures
        first_occurrences(s).no_duplicates(),
    decreases s.len(),
{
    if s.len() > 0 {
        lemma_first_occurrences_no_duplicates(s.drop_last());
    }
}

pub proof fn lemma_concat_lists_contains(s: Seq<Seq<usize>>, x: usize)
    ensures
        concat_lists(s).contains(x) <==> exists|i: int| 0 <= i < s.len() && #[trigger] s[i].contains(x),
    decreases s.len(),
{
    if s.len() > 0 {
        lemma_concat_lists_contains(s.drop_last(), x);
        let c = concat_lists(s.drop_last());
        let t = concat_lists(s);
        if t.contains(x) {
            let k = choose|k: int| 0 <= k < t.len() && t[k] == x;
            if k < c.len() {
                assert(c[k] == x);
                let i = choose|i: int| 0 <= i < s.drop_last().len() && #[trigger] s.drop_last()[i].contains(x);
                assert(s[i] == s.drop_last()[i]);
            } else {
                assert(s.last()[k - c.len()] == x);
                assert(s[s.len() - 1].contains(x));
            }
        }
        if exists|i: int| 0 <= i < s.len() && #[trigger] s[i].contains(x) {
            let i = choose|i: int| 0 <= i < s.len() && #[trigger] s[i].contains(x);
            if i < s.len() - 1 {
                assert(s.drop_last()[i] == s[i]);
                assert(c.contains(x));
                let k = choose|k: int| 0 <= k < c.len() && c[k] == x;
                assert(t[k] == x);
            } else {
                let k = choose|k: int| 0 <= k < s.last().len() && s.last()[k] == x;
                assert(t[c.len() + k] == x);
            }
        }
    }
}

pub proof fn lemma_predecessor_list_bound(succ: Seq<Seq<usize>>, b: usize, k: int)
    ensures
        forall|i: int|
            0 <= i < predecessor_list(succ, b, k).len() ==> (#[trigger] predecessor_list(
                succ,
                b,
                k,
            )[i] as int) < k,
    decreases k,
{
    if k > 0 {
        lemma_predecessor_list_bound(succ, b, k - 1);
        let p = predecessor_list(succ, b, k - 1);
        let q = predecessor_list(succ, b, k);
        assert forall|i: int| 0 <= i < q.len() implies (#[trigger] q[i] as int) < k by {
            if i < p.len() {
                assert(q[i] == p[i]);
            }
        }
    }
}

/// `predecessor_list` holds exactly the nodes with an edge to `b`.
pub proof fn lemma_predecessor_list_contains(succ: Seq<Seq<usize>>, b: usize, k: int, a: usize)
    requires
        0 <= k <= succ.len(),
        succ.len() <= usize::MAX,
    ensures
        predecessor_list(succ, b, k).contains(a) <==> ((a as int) < k && succ[a as int].contains(b)),
    decreases k,
{
    if k > 0 {
        lemma_predecessor_list_contains(succ, b, k - 1, a);
        let p = predecessor_list(succ, b, k - 1);
        if succ[k - 1].contains(b) {
            lemma_push_contains(p, (k - 1) as usize, a);
        }
    }
}

/// In a sequence without duplicates, `index_of` finds the one position of an element.
pub proof fn lemma_index_of_unique(s: Seq<u64>, i: int)
    requires
        s.no_duplicates(),
        0 <= i < s.len(),
    ensures
        s.index_of(s[i]) == i,
{
    let j = s.index_of(s[i]);
    assert(0 <= j < s.len() && s[j] == s[i]);
}

fn contains_index(v: &Vec<usize>, x: usize) -> (r: bool)
    ensures
        r == v@.contains(x),
{
    let mut i: usize = 0;
    while i < v.len()
        invariant
            0 <= i <= v@.len(),
            forall|k: int| 0 <= k < i ==> v@[k] != x,
        decreases v@.len() - i,
    {
        if v[i] == x {
            return true;
        }
        i = i + 1;
    }
    false
}

fn contains_handle(v: &Vec<u64>, x: u64) -> (r: bool)
    ensures
        r == v@.contains(x),
{
    let mut i: usize = 0;
    while i < v.len()
        invariant
            0 <= i <= v@.len(),
            forall|k: int| 0 <= k < i ==> v@[k] != x,
        decreases v@.len() - i,
    {
        if v[i] == x {
            return true;
        }
        i = i + 1;
    }
    false
}

/// Position of `x` in `v`.
pub fn position_of(v: &Vec<u64>, x: u64) -> (r: Option<usize>)
    ensures
        match r {
            Some(i) => (i as int) < v@.len() && v@[i as int] == x && forall|k: int|
                0 <= k < i ==> v@[k] != x,
            None => !v@.contains(x),
        },
{
    let mut i: usize = 0;
    while i < v.len()
        invariant
            0 <= i <= v@.len(),
            forall|k: int| 0 <= k < i ==> v@[k] != x,
        decreases v@.len() - i,
    {
        if v[i] == x {
            return Some(i);
        }
        i = i + 1;
    }
    None
}

/// The successors of one block: the successors of its operations in order of first mention.
fn collect_block_successors(operations: &Vec<Vec<usize>>) -> (r: Vec<usize>)
    ensures
        r@ == first_occurrences(concat_lists(operations@.map_values(|v: Vec<usize>| v@))),
{
    let ghost lists = operations@.map_values(|v: Vec<usize>| v@);
    let mut result: Vec<usize> = Vec::new();
    let mut i: usize = 0;
    while i < operations.len()
        invariant
            lists == operations@.map_values(|v: Vec<usize>| v@),
            0 <= i <= operations@.len(),
            result@ == first_occurrences(concat_lists(lists.take(i as int))),
        decreases operations@.len() - i,
    {
        let row = &operations[i];
        let mut j: usize = 0;
        while j < row.len()
            invariant
                lists == operations@.map_values(|v: Vec<usize>| v@),
                0 <= i < operations@.len(),
                row@ == lists[i as int],
                0 <= j <= row@.len(),
                result@ == first_occurrences(concat_lists(lists.take(i as int)) + row@.take(j as int)),
            decreases row@.len() - j,
        {
            let x = row[j];
            let ghost before = concat_lists(lists.take(i as int)) + row@.take(j as int);
            proof {
                assert((before.push(x)).drop_last() =~= before);
                assert(concat_lists(lists.take(i as int)) + row@.take(j + 1) =~= before.push(x));
            }
            if !contains_index(&result, x) {
                result.push(x);
            }
            j = j + 1;
        }
        proof {
            assert(row@.take(row@.len() as int) =~= row@);
            assert(lists.take(i + 1).drop_last() =~= lists.take(i as int));
            assert(lists.take(i + 1).last() == row@);
        }
        i = i + 1;
    }
    proof {
        assert(lists.take(operations@.len() as int) =~= lists);
    }
    result
}

/// Control flow of one region: its blocks, their successors and predecessors, and which blocks
/// the entry block reaches. Blocks are named by their ids; edges are kept as positions in
/// `blocks`.
#[derive(Debug)]
pub struct RegionControlFlowGraph {
    region: u64,
    entry: Option<usize>,
    blocks: Vec<u64>,
    successors: Vec<Vec<usize>>,
    predecessors: Vec<Vec<usize>>,
    reachable: Vec<bool>,
}

impl RegionControlFlowGraph {
    /// The successor lists, by block position.
    pub closed spec fn graph(&self) -> Seq<Seq<usize>> {
        self.successors@.map_values(|v: Vec<usize>| v@)
    }

    pub closed spec fn spec_region(&self) -> u64 {
        self.region
    }

    pub closed spec fn spec_blocks(&self) -> Seq<u64> {
        self.blocks@
    }

    pub closed spec fn spec_entry(&self) -> Option<usize> {
        self.entry
    }

    pub closed spec fn spec_predecessors(&self) -> Seq<Seq<usize>> {
        self.predecessors@.map_values(|v: Vec<usize>| v@)
    }

    pub closed spec fn spec_reachable(&self) -> Seq<bool> {
        self.reachable@
    }

    /// The successors of `block`, as block ids, in order of first mention.
    pub open spec fn successor_blocks(&self, block: u64) -> Seq<u64> {
        self.graph()[self.spec_blocks().index_of(block)].map_values(|i: usize| self.spec_blocks()[i as int])
    }

    /// The predecessors of `block`, as block ids, in block order.
    pub open spec fn predecessor_blocks(&self, block: u64) -> Seq<u64> {
        predecessor_list(
            self.graph(),
            self.spec_blocks().index_of(block) as usize,
            self.spec_blocks().len() as int,
        ).map_values(|i: usize| self.spec_blocks()[i as int])
    }

    /// The block at position `b` is reached from the entry block.
    pub open spec fn reaches_block(&self, b: int) -> bool {
        match self.spec_entry() {
            Some(e) => reaches(self.graph(), e, b as usize, None),
            None => false,
        }
    }

    /// What well-formedness gives to users of the graph.
    pub proof fn lemma_wf(&self)
        requires
            self.wf(),
        ensures
            self.spec_blocks().no_duplicates(),
            self.spec_blocks().len() <= usize::MAX,
            self.graph().len() == self.spec_blocks().len(),
            graph_wf(self.graph()),
            self.spec_entry() matches Some(e) ==> (e as int) < self.spec_blocks().len(),
            self.spec_reachable().len() == self.spec_blocks().len(),
            forall|b: int|
                0 <= b < self.spec_blocks().len() ==> (#[trigger] self.spec_reachable()[b]
                    <==> self.reaches_block(b)),
    {
        assert(self.blocks.len() == self.blocks@.len());
    }

    pub closed spec fn wf(&self) -> bool {
        &&& self.blocks@.no_duplicates()
        &&& self.successors@.len() == self.blocks@.len()
        &&& self.predecessors@.len() == self.blocks@.len()
        &&& self.reachable@.len() == self.blocks@.len()
        &&& graph_wf(self.graph())
        &&& (self.entry matches Some(e) ==> (e as int) < self.blocks@.len())
        &&& forall|b: int|
            0 <= b < self.blocks@.len() ==> #[trigger] self.spec_predecessors()[b]
                == predecessor_list(self.graph(), b as usize, self.blocks@.len() as int)
        &&& forall|b: int| 0 <= b < self.blocks@.len() ==> (#[trigger] self.reachable@[b] <==> self.reaches_block(b))
    }

    /// Builds the graph of a region from the successor lists of the operations of each
    /// block (as positions in `blocks`), in block order.
    pub fn build(
        region: u64,
        blocks: Vec<u64>,
        entry: Option<usize>,
        operation_successors: &Vec<Vec<Vec<usize>>>,
    ) -> (graph: RegionControlFlowGraph)
        requires
            blocks@.no_duplicates(),
            operation_successors@.len() == blocks@.len(),
            entry matches Some(e) ==> (e as int) < blocks@.len(),
            forall|b: int, o: int, k: int|
                0 <= b < operation_successors@.len() && 0 <= o < operation_successors@[b]@.len()
                    && 0 <= k < operation_successors@[b]@[o]@.len() ==> (
                #[trigger] operation_successors@[b]@[o]@[k] as int) < blocks@.len(),
        ensures
            graph.wf(),
            graph.spec_region() == region,
            graph.spec_blocks() == blocks@,
            graph.spec_entry() == entry,
            graph.graph() == block_successors(
                operation_successors@.map_values(
                    |ops: Vec<Vec<usize>>| ops@.map_values(|v: Vec<usize>| v@),
                ),
            ),
    {
        let n = blocks.len();
        let ghost input = operation_successors@.map_values(
            |ops: Vec<Vec<usize>>| ops@.map_values(|v: Vec<usize>| v@),
        );
        let mut successors: Vec<Vec<usize>> = Vec::new();
        for b in 0..n
            invariant
                n == blocks@.len(),
                operation_successors@.len() == n,
                input == operation_successors@.map_values(
                    |ops: Vec<Vec<usize>>| ops@.map_values(|v: Vec<usize>| v@),
                ),
                forall|c: int, o: int, k: int|
                    0 <= c < operation_successors@.len() && 0 <= o < operation_successors@[c]@.len()
                        && 0 <= k < operation_successors@[c]@[o]@.len() ==> (
                    #[trigger] operation_successors@[c]@[o]@[k] as int) < n,
                successors@.len() == b,
                forall|c: int|
                    0 <= c < b ==> #[trigger] successors@[c]@ == first_occurrences(
                        concat_lists(input[c]),
                    ),
        {
            let row = collect_block_successors(&operation_successors[b]);
            successors.push(row);
        }
        let ghost g = successors@.map_values(|v: Vec<usize>| v@);
        proof {
            assert(g =~= block_successors(input));
            assert forall|a: int, k: int| 0 <= a < g.len() && 0 <= k < g[a].len() implies (
            #[trigger] g[a][k] as int) < g.len() by {
                let x = g[a][k];
                assert(g[a].contains(x));
                lemma_first_occurrences_contains(concat_lists(input[a]), x);
                lemma_concat_lists_contains(input[a], x);
                let o = choose|o: int| 0 <= o < input[a].len() && #[trigger] input[a][o].contains(x);
                let j = choose|j: int| 0 <= j < input[a][o].len() && input[a][o][j] == x;
                assert(operation_successors@[a]@[o]@[j] == x);
            }
        }
        let mut predecessors: Vec<Vec<usize>> = Vec::new();
        for b in 0..n
            invariant
                n == blocks@.len(),
                successors@.len() == n,
                g == successors@.map_values(|v: Vec<usize>| v@),
                predecessors@.len() == b,
                forall|c: int|
                    0 <= c < b ==> #[trigger] predecessors@[c]@ == predecessor_list(g, c as usize, n as int),
        {
            let mut row: Vec<usize> = Vec::new();
            for a in 0..n
                invariant
                    n == blocks@.len(),
                    successors@.len() == n,
                    g == successors@.map_values(|v: Vec<usize>| v@),
                    0 <= b < n,
                    row@ == predecessor_list(g, b as usize, a as int),
            {
                if contains_index(&successors[a], b) {
                    row.push(a);
                }
            }
            predecessors.push(row);
        }
        let reachable = match entry {
            Some(e) => reachable_nodes(&successors, e, None),
            None => {
                let mut none: Vec<bool> = Vec::new();
                for b in 0..n
                    invariant
                        none@.len() == b,
                        forall|c: int| 0 <= c < b ==> !none@[c],
                {
                    none.push(false);
                }
                none
            },
        };
        let graph = RegionControlFlowGraph {
            region,
            entry,
            blocks,
            successors,
            predecessors,
            reachable,
        };
        proof {
            assert(graph.graph() == g);
            assert forall|b: int| 0 <= b < n implies #[trigger] graph.spec_predecessors()[b]
                == predecessor_list(graph.graph(), b as usize, n as int) by {
                assert(graph.spec_predecessors()[b] == predecessors@[b]@);
            }
        }
        graph
    }

    /// Position of the entry block.
    pub fn entry_position(&self) -> (r: Option<usize>)
        ensures
            r == self.spec_entry(),
    {
        self.entry
    }

    /// The successor lists by block position.
    pub fn successor_table(&self) -> (r: &Vec<Vec<usize>>)
        ensures
            r@.map_values(|v: Vec<usize>| v@) == self.graph(),
            r@.len() == self.graph().len(),
    {
        &self.successors
    }

    /// The id of the block at position `i`.
    pub fn block_at(&self, i: usize) -> (r: u64)
        requires
            (i as int) < self.spec_blocks().len(),
        ensures
            r == self.spec_blocks()[i as int],
    {
        self.blocks[i]
    }

    pub fn region(&self) -> (r: u64)
        ensures
            r == self.spec_region(),
    {
        self.region
    }

    /// The entry block's id.
    pub fn entry(&self) -> (r: Option<u64>)
        requires
            self.wf(),
        ensures
            r == (match self.spec_entry() {
                Some(e) => Some(self.spec_blocks()[e as int]),
                None => None,
            }),
    {
        match self.entry {
            Some(e) => Some(self.blocks[e]),
            None => None,
        }
    }

    pub fn blocks(&self) -> (r: &[u64])
        ensures
            r@ == self.spec_blocks(),
    {
        self.blocks.as_slice()
    }

    /// Position of a block of this region.
    pub fn position(&self, block: u64) -> (r: Option<usize>)
        ensures
            match r {
                Some(i) => (i as int) < self.spec_blocks().len() && self.spec_blocks()[i as int]
                    == block,
                None => !self.spec_blocks().contains(block),
            },
    {
        position_of(&self.blocks, block)
    }

    fn ids(&self, positions: &Vec<usize>) -> (r: Vec<u64>)
        requires
            forall|k: int| 0 <= k < positions@.len() ==> (#[trigger] positions@[k] as int) < self.blocks@.len(),
        ensures
            r@ == positions@.map_values(|i: usize| self.blocks@[i as int]),
    {
        let mut r: Vec<u64> = Vec::new();
        for k in 0..positions.len()
            invariant
                forall|j: int| 0 <= j < positions@.len() ==> (#[trigger] positions@[j] as int) < self.blocks@.len(),
                r@ == positions@.take(k as int).map_values(|i: usize| self.blocks@[i as int]),
        {
            r.push(self.blocks[positions[k]]);
            proof {
                assert(positions@.take(k + 1).map_values(|i: usize| self.blocks@[i as int])
                    =~= positions@.take(k as int).map_values(|i: usize| self.blocks@[i as int]).push(
                    self.blocks@[positions@[k as int] as int],
                ));
            }
        }
        proof {
            assert(positions@.take(positions@.len() as int) =~= positions@);
        }
        r
    }

    /// The successors of `block`, in order of first mention; empty for a block outside the
    /// region.
    pub fn successors(&self, block: u64) -> (r: Vec<u64>)
        requires
            self.wf(),
        ensures
            self.spec_blocks().contains(block) ==> r@ == self.successor_blocks(block),
            !self.spec_blocks().contains(block) ==> r@.len() == 0,
    {
        match position_of(&self.blocks, block) {
            Some(b) => {
                proof {
                    lemma_index_of_unique(self.blocks@, b as int);
                }
                let ghost gb = self.graph()[b as int];
                proof {
                    assert forall|k: int| 0 <= k < self.successors@[b as int]@.len() implies (
                    #[trigger] self.successors@[b as int]@[k] as int) < self.blocks@.len() by {
                        assert(self.graph()[b as int][k] == self.successors@[b as int]@[k]);
                    }
                }
                self.ids(&self.successors[b])
            },
            None => Vec::new(),
        }
    }

    /// The predecessors of `block`, in block order; empty for a block outside the region.
    pub fn predecessors(&self, block: u64) -> (r: Vec<u64>)
        requires
            self.wf(),
        ensures
            self.spec_blocks().contains(block) ==> r@ == self.predecessor_blocks(block),
            !self.spec_blocks().contains(block) ==> r@.len() == 0,
    {
        match position_of(&self.blocks, block) {
            Some(b) => {
                proof {
                    lemma_index_of_unique(self.blocks@, b as int);
                    assert(self.spec_predecessors()[b as int] == self.predecessors@[b as int]@);
                    lemma_predecessor_list_bound(self.graph(), b, self.blocks@.len() as int);
                }
                self.ids(&self.predecessors[b])
            },
            None => Vec::new(),
        }
    }

    /// Whether the entry block reaches `block`.
    pub fn is_reachable(&self, block: u64) -> (r: bool)
        requires
            self.wf(),
        ensures
            r == (self.spec_blocks().contains(block) && self.reaches_block(
                self.spec_blocks().index_of(block),
            )),
    {
        match position_of(&self.blocks, block) {
            Some(b) => {
                proof {
                    lemma_index_of_unique(self.blocks@, b as int);
                }
                self.reachable[b]
            },
            None => false,
        }
    }

    /// The blocks the entry reaches, in block order.
    pub fn reachable_blocks(&self) -> (r: Vec<u64>)
        requires
            self.wf(),
        ensures
            forall|x: u64| r@.contains(x) <==> (self.spec_blocks().contains(x) && self.reaches_block(
                self.spec_blocks().index_of(x),
            )),
    {
        let mut r: Vec<u64> = Vec::new();
        for b in 0..self.blocks.len()
            invariant
                self.wf(),
                forall|x: u64|
                    r@.contains(x) <==> exists|c: int|
                        0 <= c < b && self.blocks@[c] == x && #[trigger] self.reachable@[c],
        {
            if self.reachable[b] {
                let ghost before = r@;
                r.push(self.blocks[b]);
                proof {
                    assert forall|x: u64| r@.contains(x) <==> exists|c: int|
                        0 <= c < b + 1 && self.blocks@[c] == x && #[trigger] self.reachable@[c] by {
                        if r@.contains(x) && !before.contains(x) {
                            let k = choose|k: int| 0 <= k < r@.len() && r@[k] == x;
                            assert(k == before.len());
                        }
                        if before.contains(x) {
                            let k = choose|k: int| 0 <= k < before.len() && before[k] == x;
                            assert(r@[k] == x);
                        }
                        if exists|c: int| 0 <= c < b + 1 && self.blocks@[c] == x && #[trigger] self.reachable@[c] {
                            let c = choose|c: int| 0 <= c < b + 1 && self.blocks@[c] == x && #[trigger] self.reachable@[c];
                            if c == b {
                                assert(r@[before.len() as int] == x);
                            }
                        }
                    }
                }
            }
        }
        proof {
            assert forall|x: u64| r@.contains(x) <==> (self.spec_blocks().contains(x) && self.reaches_block(
                self.spec_blocks().index_of(x),
            )) by {
                if r@.contains(x) {
                    let c = choose|c: int| 0 <= c < self.blocks@.len() && self.blocks@[c] == x && #[trigger] self.reachable@[c];
                    lemma_index_of_unique(self.blocks@, c);
                    assert(self.blocks@.contains(x)) by {
                        assert(self.blocks@[c] == x);
                    }
                }
                if self.spec_blocks().contains(x) && self.reaches_block(self.spec_blocks().index_of(x)) {
                    let i = self.blocks@.index_of(x);
                    assert(self.reachable@[i]);
                }
            }
        }
        r
    }
}

} // verus!
