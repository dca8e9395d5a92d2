use compiler::analysis::cfg::RegionControlFlowGraph;
use compiler::analysis::dominance::DominanceAnalysis;

#[test]
fn computes_dominance_for_diamond_cfg() {
    let entry = 1u64;
    let left = 2u64;
    let right = 3u64;
    let merge = 4u64;
    let graph = RegionControlFlowGraph::build(
        0,
        vec![entry, left, right, merge],
        Some(0),
        &vec![vec![vec![1, 2]], vec![vec![3]], vec![vec![3]], vec![]],
    );
    let operations = vec![(entry, vec![10]), (left, vec![11]), (right, vec![12]), (merge, vec![])];
    let dominance = DominanceAnalysis::new(vec![graph], &operations);

    assert!(dominance.dominates_block(entry, left));

    assert!(dominance.dominates_block(entry, right));

    assert!(dominance.dominates_block(entry, merge));

    assert!(!dominance.dominates_block(left, merge));

    assert!(!dominance.dominates_block(right, merge));

    assert_eq!(dominance.immediate_dominator(merge), Some(entry));
}

#[test]
fn operations_dominate_later_operations_in_same_block() {
    let block = 1u64;
    let first = 10u64;
    let second = 11u64;
    let graph = RegionControlFlowGraph::build(0, vec![block], Some(0), &vec![vec![vec![], vec![]]]);
    let dominance = DominanceAnalysis::new(vec![graph], &vec![(block, vec![first, second])]);

    assert!(dominance.dominates_operation(first, second));

    assert!(!dominance.dominates_operation(second, first));
}

#[test]
fn unreachable_blocks_are_not_dominated() {
    let graph = RegionControlFlowGraph::build(7, vec![1, 2, 3], Some(0), &vec![vec![vec![1]], vec![], vec![vec![1]]]);
    assert!(graph.is_reachable(2));
    assert!(!graph.is_reachable(3));
    assert_eq!(graph.successors(1), vec![2]);
    assert_eq!(graph.predecessors(2), vec![1, 3]);
    let dominance = DominanceAnalysis::new(vec![graph], &vec![]);
    assert!(dominance.dominates_block(1, 2));
    assert!(!dominance.dominates_block(1, 3));
    assert!(!dominance.is_reachable(3));
    assert_eq!(dominance.immediate_dominator(1), None);
    assert_eq!(dominance.immediate_dominator(3), None);
    assert!(!dominance.properly_dominates_block(2, 2));
}

#[test]
fn successors_and_predecessors_agree() {
    let blocks = vec![7u64, 8, 9];
    let graph = RegionControlFlowGraph::build(
        0,
        blocks.clone(),
        Some(0),
        &vec![vec![vec![2, 1], vec![2]], vec![vec![2]], vec![vec![0]]],
    );
    assert_eq!(graph.successors(7), vec![9, 8]);
    for &b in &blocks {
        for &s in &blocks {
            assert_eq!(graph.successors(b).contains(&s), graph.predecessors(s).contains(&b));
        }
    }
    assert_eq!(graph.predecessors(9), vec![7, 8]);
}

#[test]
fn unreachable_block_dominated_only_by_itself() {
    let graph = RegionControlFlowGraph::build(0, vec![1, 2, 3], Some(0), &vec![vec![vec![1]], vec![], vec![vec![1]]]);
    let dominance = DominanceAnalysis::new(vec![graph], &vec![]);
    assert!(dominance.dominates_block(3, 3));
    assert!(!dominance.dominates_block(1, 3));
    assert!(dominance.dominates_block(1, 2));
    assert!(!dominance.dominates_block(3, 2));
}

#[test]
fn built_graph_lists_successors_once_in_first_mention_order() {
    let graph = RegionControlFlowGraph::build(
        5,
        vec![10, 11, 12],
        Some(0),
        &vec![vec![vec![2, 1, 2], vec![1]], vec![vec![0]], vec![]],
    );
    assert_eq!(graph.region(), 5);
    assert_eq!(graph.successors(10), vec![12, 11]);
    assert_eq!(graph.predecessors(10), vec![11]);
    assert_eq!(graph.predecessors(11), vec![10]);
    assert!(graph.is_reachable(12));
}
