use digraph::edge_list::SuperMir;
use digraph::graph::Graph;

fn succs(g: &SuperMir, node: usize) -> Vec<usize> {
    g.successors(node).collect()
}

fn preds(g: &SuperMir, node: usize) -> Vec<usize> {
    g.predecessors(node).collect()
}

#[test]
fn new_graph_is_empty() {
    let g = SuperMir::new();
    assert_eq!(g.num_nodes(), 0);
    assert_eq!(succs(&g, 0), Vec::<usize>::new());
    assert_eq!(preds(&g, 0), Vec::<usize>::new());
}

#[test]
fn node_that_is_no_endpoint_has_no_neighbours() {
    let mut g = SuperMir::new();
    g.add_node(7);
    g.add_node(1);
    g.add_edge(1, 2);
    g.add_edge(2, 3);
    g.add_edge(3, 1);
    assert_eq!(succs(&g, 7), Vec::<usize>::new());
    assert_eq!(preds(&g, 7), Vec::<usize>::new());
    assert_eq!(succs(&g, 99), Vec::<usize>::new());
    assert_eq!(preds(&g, usize::MAX), Vec::<usize>::new());
}

#[test]
fn neighbours_come_in_edge_order_with_repeats() {
    let mut g = SuperMir::new();
    g.add_edge(1, 9);
    g.add_edge(1, 2);
    g.add_edge(3, 1);
    g.add_edge(1, 9);
    g.add_edge(4, 9);
    g.add_edge(1, 5);
    assert_eq!(succs(&g, 1), vec![9, 2, 9, 5]);
    assert_eq!(preds(&g, 9), vec![1, 1, 4]);
    assert_eq!(preds(&g, 1), vec![3]);
    assert_eq!(succs(&g, 3), vec![1]);
    assert_eq!(succs(&g, 9), Vec::<usize>::new());
}

#[test]
fn edge_to_itself_counts_both_ways() {
    let mut g = SuperMir::new();
    g.add_edge(5, 5);
    g.add_edge(5, 6);
    assert_eq!(succs(&g, 5), vec![5, 6]);
    assert_eq!(preds(&g, 5), vec![5]);
}

#[test]
fn edges_may_name_unregistered_nodes() {
    let mut g = SuperMir::new();
    g.add_node(1);
    g.add_edge(10, 20);
    g.add_edge(10, 1);
    assert_eq!(succs(&g, 10), vec![20, 1]);
    assert_eq!(preds(&g, 20), vec![10]);
    assert_eq!(preds(&g, 1), vec![10]);
    assert_eq!(g.num_nodes(), 1);
}

#[test]
fn adding_an_edge_extends_only_its_own_endpoints() {
    let mut g = SuperMir::new();
    g.add_edge(1, 2);
    g.add_edge(3, 4);
    let succs_of_3 = succs(&g, 3);
    let preds_of_4 = preds(&g, 4);
    g.add_edge(1, 6);
    assert_eq!(succs(&g, 1), vec![2, 6]);
    assert_eq!(preds(&g, 6), vec![1]);
    assert_eq!(succs(&g, 3), succs_of_3);
    assert_eq!(preds(&g, 4), preds_of_4);
}

#[test]
fn registering_a_node_changes_no_neighbours() {
    let mut g = SuperMir::new();
    g.add_edge(1, 2);
    g.add_node(1);
    g.add_node(2);
    assert_eq!(succs(&g, 1), vec![2]);
    assert_eq!(preds(&g, 2), vec![1]);
}

#[test]
fn num_nodes_counts_registrations_only() {
    let mut g = SuperMir::new();
    assert_eq!(g.num_nodes(), 0);
    g.add_edge(1, 2);
    g.add_edge(2, 1);
    assert_eq!(g.num_nodes(), 0);
    g.add_node(1);
    assert_eq!(g.num_nodes(), 1);
    g.add_edge(1, 1);
    assert_eq!(g.num_nodes(), 1);
    g.add_node(2);
    g.add_node(3);
    assert_eq!(g.num_nodes(), 3);
}

#[test]
fn a_node_registered_twice_counts_twice() {
    let mut g = SuperMir::new();
    g.add_node(4);
    g.add_node(4);
    assert_eq!(g.num_nodes(), 2);
    assert_eq!(g.start_node(), 4);
}

#[test]
fn start_node_is_the_first_registered() {
    let mut g = SuperMir::new();
    g.add_edge(8, 9);
    g.add_node(6);
    assert_eq!(g.start_node(), 6);
    g.add_node(2);
    assert_eq!(g.start_node(), 6);
    g.add_edge(2, 6);
    g.add_edge(0, 0);
    assert_eq!(g.start_node(), 6);
    g.add_node(0);
    assert_eq!(g.start_node(), 6);
}

#[test]
fn start_node_need_not_be_the_smallest() {
    let mut g = SuperMir::new();
    g.add_node(usize::MAX);
    g.add_node(0);
    assert_eq!(g.start_node(), usize::MAX);
}

#[test]
fn graph_can_be_shown() {
    let mut g = SuperMir::new();
    g.add_node(1);
    g.add_edge(1, 2);
    assert_eq!(format!("{:?}", g), "SuperMir { nodes: [1], edges: [(1, 2)] }");
}
