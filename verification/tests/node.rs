use digraph::graph::Graph;
use digraph::edge_list::SuperMir;
use digraph::node::NodeIndex;

#[test]
fn usize_is_its_own_index() {
    assert_eq!(0usize.as_usize(), 0);
    assert_eq!(5usize.as_usize(), 5);
    assert_eq!(usize::MAX.as_usize(), usize::MAX);
}

#[test]
fn different_handles_have_different_indices() {
    assert_ne!(3usize.as_usize(), 4usize.as_usize());
}

fn index_of_start<G: Graph>(g: &G) -> usize {
    g.start_node().as_usize()
}

fn count_successors<G: Graph>(g: &G, node: G::Node) -> usize {
    g.successors(node).count()
}

#[test]
fn queries_work_through_the_interface() {
    let mut g = SuperMir::new();
    g.add_node(12);
    g.add_edge(12, 1);
    g.add_edge(12, 2);
    assert_eq!(index_of_start(&g), 12);
    assert_eq!(count_successors(&g, 12), 2);
    assert_eq!(count_successors(&g, 1), 0);
}

fn handle<N: NodeIndex>(i: usize) -> N {
    N::from(i)
}

#[test]
fn a_handle_can_be_made_from_an_index() {
    let n: usize = handle(9);
    assert_eq!(n.as_usize(), 9);
}
