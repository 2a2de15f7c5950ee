use digraph::edge_list::SuperMir;
use digraph::graph::Graph;

fn demo_graph() -> SuperMir {
    let mut g = SuperMir::new();
    g.add_node(1);
    g.add_node(2);
    g.add_node(3);
    g.add_node(4);
    g.add_edge(1, 3);
    g.add_edge(2, 3);
    g.add_edge(1, 4);
    g
}

fn succs(g: &SuperMir, node: usize) -> Vec<usize> {
    g.successors(node).collect()
}

fn preds(g: &SuperMir, node: usize) -> Vec<usize> {
    g.predecessors(node).collect()
}

#[test]
fn demo_graph_answers_every_query() {
    let g = demo_graph();
    assert_eq!(succs(&g, 1), vec![3, 4]);
    assert_eq!(preds(&g, 3), vec![1, 2]);
    assert_eq!(succs(&g, 4), Vec::<usize>::new());
    assert_eq!(preds(&g, 1), Vec::<usize>::new());
    assert_eq!(g.num_nodes(), 4);
    assert_eq!(g.start_node(), 1);
}

#[test]
fn demo_graph_prints_as_expected() {
    let g = demo_graph();
    let mut lines: Vec<String> = Vec::new();
    lines.push(format!("hello world!"));
    lines.push(format!("1's succs: "));
    for p in g.successors(1) {
        lines.push(format!("{}", p));
    }
    lines.push(format!("3's preds: "));
    for p in g.predecessors(3) {
        lines.push(format!("{}", p));
    }
    assert_eq!(lines, vec!["hello world!", "1's succs: ", "3", "4", "3's preds: ", "1", "2"]);
}

#[test]
fn demo_graph_remaining_queries() {
    let g = demo_graph();
    assert_eq!(succs(&g, 2), vec![3]);
    assert_eq!(succs(&g, 3), Vec::<usize>::new());
    assert_eq!(preds(&g, 4), vec![1]);
    assert_eq!(preds(&g, 2), Vec::<usize>::new());
}

#[test]
fn a_query_asked_twice_gives_the_same_answer() {
    let g = demo_graph();
    let first = succs(&g, 1);
    let second = succs(&g, 1);
    assert_eq!(first, second);
    assert_eq!(preds(&g, 3), preds(&g, 3));
    assert_eq!(g.num_nodes(), 4);
}

#[test]
fn an_iterator_may_be_left_half_way() {
    let g = demo_graph();
    let mut it = g.successors(1);
    assert_eq!(it.next(), Some(3));
    drop(it);
    assert_eq!(succs(&g, 1), vec![3, 4]);
}

#[test]
fn an_exhausted_iterator_stays_exhausted() {
    let g = demo_graph();
    let mut it = g.predecessors(3);
    assert_eq!(it.next(), Some(1));
    assert_eq!(it.next(), Some(2));
    assert_eq!(it.next(), None);
    assert_eq!(it.next(), None);
}
