use hypergen::impls::standard::{
    HyperLabelGraph, LabelNode, LabeledEdge, SingleLabel, StandardLabeledGraph,
};
use hypergen::interfaces::graph::{Graph, IdPair, SingleId};
use hypergen::interfaces::labeled::{
    DanglingEndpoint, HyperLabeled, Label, Labeled, LabeledAdjacency,
};
use hypergen::interfaces::vertex::Vertex;

type Same = fn(&String, &String) -> bool;

fn same_initial(a: &String, b: &String) -> bool {
    a.chars().next() == b.chars().next()
}

#[test]
fn standard_graph_collects_nodes_and_edges() {
    let mut g = StandardLabeledGraph::new();
    assert!(g.nodes().is_empty());
    assert!(g.edges().is_empty());
    g.add_node(1, "a".to_string());
    g.add_node(2, "b".to_string());
    g.add_edge(1, 2);
    g.add_edge(2, 2);
    let ids: Vec<usize> = g.nodes().iter().map(|n| n.id()).collect();
    assert_eq!(ids, vec![1, 2]);
    assert_eq!(g.nodes()[1].label(), "b");
    let pairs: Vec<(usize, usize)> = g.edges().iter().map(|e| e.pair()).collect();
    assert_eq!(pairs, vec![(1, 2), (2, 2)]);
    assert_eq!(g.edges()[0].label(), "");
}

#[test]
fn standard_graph_compares_node_labels() {
    let g = StandardLabeledGraph::new();
    let a = LabelNode::new(1, "x".to_string());
    let b = LabelNode::new(2, "x".to_string());
    let c = LabelNode::new(1, "y".to_string());
    assert!(g.label_same(&a, &b));
    assert!(!g.label_same(&a, &c));
    assert_eq!(g.get_label(&c), "y");
    let e = LabeledEdge::new(1, 2, SingleLabel::new());
    let f = LabeledEdge::new(2, 1, SingleLabel::new());
    assert!(g.edge_label_same(&e, &f));
    assert!(g.edge_node_label_same(&a, &e, &b, &c, &f, &a));
    assert!(g.get_edge_label(&e) == &SingleLabel::new());
    assert_eq!(e.label_ref().label(), "");
    assert_eq!(a.label_ref(), "x");
}

#[test]
fn labelled_adjacency_lists_outgoing_edges() {
    let mut g = StandardLabeledGraph::new();
    for id in [1u64, 2, 3] {
        g.add_node(id, format!("n{}", id));
    }
    g.add_edge(1, 2);
    g.add_edge(3, 1);
    g.add_edge(1, 3);
    g.add_edge(1, 1);
    let adj = g.get_labeled_adj().unwrap();
    assert_eq!(adj.get(1).unwrap(), &vec![(2, 0), (3, 2), (1, 3)]);
    assert_eq!(adj.get(2).unwrap(), &Vec::<(usize, usize)>::new());
    assert_eq!(adj.get(3).unwrap(), &vec![(1, 1)]);
    assert!(adj.get(4).is_none());
    let one = LabelNode::new(1, "other".to_string());
    assert_eq!(g.get_labeled_post(&adj, &one).unwrap(), &vec![(2, 0), (3, 2), (1, 3)]);
    assert!(g.get_labeled_post(&adj, &LabelNode::new(9, String::new())).is_none());
}

#[test]
fn one_edge_is_listed_once_under_its_source() {
    let mut g = StandardLabeledGraph::new();
    g.add_node(1, "a".to_string());
    g.add_node(2, "b".to_string());
    g.add_edge(1, 2);
    let adj = g.get_labeled_adj().unwrap();
    assert_eq!(adj.get(1).unwrap(), &vec![(2, 0)]);
    assert!(adj.get(2).unwrap().is_empty());
    assert_eq!(g.nodes()[1].id(), 2);
    assert_eq!(g.nodes()[1].label(), "b");
    assert_eq!(g.edges()[0].pair(), (1, 2));
    assert_eq!(g.edges()[0].label(), "");
}

#[test]
fn edges_come_with_their_endpoints_and_label() {
    let mut g = StandardLabeledGraph::new();
    g.add_node(1, "a".to_string());
    g.add_node(2, "b".to_string());
    g.add_node(2, "c".to_string());
    g.add_edge(1, 2);
    g.add_edge(2, 1);
    let triples = g.get_edges_pair_label().unwrap();
    assert_eq!(triples.len(), 2);
    assert_eq!(triples[0].0.label(), "a");
    assert_eq!(triples[0].1.label(), "c");
    assert_eq!(triples[0].2.label(), "");
    assert_eq!(triples[1].0.label(), "c");
    assert_eq!(triples[1].1.label(), "a");
    assert!(StandardLabeledGraph::new().get_edges_pair_label().unwrap().is_empty());
    g.add_edge(1, 9);
    g.add_edge(8, 9);
    assert_eq!(g.get_edges_pair_label().err().unwrap(), DanglingEndpoint { edge: 2, id: 9 });
    let mut h = StandardLabeledGraph::new();
    h.add_edge(4, 5);
    assert_eq!(h.get_edges_pair_label().err().unwrap(), DanglingEndpoint { edge: 0, id: 4 });
}

#[test]
fn labelled_adjacency_reports_the_first_loose_edge() {
    let mut g = StandardLabeledGraph::new();
    g.add_node(1, "a".to_string());
    g.add_edge(1, 1);
    g.add_edge(1, 5);
    g.add_edge(6, 7);
    assert_eq!(g.get_labeled_adj().unwrap_err(), DanglingEndpoint { edge: 1, id: 5 });
    let mut h = StandardLabeledGraph::new();
    h.add_node(1, "a".to_string());
    h.add_edge(6, 7);
    assert_eq!(h.get_labeled_adj().unwrap_err(), DanglingEndpoint { edge: 0, id: 6 });
}

#[test]
fn hyper_label_graph_uses_the_test_it_was_given() {
    let mut g: HyperLabelGraph<String, Same> = HyperLabelGraph::new();
    assert!(g.nodes().is_empty());
    assert!(g.edges().is_empty());
    g.add_node(LabelNode::new(1, "apple".to_string()));
    g.add_node(LabelNode::new(2, "avocado".to_string()));
    g.add_node(LabelNode::new(3, "banana".to_string()));
    g.add_edge(LabeledEdge::new(1, 3, SingleLabel::new()));
    g.set_same_label_fn(same_initial);
    let nodes = g.nodes();
    assert!(g.label_same(nodes[0], nodes[1]));
    assert!(!g.label_same(nodes[0], nodes[2]));
    assert_eq!(g.get_label(nodes[2]), "banana");
    let adj = g.get_labeled_adj().unwrap();
    assert_eq!(adj.get(1).unwrap(), &vec![(3, 0)]);
}

#[test]
fn label_nodes_are_vertices() {
    let n = LabelNode::new(4, "k".to_string());
    assert_eq!(n.id(), 4);
    assert_eq!(n.label(), "k");
    let m = n.clone().with_id(11);
    assert_eq!(m.id(), 11);
    assert_eq!(m.label(), "k");
    assert!(m != n);
    assert_eq!("text".to_string().label(), "text");
    assert_eq!(SingleLabel::new().label(), "");
    assert!(SingleLabel::new() == SingleLabel::new());
}
