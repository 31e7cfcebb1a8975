use hypergen::impls::hypergraph::{
    Desc, DirectedHyperedgeImpl, DirectedHypergraphImpl, HyperedgeImpl, HypergraphImpl, Node,
    NodeType,
};
use hypergen::interfaces::edge::{NodeSet, NodeSetPair};
use hypergen::interfaces::graph::SingleId;
use hypergen::interfaces::hypergraph::{
    build_incidence, build_pairwise, distinct_ids, ContainedHyperedge, DanglingMember, Hypergraph,
    Neighbor, Precursor, Successor,
};
use hypergen::interfaces::relations::PairRule;

fn node(id: usize) -> Node {
    Node::new(id, NodeType::new(0), Desc::from_bits([id as u64; 16]))
}

fn graph(ids: &[usize], edges: &[&[usize]]) -> HypergraphImpl {
    let mut g = HypergraphImpl::new();
    for id in ids {
        g.add_node(node(*id));
    }
    for e in edges {
        g.add_hyperedge(HyperedgeImpl::from_nodes(e.to_vec()));
    }
    g
}

fn directed(ids: &[usize], edges: &[(&[usize], &[usize])]) -> DirectedHypergraphImpl {
    let mut g = DirectedHypergraphImpl::new();
    for id in ids {
        g.add_node(node(*id));
    }
    for (s, d) in edges {
        g.add_hyperedge(DirectedHyperedgeImpl::from_nodes_pair(s.to_vec(), d.to_vec()));
    }
    g
}

#[test]
fn adjacency_of_one_triple() {
    let g = graph(&[1, 2, 3], &[&[1, 2, 3]]);
    let adj = g.get_neighbors().unwrap();
    assert_eq!(adj.len(), 3);
    assert_eq!(adj.get(1).unwrap(), &vec![2, 3]);
    assert_eq!(adj.get(2).unwrap(), &vec![1, 3]);
    assert_eq!(adj.get(3).unwrap(), &vec![1, 2]);
    assert!(adj.get(4).is_none());
    assert!(adj.contains(1));
    assert!(!adj.contains(0));
}

#[test]
fn adjacency_lists_follow_pair_order() {
    let g = graph(&[10, 20, 30, 40], &[&[40, 10, 30], &[20, 10]]);
    let adj = g.get_neighbors().unwrap();
    assert_eq!(adj.get(10).unwrap(), &vec![40, 30, 20]);
    assert_eq!(adj.get(20).unwrap(), &vec![10]);
    assert_eq!(adj.get(30).unwrap(), &vec![40, 10]);
    assert_eq!(adj.get(40).unwrap(), &vec![10, 30]);
}

#[test]
fn arity_m_gives_m_times_m_minus_one_entries() {
    for m in 0..7usize {
        let ids: Vec<usize> = (0..m).collect();
        let g = graph(&ids, &[&ids]);
        let adj = g.get_neighbors().unwrap();
        let mut total = 0;
        for id in &ids {
            let list = adj.get(*id).unwrap();
            assert_eq!(list.len(), m - 1);
            total += list.len();
        }
        assert_eq!(total, m * m.saturating_sub(1));
    }
}

#[test]
fn repeated_members_count_once() {
    let g = graph(&[1, 2], &[&[1, 1, 2]]);
    let adj = g.get_neighbors().unwrap();
    assert_eq!(adj.get(1).unwrap(), &vec![2]);
    assert_eq!(adj.get(2).unwrap(), &vec![1]);
    let h = graph(&[5], &[&[5, 5]]);
    assert_eq!(h.get_neighbors().unwrap().get(5).unwrap(), &Vec::<usize>::new());
}

#[test]
fn no_node_is_its_own_neighbour() {
    let g = graph(&[1, 2, 3], &[&[3, 1, 3, 2, 1], &[2, 2], &[1, 3]]);
    let adj = g.get_neighbors().unwrap();
    assert_eq!(adj.get(1).unwrap(), &vec![3, 2, 3]);
    assert_eq!(adj.get(2).unwrap(), &vec![3, 1]);
    assert_eq!(adj.get(3).unwrap(), &vec![1, 2, 1]);
    for id in 1..4usize {
        assert!(!adj.get(id).unwrap().contains(&id));
    }
}

#[test]
fn arity_counts_distinct_members() {
    let g = graph(&[0, 1, 2], &[&[0, 1, 1, 2, 0]]);
    let adj = g.get_neighbors().unwrap();
    let total: usize = (0..3).map(|id| adj.get(id).unwrap().len()).sum();
    assert_eq!(total, 3 * 2);
}

#[test]
fn members_are_the_ids_in_order_of_first_occurrence() {
    assert_eq!(distinct_ids(&vec![3, 1, 3, 2, 1]), vec![3, 1, 2]);
    assert_eq!(distinct_ids(&vec![]), Vec::<usize>::new());
    assert_eq!(distinct_ids(&vec![7, 7, 7]), vec![7]);
    assert_eq!(distinct_ids(&vec![1, 2, 3]), vec![1, 2, 3]);
}

#[test]
fn member_on_both_sides_of_a_directed_edge_counts_once() {
    let g = directed(&[1, 2, 3], &[(&[1, 2], &[2, 3])]);
    let pre = g.get_precursor().unwrap();
    assert_eq!(pre.get(1).unwrap(), &Vec::<usize>::new());
    assert_eq!(pre.get(2).unwrap(), &vec![1]);
    assert_eq!(pre.get(3).unwrap(), &vec![1, 2]);
    let post = g.get_postcursor().unwrap();
    assert_eq!(post.get(1).unwrap(), &vec![2, 3]);
    assert_eq!(post.get(2).unwrap(), &vec![3]);
    assert_eq!(post.get(3).unwrap(), &Vec::<usize>::new());
}

#[test]
fn node_without_edges_has_empty_list() {
    let g = graph(&[1, 2, 9], &[&[1, 2]]);
    let adj = g.get_neighbors().unwrap();
    assert_eq!(adj.get(9).unwrap(), &Vec::<usize>::new());
    let inc = g.get_hyperedges_list().unwrap();
    assert_eq!(inc.get(9).unwrap(), &Vec::<usize>::new());
}

#[test]
fn empty_graph_has_empty_indices() {
    let g = graph(&[], &[]);
    assert_eq!(g.get_neighbors().unwrap().len(), 0);
    assert_eq!(g.get_hyperedges_list().unwrap().len(), 0);
    assert_eq!(g.get_hyperedges_vector().unwrap().len(), 0);
}

#[test]
fn dangling_member_is_reported_first_in_order() {
    let g = graph(&[1, 2], &[&[1, 2], &[2, 7, 8], &[9]]);
    let want = DanglingMember { edge: 1, position: 1, id: 7 };
    assert_eq!(g.get_neighbors().unwrap_err(), want);
    assert_eq!(g.get_hyperedges_list().unwrap_err(), want);
    assert_eq!(g.get_hyperedges_vector().unwrap_err(), want);
    assert_eq!(g.get_hyperedges_vector_with_edge().unwrap_err(), want);
    assert_eq!(build_pairwise(&g, PairRule::Successor).unwrap_err(), want);
    assert_eq!(build_incidence(&g).unwrap_err(), want);
}

#[test]
fn dangling_single_member_fails_adjacency_too() {
    let g = graph(&[1], &[&[4]]);
    assert_eq!(
        g.get_neighbors().unwrap_err(),
        DanglingMember { edge: 0, position: 0, id: 4 }
    );
}

#[test]
fn precursors_and_successors_of_directed_edge() {
    let g = directed(&[1, 2, 3], &[(&[1, 2], &[3])]);
    let pre = g.get_precursor().unwrap();
    assert_eq!(pre.get(1).unwrap(), &Vec::<usize>::new());
    assert_eq!(pre.get(2).unwrap(), &vec![1]);
    assert_eq!(pre.get(3).unwrap(), &vec![1, 2]);
    let post = g.get_postcursor().unwrap();
    assert_eq!(post.get(1).unwrap(), &vec![2, 3]);
    assert_eq!(post.get(2).unwrap(), &vec![3]);
    assert_eq!(post.get(3).unwrap(), &Vec::<usize>::new());
    let adj = g.get_neighbors().unwrap();
    assert_eq!(adj.get(2).unwrap(), &vec![1, 3]);
}

#[test]
fn directed_entries_are_half_the_mutual_ones() {
    let g = directed(&[0, 1, 2, 3, 4], &[(&[0, 1, 2], &[3, 4])]);
    let pre = g.get_precursor().unwrap();
    let post = g.get_postcursor().unwrap();
    let mut a = 0;
    let mut b = 0;
    for id in 0..5 {
        a += pre.get(id).unwrap().len();
        b += post.get(id).unwrap().len();
    }
    assert_eq!(a, 10);
    assert_eq!(b, 10);
}

#[test]
fn directed_dangling_member_counts_from_source_side() {
    let g = directed(&[1, 2], &[(&[1], &[2, 6])]);
    let want = DanglingMember { edge: 0, position: 2, id: 6 };
    assert_eq!(g.get_precursor().unwrap_err(), want);
    assert_eq!(g.get_postcursor().unwrap_err(), want);
}

#[test]
fn incidence_lists_edge_positions() {
    let g = graph(&[1, 2, 3], &[&[1, 2], &[2, 3], &[2, 2]]);
    let inc = g.get_hyperedges_list().unwrap();
    assert_eq!(inc.len(), 3);
    assert_eq!(inc.get(1).unwrap(), &vec![0]);
    assert_eq!(inc.get(2).unwrap(), &vec![0, 1, 2]);
    assert_eq!(inc.get(3).unwrap(), &vec![1]);
    assert!(inc.contains(3));
    assert!(!inc.contains(4));
}

#[test]
fn contained_hyperedges_are_the_listed_edges() {
    let g = graph(&[1, 2, 3], &[&[1, 2], &[2, 3]]);
    let inc = g.get_hyperedges_list().unwrap();
    let edges = g.hyperedges();
    let of_two = g.contained_hyperedges(&inc, &node(2)).unwrap();
    assert_eq!(of_two.len(), 2);
    assert!(std::ptr::eq(of_two[0], edges[0]));
    assert!(std::ptr::eq(of_two[1], edges[1]));
    assert!(g.contained_hyperedges(&inc, &node(8)).is_none());
    let small = graph(&[2], &[]);
    assert!(small.contained_hyperedges(&inc, &node(2)).is_none());
}

#[test]
fn neighbors_resolve_to_first_bearer() {
    let mut g = graph(&[1, 2], &[&[1, 2]]);
    g.add_node(Node::new(2, NodeType::new(5), Desc::from_bits([77; 16])));
    let adj = g.get_neighbors().unwrap();
    let found = g.neighbors(&adj, &node(1)).unwrap();
    assert_eq!(found.len(), 1);
    assert_eq!(found[0].id(), 2);
    assert_eq!(found[0].node_type(), NodeType::new(0));
    assert!(g.neighbors(&adj, &node(3)).is_none());
    let other = graph(&[1], &[]);
    assert!(other.neighbors(&adj, &node(1)).is_none());
}

#[test]
fn hyperedges_vector_resolves_to_last_bearer() {
    let mut g = graph(&[1, 2], &[&[2, 1], &[]]);
    g.add_node(Node::new(2, NodeType::new(5), Desc::from_bits([77; 16])));
    let v = g.get_hyperedges_vector().unwrap();
    assert_eq!(v.len(), 2);
    assert_eq!(v[0].len(), 2);
    assert_eq!(v[0][0].id(), 2);
    assert_eq!(v[0][0].node_type(), NodeType::new(5));
    assert_eq!(v[0][1].id(), 1);
    assert!(v[1].is_empty());
    let w = g.get_hyperedges_vector_with_edge().unwrap();
    let edges = g.hyperedges();
    assert!(std::ptr::eq(w[0].0, edges[0]));
    assert_eq!(w[0].1.len(), 2);
    assert_eq!(w[0].1[0].node_type(), NodeType::new(5));
}

#[test]
fn containers_keep_insertion_order() {
    let g = graph(&[3, 1, 2], &[&[1], &[3, 2]]);
    let ids: Vec<usize> = g.nodes().iter().map(|n| n.id()).collect();
    assert_eq!(ids, vec![3, 1, 2]);
    assert_eq!(g.hyperedges().len(), 2);
    let d = directed(&[4, 5], &[(&[4], &[5])]);
    assert_eq!(d.nodes().len(), 2);
    assert_eq!(d.hyperedges().len(), 1);
}
