use hypergen::impls::hypergraph::{
    copy_ids, Desc, DirectedHyperedgeImpl, HyperedgeImpl, Node, NodeType, DESC_LEN,
};
use hypergen::interfaces::edge::{
    all_in, collect_set, none_in, DirectedHyperedge, Hyperedge, IdVector, NodeSet, NodeSetPair,
};
use hypergen::interfaces::graph::SingleId;
use hypergen::interfaces::typed::Type;
use hypergen::interfaces::vertex::Vertex;
use std::collections::HashSet;

fn edge(ids: &[usize]) -> HyperedgeImpl {
    HyperedgeImpl::from_nodes(ids.to_vec())
}

fn set(ids: &[usize]) -> HashSet<usize> {
    ids.iter().cloned().collect()
}

#[test]
fn id_vector_keeps_order_and_repeats() {
    let e = edge(&[3, 1, 3, 2]);
    assert_eq!(e.id(), vec![3, 1, 3, 2]);
    assert_eq!(e.id_set(), set(&[1, 2, 3]));
    assert_eq!(e.clone().id(), vec![3, 1, 3, 2]);
}

#[test]
fn subset_and_equality_ignore_order() {
    assert!(edge(&[1, 2]).is_subset(&edge(&[2, 3, 1])));
    assert!(!edge(&[1, 4]).is_subset(&edge(&[2, 3, 1])));
    assert!(edge(&[]).is_subset(&edge(&[])));
    assert!(edge(&[1, 2, 2]).is_equal(&edge(&[2, 1])));
    assert!(!edge(&[1, 2]).is_equal(&edge(&[1, 2, 3])));
    assert!(!edge(&[1, 2, 3]).is_equal(&edge(&[1, 2])));
}

#[test]
fn disjointness_and_intersection() {
    assert!(edge(&[1, 2]).is_disjoint(&edge(&[3, 4])));
    assert!(!edge(&[1, 2]).is_disjoint(&edge(&[2, 4])));
    assert!(edge(&[1, 2]).has_intersection(&edge(&[2, 4])));
    assert!(!edge(&[1, 2]).has_intersection(&edge(&[3])));
    assert!(edge(&[]).is_disjoint(&edge(&[])));
    assert!(!edge(&[]).has_intersection(&edge(&[1])));
}

#[test]
fn emptiness_and_singletons() {
    assert!(edge(&[]).is_empty());
    assert!(!edge(&[0]).is_empty());
    assert!(edge(&[7]).is_singleton());
    assert!(edge(&[7, 7, 7]).is_singleton());
    assert!(!edge(&[7, 8]).is_singleton());
    assert!(!edge(&[]).is_singleton());
}

#[test]
fn set_helpers() {
    assert_eq!(collect_set(&vec![4, 4, 5]), set(&[4, 5]));
    assert!(all_in(&vec![1, 1], &set(&[1, 2])));
    assert!(!all_in(&vec![1, 3], &set(&[1, 2])));
    assert!(none_in(&vec![3, 4], &set(&[1, 2])));
    assert!(!none_in(&vec![3, 1], &set(&[1, 2])));
    assert_eq!(copy_ids(&vec![9, 8, 9]), vec![9, 8, 9]);
}

#[test]
fn directed_edge_lists_sources_then_destinations() {
    let e = DirectedHyperedgeImpl::from_nodes_pair(vec![2, 1], vec![3, 2]);
    assert_eq!(e.id(), vec![2, 1, 3, 2]);
    assert_eq!(e.src(), set(&[1, 2]));
    assert_eq!(e.dst(), set(&[2, 3]));
    assert_eq!(e.id_set(), set(&[1, 2, 3]));
    let (s, d) = e.id_set_pair();
    assert_eq!(s, set(&[1, 2]));
    assert_eq!(d, set(&[2, 3]));
    assert!(e.has_intersection(&DirectedHyperedgeImpl::from_nodes_pair(vec![], vec![3])));
    assert_eq!(e.clone().id(), vec![2, 1, 3, 2]);
}

#[test]
fn descriptor_equality_is_bit_exact() {
    let zero = Desc::from_bits([0.0f64.to_bits(); 16]);
    let minus_zero = Desc::from_bits([(-0.0f64).to_bits(); 16]);
    let nan = Desc::from_bits([f64::NAN.to_bits(); 16]);
    assert!(zero != minus_zero);
    assert!(nan == nan);
    assert!(zero == Desc::from_bits([0; 16]));
    let mut bits = [1u64; 16];
    bits[15] = 2;
    assert!(Desc::from_bits(bits) != Desc::from_bits([1; 16]));
    assert_eq!(Desc::from_bits(bits).to_bits(), bits);
    assert_eq!(Desc::from_bits(bits).component(15), 2);
    assert_eq!(Desc::from_bits(bits).component(0), 1);
    assert_eq!(DESC_LEN, 16);
}

#[test]
fn node_parts_and_relabelling() {
    let d = Desc::from_bits([42; 16]);
    let n = Node::new(7, NodeType::new(3), d);
    assert_eq!(n.id(), 7);
    assert_eq!(n.node_type(), NodeType::new(3));
    assert_eq!(n.node_type().type_id(), 3);
    assert!(n.desc() == d);
    let c = n.clone();
    assert_eq!(c, n);
    let m = n.with_id(9);
    assert_eq!(m.id(), 9);
    assert_eq!(m.node_type(), NodeType::new(3));
    assert!(m.desc() == d);
    assert_ne!(m, c);
}
