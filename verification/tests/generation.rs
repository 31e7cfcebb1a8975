use hypergen::generator::hypergraph::{distinct_positions, NodeSample};
use hypergen::generator::{RandomExpand, RandomGenerate};
use hypergen::impls::clusters::GeneratorConfig;
use hypergen::impls::hypergraph::{
    Desc, HyperedgeImpl, HypergraphImpl, Node, NodeType, SAMPLE_SIZE,
};
use hypergen::interfaces::edge::{IdVector, NodeSet};
use hypergen::interfaces::graph::SingleId;
use hypergen::interfaces::hypergraph::{ContainedHyperedge, Hypergraph, Neighbor};
use rand::rngs::StdRng;
use rand::SeedableRng;
use std::collections::HashSet;

fn seeds(n: usize) -> Vec<Node> {
    (0..n)
        .map(|i| Node::new(1000 + i, NodeType::new(i % 2), Desc::from_bits([i as u64; 16])))
        .collect()
}

fn check_integrity(g: &HypergraphImpl) {
    let known: HashSet<usize> = g.nodes().iter().map(|n| n.id()).collect();
    for e in g.hyperedges() {
        for id in e.id() {
            assert!(known.contains(&id));
        }
    }
    assert!(g.get_neighbors().is_ok());
    assert!(g.get_hyperedges_list().is_ok());
}

#[test]
fn generate_gives_n_nodes_with_ids_zero_to_n_and_e_edges() {
    for (n, e) in [(0usize, 0usize), (0, 4), (1, 3), (2, 2), (5, 3), (40, 25)] {
        let mut rng = StdRng::seed_from_u64(11);
        let g = HypergraphImpl::random_generate(seeds(n), e, &mut rng);
        let ids: Vec<usize> = g.nodes().iter().map(|x| x.id()).collect();
        assert_eq!(ids, (0..n).collect::<Vec<usize>>());
        assert_eq!(g.hyperedges().len(), e);
        check_integrity(&g);
        for edge in g.hyperedges() {
            let members = edge.id();
            assert_eq!(members.len(), n.min(SAMPLE_SIZE));
            let distinct: HashSet<usize> = members.iter().cloned().collect();
            assert_eq!(distinct.len(), members.len());
        }
    }
}

#[test]
fn generate_keeps_the_features_of_the_seeds() {
    let mut rng = StdRng::seed_from_u64(3);
    let g = HypergraphImpl::random_generate(seeds(6), 2, &mut rng);
    for (i, n) in g.nodes().iter().enumerate() {
        assert_eq!(n.node_type(), NodeType::new(i % 2));
        assert!(n.desc() == Desc::from_bits([i as u64; 16]));
    }
}

#[test]
fn expand_by_nothing_keeps_the_counts() {
    let mut rng = StdRng::seed_from_u64(5);
    let g = HypergraphImpl::random_generate(seeds(4), 3, &mut rng);
    let h = g.random_expand(Vec::new(), 0, &mut rng);
    assert_eq!(h.nodes().len(), g.nodes().len());
    assert_eq!(h.hyperedges().len(), g.hyperedges().len());
    assert_eq!(h, g);
}

#[test]
fn expand_grows_by_what_it_is_given() {
    for (a, b) in [(0usize, 1usize), (1, 0), (3, 5), (10, 10)] {
        let mut rng = StdRng::seed_from_u64(17);
        let g = HypergraphImpl::random_generate(seeds(4), 3, &mut rng);
        let before = g.clone();
        let fresh: Vec<Node> = (0..a)
            .map(|i| Node::new(500 + i, NodeType::new(1), Desc::from_bits([9; 16])))
            .collect();
        let h = g.random_expand(fresh, b, &mut rng);
        assert_eq!(g, before);
        assert_eq!(h.nodes().len(), g.nodes().len() + a);
        assert_eq!(h.hyperedges().len(), g.hyperedges().len() + b);
        for (p, n) in g.nodes().iter().enumerate() {
            assert_eq!(h.nodes()[p], *n);
        }
        for (k, e) in g.hyperedges().iter().enumerate() {
            assert_eq!(h.hyperedges()[k].id(), e.id());
        }
        for i in 0..a {
            assert_eq!(h.nodes()[4 + i].id(), i);
            assert_eq!(h.nodes()[4 + i].node_type(), NodeType::new(1));
            assert!(h.nodes()[4 + i].desc() == Desc::from_bits([9; 16]));
        }
        let batch: HashSet<usize> = h.nodes()[4..].iter().map(|n| n.id()).collect();
        assert_eq!(batch.len(), a);
        check_integrity(&h);
    }
}

#[test]
fn expand_of_an_empty_graph() {
    let mut rng = StdRng::seed_from_u64(1);
    let g = HypergraphImpl::new();
    let h = g.random_expand(seeds(2), 2, &mut rng);
    assert_eq!(h.nodes().len(), 2);
    assert_eq!(h.nodes()[0].id(), 0);
    assert_eq!(h.nodes()[1].id(), 1);
    assert_eq!(h.hyperedges().len(), 2);
    check_integrity(&h);
}

#[test]
fn sample_draws_distinct_nodes_of_the_graph() {
    let mut rng = StdRng::seed_from_u64(23);
    let g = HypergraphImpl::random_generate(seeds(9), 0, &mut rng);
    let mut seen: HashSet<usize> = HashSet::new();
    for _ in 0..200 {
        let picked = g.sample(&mut rng);
        assert_eq!(picked.len(), SAMPLE_SIZE);
        let ids: HashSet<usize> = picked.iter().map(|n| n.id()).collect();
        assert_eq!(ids.len(), SAMPLE_SIZE);
        for id in ids {
            assert!(id < 9);
            seen.insert(id);
        }
    }
    assert_eq!(seen.len(), 9);
    let mut small = HypergraphImpl::new();
    small.add_node(Node::new(4, NodeType::new(0), Desc::from_bits([0; 16])));
    small.add_hyperedge(HyperedgeImpl::from_nodes(vec![4]));
    let picked = small.sample(&mut rng);
    assert_eq!(picked.len(), 1);
    assert_eq!(picked[0].id(), 4);
    assert!(HypergraphImpl::new().sample(&mut rng).is_empty());
}

#[test]
fn distinct_positions_are_distinct_and_in_range() {
    let mut rng = StdRng::seed_from_u64(2);
    for (length, amount) in [(0usize, 0usize), (1, 1), (5, 0), (5, 5), (30, 7)] {
        for _ in 0..50 {
            let v = distinct_positions(length, amount, &mut rng);
            assert_eq!(v.len(), amount);
            let s: HashSet<usize> = v.iter().cloned().collect();
            assert_eq!(s.len(), amount);
            assert!(v.iter().all(|p| *p < length));
        }
    }
    let mut firsts: HashSet<usize> = HashSet::new();
    for _ in 0..300 {
        firsts.insert(distinct_positions(6, 1, &mut rng)[0]);
    }
    assert_eq!(firsts.len(), 6);
}

#[test]
fn drawn_types_cover_the_range_and_stay_below_k() {
    let mut rng = StdRng::seed_from_u64(99);
    let cfg = GeneratorConfig::new(4, 0.5f64.to_bits(), 0.25f64.to_bits()).unwrap();
    let mut seen: HashSet<usize> = HashSet::new();
    for _ in 0..400 {
        let t = cfg.draw_type(&mut rng);
        assert!(t < 4);
        seen.insert(t);
    }
    assert_eq!(seen.len(), 4);
    let one = GeneratorConfig::new(1, 0, 0).unwrap();
    assert_eq!(one.draw_type(&mut rng), 0);
}

#[test]
fn same_seed_gives_the_same_graph() {
    let mut a = StdRng::seed_from_u64(8);
    let mut b = StdRng::seed_from_u64(8);
    let g = HypergraphImpl::random_generate(seeds(12), 9, &mut a);
    let h = HypergraphImpl::random_generate(seeds(12), 9, &mut b);
    assert_eq!(g, h);
}
