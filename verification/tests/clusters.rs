use hypergen::impls::clusters::{
    judge_attempt, ClusterRegistry, ConfigError, DegenerateVector, DrawPlan, GeneratorConfig,
    MAX_ATTEMPTS, NEGATIVE_ZERO_BITS, ONE_BITS,
};
use hypergen::impls::hypergraph::{Desc, Node, NodeType};
use hypergen::interfaces::graph::SingleId;

fn desc(x: f64) -> Desc {
    Desc::from_bits([x.to_bits(); 16])
}

fn blend(centroid: Desc, candidate: Desc, alpha: f64) -> Desc {
    let c = centroid.to_bits();
    let d = candidate.to_bits();
    let mut out = [0u64; 16];
    for i in 0..16 {
        out[i] = (f64::from_bits(c[i]) * (1.0 - alpha) + f64::from_bits(d[i]) * alpha).to_bits();
    }
    Desc::from_bits(out)
}

#[test]
fn config_accepts_the_closed_unit_interval() {
    for p in [0.0f64, -0.0, 1.0, 0.5, f64::MIN_POSITIVE, 5e-324] {
        let c = GeneratorConfig::new(2, p.to_bits(), p.to_bits()).unwrap();
        assert_eq!(c.k(), 2);
        assert_eq!(c.p_bits(), p.to_bits());
        assert_eq!(c.alpha_bits(), p.to_bits());
    }
    assert_eq!(ONE_BITS, 1.0f64.to_bits());
    assert_eq!(NEGATIVE_ZERO_BITS, (-0.0f64).to_bits());
}

#[test]
fn config_rejects_each_fault() {
    let half = 0.5f64.to_bits();
    assert_eq!(GeneratorConfig::new(0, half, half), Err(ConfigError::NoClusterType));
    assert_eq!(
        GeneratorConfig::new(0, 2.0f64.to_bits(), 2.0f64.to_bits()),
        Err(ConfigError::NoClusterType)
    );
    for bad in [1.0000000000000002f64, 2.0, -1e-300, -1.0, f64::INFINITY, f64::NEG_INFINITY, f64::NAN, -f64::NAN]
    {
        assert_eq!(
            GeneratorConfig::new(3, bad.to_bits(), half),
            Err(ConfigError::AffinityOutOfRange)
        );
        assert_eq!(
            GeneratorConfig::new(3, bad.to_bits(), bad.to_bits()),
            Err(ConfigError::AffinityOutOfRange)
        );
        assert_eq!(
            GeneratorConfig::new(3, half, bad.to_bits()),
            Err(ConfigError::MixingOutOfRange)
        );
    }
}

#[test]
fn unit_interval_test_agrees_with_float_comparison() {
    let samples = [
        0u64, 1, ONE_BITS - 1, ONE_BITS, ONE_BITS + 1, NEGATIVE_ZERO_BITS, NEGATIVE_ZERO_BITS + 1,
        u64::MAX, 0x7FF0_0000_0000_0000, 0x7FF8_0000_0000_0000, 0x3FE0_0000_0000_0000,
        0xBFF0_0000_0000_0000,
    ];
    for bits in samples {
        let x = f64::from_bits(bits);
        let inside = x >= 0.0 && x <= 1.0;
        assert_eq!(GeneratorConfig::new(1, bits, 0).is_ok(), inside);
    }
}

#[test]
fn attempts_are_capped() {
    assert_eq!(judge_attempt(true, 1), Ok(true));
    assert_eq!(judge_attempt(true, MAX_ATTEMPTS + 5), Ok(true));
    assert_eq!(judge_attempt(false, 1), Ok(false));
    assert_eq!(judge_attempt(false, MAX_ATTEMPTS - 1), Ok(false));
    assert_eq!(
        judge_attempt(false, MAX_ATTEMPTS),
        Err(DegenerateVector { attempts: MAX_ATTEMPTS })
    );
    assert_eq!(
        judge_attempt(false, MAX_ATTEMPTS + 1),
        Err(DegenerateVector { attempts: MAX_ATTEMPTS + 1 })
    );
}

#[test]
fn first_observation_in_an_empty_registry_keeps_the_candidate() {
    let mut r = ClusterRegistry::new();
    assert!(r.is_empty());
    assert!(matches!(r.plan(4), DrawPlan::Adopt));
    let got = r.observe_or_update(4, desc(0.25), desc(9.0));
    assert!(got == desc(0.25));
    assert_eq!(r.len(), 1);
    assert!(r.get(4).unwrap() == desc(0.25));
    assert!(r.contains_key(4));
    assert!(!r.contains_key(0));
}

#[test]
fn unseen_type_stores_what_was_derived() {
    let mut r = ClusterRegistry::new();
    r.observe_or_update(0, desc(1.0), desc(0.0));
    match r.plan(1) {
        DrawPlan::Found { centroids } => {
            assert_eq!(centroids.len(), 1);
            assert!(centroids[0] == desc(1.0));
        },
        _ => panic!("type 1 is new to a registry that knows type 0"),
    }
    let got = r.observe_or_update(1, desc(0.5), desc(3.0));
    assert!(got == desc(3.0));
    assert!(r.get(1).unwrap() == desc(3.0));
    assert!(r.get(0).unwrap() == desc(1.0));
    assert_eq!(r.len(), 2);
    let all = r.centroids();
    assert!(all[0] == desc(1.0));
    assert!(all[1] == desc(3.0));
}

#[test]
fn known_type_returns_what_was_derived_and_stores_nothing() {
    let mut r = ClusterRegistry::new();
    r.observe_or_update(0, desc(1.0), desc(0.0));
    match r.plan(0) {
        DrawPlan::Blend { centroid } => assert!(centroid == desc(1.0)),
        _ => panic!("type 0 is known"),
    }
    let got = r.observe_or_update(0, desc(0.5), desc(0.75));
    assert!(got == desc(0.75));
    assert!(r.get(0).unwrap() == desc(1.0));
    assert_eq!(r.len(), 1);
}

#[test]
fn register_inserts_once() {
    let mut r = ClusterRegistry::new();
    assert!(r.register(3, desc(0.1)));
    assert!(!r.register(3, desc(0.2)));
    assert!(r.get(3).unwrap() == desc(0.1));
    assert!(r.register(2, desc(0.3)));
    let all = r.centroids();
    assert_eq!(all.len(), 2);
    assert!(all[0] == desc(0.1));
    assert!(all[1] == desc(0.3));
    assert!(r.get(9).is_none());
    r.clear();
    assert!(r.is_empty());
    assert_eq!(r.len(), 0);
    assert!(r.get(3).is_none());
    assert!(matches!(r.plan(3), DrawPlan::Adopt));
}

#[test]
fn repeated_type_with_full_affinity_and_no_noise_reuses_its_centroid() {
    let cfg = GeneratorConfig::new(2, 1.0f64.to_bits(), 0.0f64.to_bits()).unwrap();
    let alpha = f64::from_bits(cfg.alpha_bits());
    let mut r = ClusterRegistry::new();
    let first = Node::from_random(0, 1, desc(0.3), desc(0.0), &mut r);
    assert!(first.desc() == desc(0.3));
    let mut nodes = vec![first];
    for id in 1..5 {
        let candidate = desc(0.1 * id as f64);
        let derived = match r.plan(1) {
            DrawPlan::Blend { centroid } => blend(centroid, candidate, alpha),
            _ => panic!("type 1 is known"),
        };
        nodes.push(Node::from_random(id, 1, candidate, derived, &mut r));
    }
    for (id, n) in nodes.iter().enumerate() {
        assert_eq!(n.id(), id);
        assert_eq!(n.node_type(), NodeType::new(1));
        assert!(n.desc() == desc(0.3));
    }
    assert_eq!(r.len(), 1);
    assert!(r.get(1).unwrap() == desc(0.3));
}

#[test]
fn node_from_random_registers_new_types_only() {
    let mut r = ClusterRegistry::new();
    let a = Node::from_random(0, 5, desc(0.5), desc(8.0), &mut r);
    assert!(a.desc() == desc(0.5));
    let b = Node::from_random(1, 6, desc(0.6), desc(7.0), &mut r);
    assert!(b.desc() == desc(7.0));
    assert_eq!(b.node_type(), NodeType::new(6));
    let c = Node::from_random(2, 5, desc(0.7), desc(6.0), &mut r);
    assert!(c.desc() == desc(6.0));
    assert_eq!(c.id(), 2);
    assert_eq!(r.len(), 2);
    assert!(r.get(5).unwrap() == desc(0.5));
    assert!(r.get(6).unwrap() == desc(7.0));
}
