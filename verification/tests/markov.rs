use seqterm::markov::{pick_target, LcgRng, MarkovChain, StochasticGate};

#[test]
fn markov_train_counts_transitions() {
    let mut c = MarkovChain::new();
    c.train(&[60, 62, 60, 62, 64]);
    assert_eq!(c.total_of(60), Some(2));
    assert_eq!(c.total_of(62), Some(2));
    assert_eq!(c.total_of(64), None);
    let mut t = c.transitions_from(62).unwrap();
    t.sort();
    assert_eq!(t, vec![(60, 1), (64, 1)]);
    assert!(c.transitions_from(64).is_none());
    c.reset();
    assert_eq!(c.total_of(60), None);
}

#[test]
fn pick_target_walks_running_totals() {
    let t = vec![(60u8, 2u32), (64, 3)];
    assert_eq!(pick_target(&t, 0, 1), 60);
    assert_eq!(pick_target(&t, 1, 1), 60);
    assert_eq!(pick_target(&t, 2, 1), 64);
    assert_eq!(pick_target(&t, 4, 1), 64);
    assert_eq!(pick_target(&t, 5, 1), 1);
    assert_eq!(pick_target(&[], 0, 7), 7);
}

#[test]
fn lcg_is_deterministic() {
    let mut a = LcgRng::new(42);
    let mut b = LcgRng::new(42);
    let x = a.next_u64();
    assert_eq!(x, b.next_u64());
    let s0 = 42u64 ^ 0x6c62_272e_07bb_0142;
    assert_eq!(x, s0.wrapping_mul(6_364_136_223_846_793_005).wrapping_add(1_442_695_040_888_963_407));
    let _g = StochasticGate::new(1);
}
