use oxis::ml::{
    check_network, evaluation_seed, minibatch_plan, minibatch_plan_checked, stopping_net_seeds,
};
use oxis::error::OxisError;
use oxis::rng::{path_seed, splitmix64};
use oxis::stochastic::SimConfig;

#[test]
fn sim_config_defaults() {
    let c = SimConfig::default();
    assert_eq!((c.paths, c.steps, c.seed), (100_000, 50, 42));
    assert!(c.check().is_ok());
}

#[test]
fn sim_config_rejects_empty_grids() {
    let no_paths = SimConfig { paths: 0, steps: 10, seed: 1 };
    assert_eq!(no_paths.check().unwrap_err().message(), "paths must be >= 1");
    let no_steps = SimConfig { paths: 10, steps: 0, seed: 1 };
    assert_eq!(no_steps.check().unwrap_err().message(), "steps must be >= 1");
}

#[test]
fn odd_path_counts_round_up_to_whole_pairs() {
    assert_eq!(SimConfig { paths: 1, steps: 1, seed: 0 }.n_pairs(), 1);
    assert_eq!(SimConfig { paths: 10_000, steps: 1, seed: 0 }.n_pairs(), 5_000);
    assert_eq!(SimConfig { paths: 7, steps: 1, seed: 0 }.n_pairs(), 4);
}

#[test]
fn pair_seeds_follow_path_seed() {
    let cfg = SimConfig { paths: 9, steps: 3, seed: 2024 };
    let seeds = cfg.pair_seeds();
    assert_eq!(seeds.len(), 5);
    for (i, s) in seeds.iter().enumerate() {
        assert_eq!(*s, path_seed(2024, i));
    }
}

#[test]
fn minibatches_cover_the_sample() {
    assert_eq!(minibatch_plan(4096, 20), (256, 16, 320));
    assert_eq!(minibatch_plan(100, 3), (100, 1, 3));
    assert_eq!(minibatch_plan(10_000, 2), (625, 16, 32));
    assert_eq!(minibatch_plan(0, 5), (1, 0, 1));
    assert_eq!(minibatch_plan(257, 1), (256, 2, 2));
}

#[test]
fn stopping_networks_get_their_own_seeds() {
    let (init, shuffle) = stopping_net_seeds(11, 3);
    assert_eq!(init, path_seed(11, usize::MAX - 4));
    assert_eq!(shuffle, path_seed(11, 0xD05 ^ 3));
    assert_ne!(init, shuffle);
    assert_eq!(evaluation_seed(11), splitmix64(11));
}

#[test]
fn pair_seeds_never_repeat() {
    let cfg = SimConfig { paths: 20_001, steps: 1, seed: 7 };
    let mut seeds = cfg.pair_seeds();
    assert_eq!(seeds.len(), 10_001);
    seeds.sort_unstable();
    seeds.dedup();
    assert_eq!(seeds.len(), 10_001);
}

#[test]
fn network_shape_checks() {
    assert!(check_network(&[16], 20).is_ok());
    match check_network(&[], 20) {
        Err(OxisError::InvalidInput(m)) => assert_eq!(m, "hidden layers must be non-empty"),
        other => panic!("unexpected {other:?}"),
    }
    match check_network(&[16], 0) {
        Err(OxisError::InvalidInput(m)) => assert_eq!(m, "epochs must be >= 1"),
        other => panic!("unexpected {other:?}"),
    }
}

#[test]
fn checked_plan_matches_and_refuses_overflow() {
    assert_eq!(minibatch_plan_checked(4096, 20), Some(minibatch_plan(4096, 20)));
    assert_eq!(minibatch_plan_checked(4096, 20), Some((256, 16, 320)));
    assert_eq!(minibatch_plan_checked(0, 5), Some((1, 0, 1)));
    // 4096 samples make 16 batches: 16 * (usize::MAX / 8) overflows.
    assert_eq!(minibatch_plan_checked(4096, usize::MAX / 8), None);
    assert_eq!(minibatch_plan_checked(1, usize::MAX), Some((1, 1, usize::MAX)));
}
