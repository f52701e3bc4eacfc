use rand::rngs::StdRng;
use rand::SeedableRng;
use rusty_mc::model::{project_list, Casedata, ModelError, PriceDeck, Project, ProjectList};
use rusty_mc::sampler::SampleError;
use rusty_mc::stats::{percentile_index, rank_stats, StatsError};
use rusty_mc::traversal::{selected_outcome_group, TraversalError};
use rusty_mc::trials::monte_carlo_trials;

fn case(weight: u64, leads_to: &[&str], months: usize) -> Casedata<f64> {
    Casedata {
        weight,
        outcome_projects: leads_to.iter().map(|s| s.to_string()).collect(),
        gross_oil: vec![1.0; months],
        gross_gas: vec![2.0; months],
        monthly_capital: vec![0.5; months],
        monthly_operating_expenses: vec![0.1; months],
    }
}

fn project(name: &str, outcomes: Vec<Casedata<f64>>) -> Project<f64> {
    Project {
        name: name.to_string(),
        oil_shrink_factor: 0.02,
        gas_shrink_factor: 0.05,
        working_interest: 1.0,
        net_revenue_interest: 0.8,
        tax_rate: 0.1,
        is_root: None,
        outcomes,
    }
}

fn registry(v: Vec<Project<f64>>) -> ProjectList<f64> {
    match project_list(v) {
        Ok(pl) => pl,
        Err(e) => panic!("bad registry: {:?}", e),
    }
}

fn roots(names: &[&str]) -> Vec<String> {
    names.iter().map(|s| s.to_string()).collect()
}

#[test]
fn weighted_sampling_follows_weights() {
    let p = project("A", vec![case(1, &[], 36), case(3, &[], 36)]);
    let mut rng = StdRng::seed_from_u64(7);
    let mut second = 0usize;
    for _ in 0..10_000 {
        let j = p.outcome_selector(&mut rng).unwrap();
        assert!(j < 2);
        if j == 1 {
            second += 1;
        }
    }
    let freq = second as f64 / 10_000.0;
    assert!(freq > 0.70 && freq < 0.80, "frequency {}", freq);
}

#[test]
fn zero_weight_case_is_never_drawn() {
    let p = project("A", vec![case(0, &[], 36), case(5, &[], 36), case(0, &[], 36)]);
    let mut rng = StdRng::seed_from_u64(1);
    for _ in 0..1000 {
        assert_eq!(p.outcome_selector(&mut rng), Ok(1));
    }
}

#[test]
fn sampler_errors() {
    let mut rng = StdRng::seed_from_u64(3);
    let empty = project("E", vec![]);
    assert_eq!(empty.outcome_selector(&mut rng), Err(SampleError::NoCases));
    let zeros = project("Z", vec![case(0, &[], 36), case(0, &[], 36)]);
    assert_eq!(zeros.outcome_selector(&mut rng), Err(SampleError::AllWeightsZero));
    let big = project("B", vec![case(u64::MAX, &[], 36), case(1, &[], 36)]);
    assert_eq!(big.outcome_selector(&mut rng), Err(SampleError::WeightOverflow));
    let full = project("F", vec![case(u64::MAX - 1, &[], 36), case(1, &[], 36)]);
    assert!(full.outcome_selector(&mut rng).is_ok());
}

#[test]
fn traversal_of_two_levels_yields_two_pairs() {
    let pl = registry(vec![
        project("ROOT", vec![case(1, &["LEAF"], 36)]),
        project("LEAF", vec![case(1, &[], 36), case(2, &[], 36)]),
    ]);
    let mut rng = StdRng::seed_from_u64(11);
    for _ in 0..500 {
        let g = selected_outcome_group(&roots(&["ROOT"]), &pl, &mut rng).unwrap();
        assert_eq!(g.len(), 2);
        assert_eq!(g[0], (0, 0));
        assert_eq!(g[1].0, 1);
        assert!(g[1].1 < 2);
    }
}

#[test]
fn traversal_follows_chains_to_any_depth() {
    let pl = registry(vec![
        project("A", vec![case(1, &["B"], 36)]),
        project("B", vec![case(1, &["C"], 36)]),
        project("C", vec![case(1, &["D"], 36)]),
        project("D", vec![case(1, &[], 36)]),
    ]);
    let mut rng = StdRng::seed_from_u64(5);
    let g = selected_outcome_group(&roots(&["A"]), &pl, &mut rng).unwrap();
    assert_eq!(g, vec![(0, 0), (1, 0), (2, 0), (3, 0)]);
}

#[test]
fn traversal_samples_each_occurrence() {
    let pl = registry(vec![
        project("A", vec![case(1, &["B", "B"], 36)]),
        project("B", vec![case(1, &[], 36)]),
        project("C", vec![case(1, &["B"], 36)]),
    ]);
    let mut rng = StdRng::seed_from_u64(9);
    let g = selected_outcome_group(&roots(&["A", "C"]), &pl, &mut rng).unwrap();
    assert_eq!(g, vec![(0, 0), (1, 0), (1, 0), (2, 0), (1, 0)]);
}

#[test]
fn traversal_with_no_roots_is_empty() {
    let pl = registry(vec![project("A", vec![case(1, &[], 36)])]);
    let mut rng = StdRng::seed_from_u64(9);
    let g = selected_outcome_group(&roots(&[]), &pl, &mut rng).unwrap();
    assert!(g.is_empty());
}

#[test]
fn traversal_reports_unknown_names() {
    let pl = registry(vec![project("A", vec![case(1, &["GHOST"], 36)])]);
    let mut rng = StdRng::seed_from_u64(2);
    assert_eq!(
        selected_outcome_group(&roots(&["MISSING"]), &pl, &mut rng),
        Err(TraversalError::UnknownProject("MISSING".to_string()))
    );
    assert_eq!(
        selected_outcome_group(&roots(&["A"]), &pl, &mut rng),
        Err(TraversalError::UnknownProject("GHOST".to_string()))
    );
}

#[test]
fn traversal_reports_unsamplable_project() {
    let pl = registry(vec![
        project("A", vec![case(1, &["B"], 36)]),
        project("B", vec![]),
    ]);
    let mut rng = StdRng::seed_from_u64(2);
    assert_eq!(
        selected_outcome_group(&roots(&["A"]), &pl, &mut rng),
        Err(TraversalError::Sampling("B".to_string(), SampleError::NoCases))
    );
}

#[test]
fn traversal_detects_cycles() {
    let pl = registry(vec![
        project("A", vec![case(1, &["B"], 36)]),
        project("B", vec![case(1, &["A"], 36)]),
    ]);
    let mut rng = StdRng::seed_from_u64(2);
    assert_eq!(
        selected_outcome_group(&roots(&["A"]), &pl, &mut rng),
        Err(TraversalError::Cycle("A".to_string()))
    );
    let self_loop = registry(vec![project("S", vec![case(1, &["S"], 36)])]);
    assert_eq!(
        selected_outcome_group(&roots(&["S"]), &self_loop, &mut rng),
        Err(TraversalError::Cycle("S".to_string()))
    );
}

#[test]
fn registry_rejects_duplicate_names() {
    let r = project_list(vec![
        project("A", vec![case(1, &[], 36)]),
        project("B", vec![case(1, &[], 36)]),
        project("A", vec![case(1, &[], 36)]),
    ]);
    assert!(matches!(r, Err(ModelError::DuplicateName(ref n)) if n == "A"));
}

#[test]
fn registry_finds_projects_by_name() {
    let pl = registry(vec![
        project("A", vec![case(1, &[], 36)]),
        project("B", vec![case(1, &[], 36)]),
    ]);
    assert_eq!(pl.len(), 2);
    assert_eq!(pl.find(&"B".to_string()), Some(1));
    assert_eq!(pl.find(&"Q".to_string()), None);
    assert_eq!(pl.get(0).name, "A");
}

#[test]
fn horizon_mismatch_is_reported() {
    let mut short = case(1, &[], 36);
    short.gross_gas.pop();
    let p = project("SHORT", vec![case(1, &[], 36), short]);
    assert_eq!(p.check_horizon(36), Err(ModelError::SeriesLengthMismatch("SHORT".to_string())));
    let q = project("OK", vec![case(1, &[], 36)]);
    assert_eq!(q.check_horizon(36), Ok(()));
    assert_eq!(q.check_horizon(12), Err(ModelError::SeriesLengthMismatch("OK".to_string())));
}

#[test]
fn price_deck_lengths_must_agree() {
    assert!(matches!(PriceDeck::new(vec![40.0; 36], vec![2.5; 35]), Err(ModelError::PriceLengthMismatch)));
    let d = PriceDeck::new(vec![40.0; 36], vec![2.5; 36]).unwrap();
    assert_eq!(d.horizon(), 36);
    assert_eq!(d.oil_price()[0], 40.0);
    assert_eq!(d.gas_price()[35], 2.5);
}

fn chooser_registry() -> ProjectList<f64> {
    registry(vec![
        project("ROOT", vec![case(1, &[], 36), case(3, &["NEXT"], 36)]),
        project("NEXT", vec![case(1, &[], 36)]),
    ])
}

#[test]
fn trials_return_one_value_per_trial() {
    let pl = chooser_registry();
    let mut rng = StdRng::seed_from_u64(4);
    let v = monte_carlo_trials(250, &roots(&["ROOT"]), &pl, &mut rng, |g: Vec<(usize, usize)>| g.len()).unwrap();
    assert_eq!(v.len(), 250);
    assert!(v.iter().all(|&n| n == 1 || n == 2));
    let none = monte_carlo_trials(0, &roots(&["ROOT"]), &pl, &mut rng, |g: Vec<(usize, usize)>| g.len()).unwrap();
    assert!(none.is_empty());
    let negative = monte_carlo_trials(-3, &roots(&["ROOT"]), &pl, &mut rng, |g: Vec<(usize, usize)>| g.len()).unwrap();
    assert!(negative.is_empty());
}

#[test]
fn trials_stop_on_first_error() {
    let pl = chooser_registry();
    let mut rng = StdRng::seed_from_u64(4);
    let r = monte_carlo_trials(10, &roots(&["NOPE"]), &pl, &mut rng, |g: Vec<(usize, usize)>| g.len());
    assert_eq!(r, Err(TraversalError::UnknownProject("NOPE".to_string())));
}

#[test]
fn independent_runs_differ_and_follow_weights() {
    let pl = chooser_registry();
    let mut rng_a = StdRng::seed_from_u64(100);
    let mut rng_b = StdRng::seed_from_u64(200);
    let a = monte_carlo_trials(10_000, &roots(&["ROOT"]), &pl, &mut rng_a, |g: Vec<(usize, usize)>| g[0].1).unwrap();
    let b = monte_carlo_trials(10_000, &roots(&["ROOT"]), &pl, &mut rng_b, |g: Vec<(usize, usize)>| g[0].1).unwrap();
    assert_ne!(a, b);
    for run in [&a, &b] {
        let freq = run.iter().filter(|&&j| j == 1).count() as f64 / 10_000.0;
        assert!(freq > 0.70 && freq < 0.80, "frequency {}", freq);
    }
}

#[test]
fn percentile_ranks_of_ten_values() {
    assert_eq!(percentile_index(10, 50), 4);
    assert_eq!(percentile_index(10, 90), 8);
    assert_eq!(percentile_index(10, 10), 1);
    assert_eq!(percentile_index(1, 90), 0);
    assert_eq!(percentile_index(11, 50), 5);
    assert_eq!(percentile_index(4, 50), 2);
    assert_eq!(percentile_index(6, 10), 0);
    assert_eq!(percentile_index(16, 10), 2);
    assert_eq!(percentile_index(101, 100), 100);
    assert_eq!(percentile_index(101, 0), 0);
}

#[test]
fn stats_pick_nearest_ranks() {
    let sorted: Vec<f64> = (1..=10).map(|x| x as f64).collect();
    let s = rank_stats(&sorted, 5.5).unwrap();
    assert_eq!(s.mean, 5.5);
    assert_eq!(s.p50, 5.0);
    assert_eq!(s.p10, 9.0);
    assert_eq!(s.p90, 2.0);
}

#[test]
fn stats_of_one_value() {
    let s = rank_stats(&vec![42i64], 42).unwrap();
    assert_eq!((s.mean, s.p90, s.p50, s.p10), (42, 42, 42, 42));
}

#[test]
fn stats_of_empty_input_fail() {
    let empty: Vec<f64> = Vec::new();
    assert_eq!(rank_stats(&empty, 0.0), Err(StatsError::EmptyInput));
}
