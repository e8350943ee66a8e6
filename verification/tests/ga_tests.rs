use rand::SeedableRng;
use rand::rngs::StdRng;
use tetris::ga::{DNA, sort_by_score_desc, choose_parents, crossover, mutate, next_generation, ga_step, evaluate_population};
use tetris::sim::run_tetris;

fn rng(seed: u8) -> StdRng {
    StdRng::from_seed([seed; 32])
}

fn dna(params: [u64; 6], score: u64) -> DNA {
    DNA { params, score }
}

#[test]
fn test_dna_new_bounds() {
    let mut r = rng(1);
    for _ in 0..50 {
        let d = DNA::new(100, &mut r);
        assert_eq!(d.score, 0);
        for k in 0..6 {
            assert!(d.params[k] < 100);
        }
    }
}

#[test]
fn test_crossover_last_component_never_crosses() {
    let p1 = dna([1, 2, 3, 4, 5, 6], 77);
    let p2 = dna([11, 12, 13, 14, 15, 16], 88);
    for seed in 0..20u8 {
        let mut r = rng(seed);
        let child = crossover(&p1, &p2, &mut r);
        // The sixth weight always comes from the first parent.
        assert_eq!(child.params[5], p1.params[5]);
        // Every other weight comes from one of the two parents.
        for k in 0..5 {
            assert!(child.params[k] == p1.params[k] || child.params[k] == p2.params[k]);
        }
        assert_eq!(child.score, p1.score);
    }
}

#[test]
fn test_mutate_changes_at_most_one_and_shrinks() {
    let mut r = rng(9);
    let original = [1000u64, 2000, 3000, 4000, 5000, 6000];
    for _ in 0..300 {
        let mut d = dna(original, 42);
        mutate(&mut d, 20, &mut r);
        assert_eq!(d.score, 42);
        let mut changed = 0;
        for k in 0..6 {
            if d.params[k] != original[k] {
                changed += 1;
                assert!(d.params[k] <= original[k] / 4);
            }
        }
        assert!(changed <= 1);
    }
}

#[test]
fn test_sort_by_score_desc() {
    let mut pop = vec![
        dna([1; 6], 3),
        dna([2; 6], 9),
        dna([3; 6], 1),
        dna([4; 6], 9),
        dna([5; 6], 4),
    ];
    sort_by_score_desc(&mut pop);
    let scores: Vec<u64> = pop.iter().map(|d| d.score).collect();
    assert_eq!(scores, vec![9, 9, 4, 3, 1]);
    // Same members, only rearranged.
    let mut firsts: Vec<u64> = pop.iter().map(|d| d.params[0]).collect();
    firsts.sort();
    assert_eq!(firsts, vec![1, 2, 3, 4, 5]);
}

#[test]
fn test_choose_parents_keeps_top() {
    let pop = vec![
        dna([1; 6], 9),
        dna([2; 6], 7),
        dna([3; 6], 5),
        dna([4; 6], 2),
    ];
    let mut r = rng(3);
    let parents = choose_parents(&pop, 2, 0, &mut r);
    assert_eq!(parents.len(), 2);
    assert_eq!(parents[0].score, 9);
    assert_eq!(parents[1].score, 7);

    // With resampling, every parent still comes from the pool's index range.
    let parents2 = choose_parents(&pop, 3, 1, &mut r);
    assert_eq!(parents2.len(), 3);
    assert_eq!(parents2[0].score, 9);
    assert_eq!(parents2[1].score, 7);
    assert!(pop[..3].iter().any(|d| d.params[0] == parents2[2].params[0]));
}

#[test]
fn test_next_generation_shape() {
    let parents = vec![
        dna([100, 100, 100, 100, 100, 100], 9),
        dna([200, 200, 200, 200, 200, 200], 7),
        dna([300, 300, 300, 300, 300, 300], 5),
    ];
    let mut pop = vec![dna([0; 6], 0); 7];
    let mut r = rng(5);
    next_generation(&mut pop, &parents, 50, 20, &mut r);
    assert_eq!(pop.len(), 7);
    // Offspring carry a parent's score tag and never exceed a parent weight.
    for member in &pop[..3] {
        assert!(member.score == 9 || member.score == 7 || member.score == 5);
        for k in 0..6 {
            assert!(member.params[k] <= 300);
        }
    }
    // The remaining slots are fresh unscored vectors below the bound.
    for member in &pop[3..] {
        assert_eq!(member.score, 0);
        for k in 0..6 {
            assert!(member.params[k] < 50);
        }
    }
}

#[test]
fn test_ga_step_best_is_monotone() {
    let mut pop = vec![
        dna([1; 6], 40),
        dna([2; 6], 90),
        dna([3; 6], 60),
        dna([4; 6], 10),
    ];
    let mut best = dna([0; 6], 0);
    let mut r = rng(8);
    ga_step(&mut pop, &mut best, 2, 0, 100, 20, &mut r);
    // The best-ever vector caught the highest evaluated score.
    assert_eq!(best.score, 90);
    assert_eq!(best.params[0], 2);

    // A later generation full of worse members never lowers it.
    for member in pop.iter_mut() {
        member.score = 5;
    }
    ga_step(&mut pop, &mut best, 2, 0, 100, 20, &mut r);
    assert_eq!(best.score, 90);
}

#[test]
fn test_run_tetris_deterministic() {
    // The simulation seeds its own generator with a fixed constant: two runs
    // with the same weights and round budget give the same average score.
    let weights = [0, 0, 0, 0, 0, 0];
    let a = run_tetris(1, true, weights);
    let b = run_tetris(1, true, weights);
    assert_eq!(a, b);
    assert!(a >= 1);
}

#[test]
fn test_evaluate_population_scores_members() {
    let mut pop = vec![dna([0; 6], 123), dna([0; 6], 456)];
    evaluate_population(&mut pop, 1);
    // Identical weights and the fixed per-game seed give identical scores.
    assert_eq!(pop[0].score, pop[1].score);
    assert_eq!(pop[0].params, [0; 6]);
}
