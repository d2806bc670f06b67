use genetic_phrase::population::{ConfigError, Population};
use genetic_phrase::RATE_DENOM;

fn seeded(target: &str, rate: u64, phrases: &[&str]) -> Population {
    let mut p = Population::new(target.to_string(), rate, phrases.len()).unwrap();
    for (i, phrase) in phrases.iter().enumerate() {
        p.dnas[i].genes = phrase.chars().collect();
        p.dnas[i].score = 0;
    }
    p
}

#[test]
fn construction_sets_sizes() {
    let p = Population::new("hello world".to_string(), 10000, 7).unwrap();
    assert_eq!(p.dnas.len(), 7);
    for d in p.dnas.iter() {
        assert_eq!(d.genes.len(), 11);
        assert_eq!(d.score, 0);
    }
    assert_eq!(p.generations, 0);
    assert!(!p.is_finished);
    assert_eq!(p.mating_pool.len(), 0);
    assert_eq!(p.best_phrase, None);
    assert_eq!(p.best_score, 0);
    assert_eq!(p.target, "hello world");
    assert_eq!(p.mutation_rate, 10000);
}

#[test]
fn construction_rejects_empty_target() {
    let r = Population::new(String::new(), 0, 5);
    assert_eq!(r.err(), Some(ConfigError::EmptyTarget));
}

#[test]
fn construction_rejects_zero_population() {
    let r = Population::new("abc".to_string(), 0, 0);
    assert_eq!(r.err(), Some(ConfigError::ZeroPopulation));
}

#[test]
fn construction_rejects_rate_above_one() {
    let r = Population::new("abc".to_string(), RATE_DENOM + 1, 5);
    assert_eq!(r.err(), Some(ConfigError::RateOutOfRange));
}

#[test]
fn preseeded_perfect_candidate_finishes_immediately() {
    let mut p = seeded("abc", 0, &["abc"]);
    p.calc_fitness();
    p.evalute();
    assert!(p.is_finished);
    assert_eq!(p.best_phrase, Some("abc".to_string()));
    assert_eq!(p.best_score, 3);
}

#[test]
fn scoring_sets_exact_match_counts() {
    let mut p = seeded("abcd", 0, &["abcd", "axcx", "zzzz"]);
    p.calc_fitness();
    assert_eq!(p.dnas[0].score, 4);
    assert_eq!(p.dnas[1].score, 2);
    assert_eq!(p.dnas[2].score, 0);
}

#[test]
fn selection_fills_pool_proportionally() {
    let mut p = seeded("ab", 0, &["ab", "xy"]);
    p.calc_fitness();
    p.natural_selection();
    // score 2 of length 2 gives 100 copies; score 0 gives none
    assert_eq!(p.mating_pool.len(), 100);
    for d in p.mating_pool.iter() {
        assert_eq!(d.get_phrase(), "ab");
    }
}

#[test]
fn selection_half_fitness_gives_fifty_copies() {
    let mut p = seeded("ab", 0, &["ax"]);
    p.calc_fitness();
    p.natural_selection();
    assert_eq!(p.mating_pool.len(), 50);
}

#[test]
fn pool_is_rebuilt_from_current_generation_only() {
    let mut p = seeded("ab", 0, &["ab", "xy"]);
    p.calc_fitness();
    p.natural_selection();
    assert_eq!(p.mating_pool.len(), 100);

    // a new generation takes the candidates' place; the pool must then
    // reflect it alone, with no leftovers of the earlier one
    p.dnas[0].genes = vec!['a', 'x'];
    p.dnas[1].genes = vec!['a', 'y'];
    p.calc_fitness();
    p.natural_selection();
    assert_eq!(p.mating_pool.len(), 100);
    let mut ax = 0;
    let mut ay = 0;
    for d in p.mating_pool.iter() {
        let phrase = d.get_phrase();
        assert_ne!(phrase, "ab");
        if phrase == "ax" {
            ax += 1;
        } else if phrase == "ay" {
            ay += 1;
        } else {
            panic!("unexpected pool member");
        }
    }
    assert_eq!(ax, 50);
    assert_eq!(ay, 50);
}

#[test]
fn generation_counter_increments_by_one() {
    let mut p = seeded("ab", 0, &["ab", "ab"]);
    assert_eq!(p.generations, 0);
    p.calc_fitness();
    p.natural_selection();
    p.generate();
    assert_eq!(p.generations, 1);
    p.calc_fitness();
    p.natural_selection();
    p.generate();
    assert_eq!(p.generations, 2);
}

#[test]
fn perfect_pool_without_mutation_converges_in_one_cycle() {
    let mut p = seeded("ab", 0, &["ab", "ab", "ab"]);
    p.calc_fitness();
    p.natural_selection();
    p.generate();
    p.calc_fitness();
    p.evalute();
    assert!(p.is_finished);
    assert_eq!(p.best_phrase, Some("ab".to_string()));
    assert_eq!(p.best_score, 2);
}

#[test]
fn empty_pool_falls_back_to_prior_generation() {
    let mut p = seeded("ab", 0, &["xy", "zw"]);
    p.calc_fitness();
    p.natural_selection();
    assert_eq!(p.mating_pool.len(), 0);
    p.generate();
    assert_eq!(p.generations, 1);
    assert_eq!(p.dnas.len(), 2);
    for d in p.dnas.iter() {
        // without mutation each child is a splice of two prior candidates
        assert_eq!(d.genes.len(), 2);
        for &c in d.genes.iter() {
            assert!(c == 'x' || c == 'y' || c == 'z' || c == 'w');
        }
    }
}

#[test]
fn evaluate_picks_first_of_equal_best() {
    let mut p = seeded("ab", 0, &["ax", "ay"]);
    p.calc_fitness();
    p.evalute();
    assert_eq!(p.best_phrase, Some("ax".to_string()));
    assert_eq!(p.best_score, 1);
    assert!(!p.is_finished);
}

#[test]
fn evaluate_picks_strictly_better_later_candidate() {
    let mut p = seeded("ab", 0, &["xx", "ab"]);
    p.calc_fitness();
    p.evalute();
    assert_eq!(p.best_phrase, Some("ab".to_string()));
    assert_eq!(p.best_score, 2);
    assert!(p.is_finished);
}

#[test]
fn evaluate_keeps_finished_flag() {
    let mut p = seeded("ab", 0, &["ab"]);
    p.calc_fitness();
    p.evalute();
    assert!(p.is_finished);
    // a later evaluation of a worse generation must not unset the flag
    p.dnas[0].genes = vec!['x', 'y'];
    p.calc_fitness();
    p.evalute();
    assert!(p.is_finished);
}

#[test]
fn reproduction_keeps_population_size_and_genome_lengths() {
    let mut p = Population::new("grand".to_string(), 10000, 20).unwrap();
    p.calc_fitness();
    p.natural_selection();
    p.generate();
    assert_eq!(p.dnas.len(), 20);
    for d in p.dnas.iter() {
        assert_eq!(d.genes.len(), 5);
    }
}

#[test]
fn best_fitness_fraction_stays_in_unit_interval() {
    let mut p = Population::new("to be".to_string(), 10000, 10).unwrap();
    for _ in 0..3 {
        p.calc_fitness();
        p.natural_selection();
        p.generate();
        p.calc_fitness();
        p.evalute();
        let fitness = p.best_score as f32 / 5.0;
        assert!(0.0 <= fitness && fitness <= 1.0);
        if p.is_finished {
            break;
        }
    }
}
