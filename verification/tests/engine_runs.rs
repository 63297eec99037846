use vanity_search::engine::{
    run_search, progress_due, GenerationFailure, KeyGenerator, Keypair, SearchConfig, SearchError,
};

/// Hands out a fixed cycle of addresses, deterministically.
struct CycleGen {
    addresses: Vec<String>,
    next: usize,
}

impl KeyGenerator for CycleGen {
    fn generate(&mut self) -> Result<Keypair, GenerationFailure> {
        let address = self.addresses[self.next % self.addresses.len()].clone();
        self.next += 1;
        Ok(Keypair { private_key: format!("key-{}", self.next), address })
    }
}

/// A generator that must never be consulted.
struct PanicGen;

impl KeyGenerator for PanicGen {
    fn generate(&mut self) -> Result<Keypair, GenerationFailure> {
        panic!("the generator was consulted although the target sample size is zero");
    }
}

/// A generator whose randomness source has failed.
struct FailGen;

impl KeyGenerator for FailGen {
    fn generate(&mut self) -> Result<Keypair, GenerationFailure> {
        Err(GenerationFailure)
    }
}

#[test]
fn zero_sample_size_returns_immediately() {
    let config = SearchConfig { suffix: String::from("aaa"), target_sample_size: 0 };
    let mut generator = PanicGen;
    let outcome = run_search(&config, &mut generator).unwrap();
    assert_eq!(outcome.guess_count, 0);
    assert_eq!(outcome.found_count, 0);
    assert_eq!(outcome.histogram.len(), 0);
    assert_eq!(outcome.histogram.total_count(), 0);
    assert_eq!(outcome.matches.len(), 0);
}

#[test]
fn cycle_of_two_addresses_finds_the_matching_one() {
    let config = SearchConfig { suffix: String::from("2"), target_sample_size: 1 };
    let mut generator = CycleGen {
        addresses: vec![
            String::from("X1"),
            String::from("X2"),
            String::from("X1"),
            String::from("X2"),
        ],
        next: 0,
    };
    let outcome = run_search(&config, &mut generator).unwrap();
    assert_eq!(outcome.found_count, 1);
    assert_eq!(outcome.matches.len(), 1);
    assert_eq!(outcome.matches[0].address, "X2");
    assert!(2 <= outcome.guess_count && outcome.guess_count <= 4);
    assert_eq!(outcome.guess_count, 2);
    let x1 = outcome.histogram.get(&String::from("X1"));
    let x2 = outcome.histogram.get(&String::from("X2"));
    assert_eq!(x1 + x2, outcome.guess_count);
    assert_eq!(x1, 1);
    assert_eq!(x2, 1);
}

#[test]
fn empty_suffix_matches_every_guess() {
    let config = SearchConfig { suffix: String::new(), target_sample_size: 5 };
    let mut generator = CycleGen {
        addresses: vec![String::from("A"), String::from("B"), String::from("C")],
        next: 0,
    };
    let outcome = run_search(&config, &mut generator).unwrap();
    assert_eq!(outcome.guess_count, 5);
    assert_eq!(outcome.found_count, 5);
    assert_eq!(outcome.histogram.total_count(), 5);
    assert_eq!(outcome.matches.len(), 5);
    assert_eq!(outcome.histogram.get(&String::from("A")), 2);
    assert_eq!(outcome.histogram.get(&String::from("B")), 2);
    assert_eq!(outcome.histogram.get(&String::from("C")), 1);
}

#[test]
fn every_emitted_match_ends_with_the_suffix() {
    let config = SearchConfig { suffix: String::from("z"), target_sample_size: 3 };
    let mut generator = CycleGen {
        addresses: vec![
            String::from("az"),
            String::from("bb"),
            String::from("cz"),
            String::from("dd"),
        ],
        next: 0,
    };
    let outcome = run_search(&config, &mut generator).unwrap();
    assert_eq!(outcome.found_count, 3);
    for found in &outcome.matches {
        assert!(found.address.ends_with("z"));
    }
    assert!(outcome.guess_count >= outcome.found_count);
    assert_eq!(outcome.histogram.total_count(), outcome.guess_count);
}

#[test]
fn worker_outcomes_aggregate_by_merging() {
    let config = SearchConfig { suffix: String::from("z"), target_sample_size: 2 };
    let mut first_gen = CycleGen {
        addresses: vec![String::from("az"), String::from("bb")],
        next: 0,
    };
    let mut second_gen = CycleGen {
        addresses: vec![String::from("cc"), String::from("az"), String::from("dz")],
        next: 0,
    };
    let first = run_search(&config, &mut first_gen).unwrap();
    let second = run_search(&config, &mut second_gen).unwrap();
    let mut combined = first.histogram;
    combined.merge(&second.histogram);
    assert_eq!(combined.total_count(), first.guess_count + second.guess_count);
    assert_eq!(combined.get(&String::from("az")), 3);
    assert_eq!(combined.get(&String::from("bb")), 1);
    assert_eq!(combined.get(&String::from("cc")), 1);
    assert_eq!(combined.get(&String::from("dz")), 1);
}

#[test]
fn generation_failure_is_fatal() {
    let config = SearchConfig { suffix: String::from("a"), target_sample_size: 1 };
    let mut generator = FailGen;
    match run_search(&config, &mut generator) {
        Err(error) => assert_eq!(error, SearchError::GenerationFailed),
        Ok(_) => panic!("the search must fail when the generator fails"),
    }
}

#[test]
fn progress_is_due_at_interval_multiples() {
    assert!(progress_due(100_000));
    assert!(progress_due(200_000));
    assert!(!progress_due(1));
    assert!(!progress_due(99_999));
    assert!(!progress_due(100_001));
}
