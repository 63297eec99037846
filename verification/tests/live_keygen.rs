use vanity_search::engine::{run_search, KeyGenerator, SearchConfig};
use vanity_search::keygen::OsKeyGenerator;

#[test]
fn generated_keypairs_are_fresh_each_call() {
    let mut generator = OsKeyGenerator;
    let first = generator.generate().unwrap();
    let second = generator.generate().unwrap();
    assert!(!first.private_key.is_empty());
    assert!(!first.address.is_empty());
    assert_ne!(first.private_key, second.private_key);
    assert_ne!(first.address, second.address);
}

#[test]
fn generated_addresses_carry_the_account_prefix() {
    let mut generator = OsKeyGenerator;
    let keypair = generator.generate().unwrap();
    assert!(keypair.address.starts_with("aleo1"));
}

#[test]
fn a_live_run_with_the_empty_suffix_collects_the_sample() {
    let config = SearchConfig { suffix: String::new(), target_sample_size: 2 };
    let mut generator = OsKeyGenerator;
    let outcome = run_search(&config, &mut generator).unwrap();
    assert_eq!(outcome.guess_count, 2);
    assert_eq!(outcome.found_count, 2);
    assert_eq!(outcome.matches.len(), 2);
    assert_eq!(outcome.histogram.total_count(), 2);
}
