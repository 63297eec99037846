//! The search engine: one worker's loop, driven by a key-generating
//! capability, against the counters and the histogram.
//!
//! The loop generates a fresh keypair, counts the guess, records the address
//! in the histogram, and — when the address carries the desired suffix —
//! keeps the match and counts it as found, until the target sample size is
//! reached. A coordinator may run several such workers; each worker's
//! outcome already carries every guarantee stated here, and outcomes can be
//! merged through the histogram.

use vstd::prelude::*;
use crate::histogram::AddressHistogram;
use crate::suffix::{ends_with_suffix, suffix_matches};

verus! {

/// A progress line is due every time this many guesses have been made.
pub const PROGRESS_INTERVAL: u64 = 100_000;

/// Immutable search parameters, fixed for the run's duration.
pub struct SearchConfig {
    /// The text the address must end with.
    pub suffix: String,
    /// How many matching addresses to collect before stopping.
    pub target_sample_size: u64,
}

/// A freshly generated private key and its derived address, both in their
/// canonical string forms.
#[derive(Clone, Debug)]
pub struct Keypair {
    pub private_key: String,
    pub address: String,
}

/// The generator could not produce a keypair. Fatal to the run: there is no
/// fallback randomness source and no retry.
#[derive(Clone, Copy, PartialEq, Eq, Structural, Debug)]
pub struct GenerationFailure;

/// The capability the search draws fresh keypairs from. Each call is
/// expected to sample a fresh, uniformly random keypair; nothing about the
/// returned strings is assumed here, so every outcome below holds for any
/// implementation, deterministic test doubles included.
pub trait KeyGenerator {
    fn generate(&mut self) -> Result<Keypair, GenerationFailure>;
}

/// Why a run ended without collecting the requested sample.
#[derive(Clone, Copy, PartialEq, Eq, Structural, Debug)]
pub enum SearchError {
    /// The key generator failed; the run cannot continue.
    GenerationFailed,
    /// The guess counter reached the machine's limit before the sample was
    /// collected.
    CounterExhausted,
}

/// How many times `address` occurs in a log of generated addresses.
pub open spec fn occurrences(log: Seq<Seq<char>>, address: Seq<char>) -> nat
    decreases log.len(),
{
    if log.len() == 0 {
        0
    } else {
        occurrences(log.drop_last(), address) + if log.last() == address {
            1nat
        } else {
            0nat
        }
    }
}

/// The subsequence of a log of generated addresses that ends with `suffix`,
/// in generation order.
pub open spec fn matching_addresses(log: Seq<Seq<char>>, suffix: Seq<char>) -> Seq<Seq<char>>
    decreases log.len(),
{
    if log.len() == 0 {
        Seq::empty()
    } else {
        matching_addresses(log.drop_last(), suffix) + if ends_with_suffix(log.last(), suffix) {
            seq![log.last()]
        } else {
            Seq::empty()
        }
    }
}

/// Aggregated state of a completed run: the two counters, the histogram of
/// every generated address, and every emitted match.
pub struct RunOutcome {
    /// Total keypairs generated.
    pub guess_count: u64,
    /// Total suffix matches found.
    pub found_count: u64,
    /// How often each distinct address was generated.
    pub histogram: AddressHistogram,
    /// The matching keypairs, in the order they were found.
    pub matches: Vec<Keypair>,
    /// The addresses the generator returned, in order (a ghost log: it ties
    /// the histogram and the matches to what was actually generated).
    pub generated: Ghost<Seq<Seq<char>>>,
}

/// A progress notification is due exactly when the guess counter stands at a
/// multiple of the progress interval.
pub fn progress_due(guess_count: u64) -> (r: bool)
    ensures
        r == (guess_count % PROGRESS_INTERVAL == 0),
{
    guess_count % PROGRESS_INTERVAL == 0
}

/// One worker's search, run to completion.
///
/// On success the outcome carries exactly the target number of matches, each
/// of whose addresses ends with the configured suffix; the guess counter
/// dominates the found counter; and against the ghost log of the addresses
/// the generator returned: the log is one entry per guess, each address's
/// histogram count is its multiplicity in the log (every generated address
/// is recorded exactly once, and the histogram holds no other key), and the
/// matches are exactly the log's matching addresses, in generation order. A
/// target of zero asks for nothing: the generator is never consulted. An
/// empty suffix matches every address, so every guess is then a find.
pub fn run_search<G: KeyGenerator>(config: &SearchConfig, generator: &mut G) -> (r: Result<
    RunOutcome,
    SearchError,
>)
    ensures
        r matches Ok(out) ==> {
            &&& out.found_count == config.target_sample_size
            &&& out.guess_count >= out.found_count
            &&& out.histogram.total() == out.guess_count
            &&& out.matches@.len() == out.found_count
            &&& forall|j: int|
                0 <= j < out.matches@.len() ==> ends_with_suffix(
                    #[trigger] out.matches@[j].address@,
                    config.suffix@,
                )
            &&& out.generated@.len() == out.guess_count
            &&& forall|k: Seq<char>| #[trigger] out.histogram.count_of(k) == occurrences(
                out.generated@,
                k,
            )
            &&& out.matches@.map_values(|m: Keypair| m.address@) == matching_addresses(
                out.generated@,
                config.suffix@,
            )
        },
        config.target_sample_size == 0 ==> (r matches Ok(out) && out.guess_count == 0
            && out.histogram.spec_len() == 0),
        config.suffix@.len() == 0 ==> {
            &&& !(r matches Err(e) && e == SearchError::CounterExhausted)
            &&& (r matches Ok(out) ==> out.guess_count == out.found_count)
        },
{
    let mut histogram = AddressHistogram::new();
    let mut matches: Vec<Keypair> = Vec::new();
    let mut guess_count: u64 = 0;
    let mut found_count: u64 = 0;
    let ghost mut generated: Seq<Seq<char>> = Seq::empty();
    proof {
        assert(forall|k: Seq<char>| #[trigger] occurrences(generated, k) == 0);
        assert(matches@.map_values(|m: Keypair| m.address@) =~= matching_addresses(
            generated,
            config.suffix@,
        ));
    }
    while found_count < config.target_sample_size
        invariant
            found_count <= guess_count,
            found_count <= config.target_sample_size,
            histogram.total() == guess_count,
            matches@.len() == found_count,
            forall|j: int|
                0 <= j < matches@.len() ==> ends_with_suffix(
                    #[trigger] matches@[j].address@,
                    config.suffix@,
                ),
            generated.len() == guess_count,
            forall|k: Seq<char>| #[trigger] histogram.count_of(k) == occurrences(generated, k),
            matches@.map_values(|m: Keypair| m.address@) == matching_addresses(
                generated,
                config.suffix@,
            ),
            config.suffix@.len() == 0 ==> guess_count == found_count,
            config.target_sample_size == 0 ==> guess_count == 0 && histogram.spec_len() == 0,
        decreases u64::MAX - guess_count,
    {
        if guess_count == u64::MAX {
            return Err(SearchError::CounterExhausted);
        }
        let keypair: Keypair = match generator.generate() {
            Ok(keypair) => keypair,
            Err(_) => {
                return Err(SearchError::GenerationFailed);
            },
        };
        let ghost prev_log: Seq<Seq<char>> = generated;
        let ghost prev_matches: Seq<Seq<char>> = matches@.map_values(|m: Keypair| m.address@);
        let ghost addr: Seq<char> = keypair.address@;
        guess_count = guess_count + 1;
        histogram.record(&keypair.address);
        let is_match: bool = suffix_matches(keypair.address.as_str(), config.suffix.as_str());
        proof {
            if config.suffix@.len() == 0 {
                crate::suffix::lemma_empty_suffix_matches(keypair.address@, config.suffix@);
            }
            generated = prev_log.push(addr);
            assert(generated.drop_last() =~= prev_log);
            assert(generated.last() == addr);
            assert(forall|k: Seq<char>| #[trigger] occurrences(generated, k) == occurrences(
                prev_log,
                k,
            ) + if k == addr {
                1nat
            } else {
                0nat
            });
            assert(matching_addresses(generated, config.suffix@) == matching_addresses(
                prev_log,
                config.suffix@,
            ) + if ends_with_suffix(addr, config.suffix@) {
                seq![addr]
            } else {
                Seq::<Seq<char>>::empty()
            });
        }
        if is_match {
            matches.push(keypair);
            proof {
                assert(matches@.map_values(|m: Keypair| m.address@) =~= prev_matches.push(addr));
                assert(prev_matches.push(addr) =~= prev_matches + seq![addr]);
            }
            found_count = found_count + 1;
        } else {
            proof {
                assert(matching_addresses(prev_log, config.suffix@) + Seq::<Seq<char>>::empty()
                    =~= matching_addresses(prev_log, config.suffix@));
            }
        }
    }
    Ok(RunOutcome { guess_count, found_count, histogram, matches, generated: Ghost(generated) })
}

} // verus!
