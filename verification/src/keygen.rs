//! The production key generator: fresh uniformly random keypairs from the
//! system's cryptographically secure randomness source, with addresses
//! derived by the account scheme of the underlying ledger.

use vstd::prelude::*;
use crate::engine::{GenerationFailure, KeyGenerator, Keypair};

verus! {

/// The canonical string form of the account address derived from a private
/// key given in its canonical string form. Address derivation is a pure
/// function of the key — the same key always yields the same address — but
/// its field and curve arithmetic is the ledger's, not this library's, so
/// the function is left uninterpreted and only the trusted wrapper below
/// speaks for it.
pub uninterp spec fn address_of(private_key: Seq<char>) -> Seq<char>;

/// Relies on snarkvm's `PrivateKey::new` (samples a fresh account key from a
/// cryptographically secure random number generator) and `Address::try_from`
/// (derives the key's account address — a deterministic function of the key
/// alone), both rendered through their canonical string forms. The key is
/// fresh randomness, so nothing is promised of it; the address is promised to
/// be the key's canonical derivation. `None` reports a failed sampling or
/// derivation; should the operating system's entropy source fail at first
/// use, rand's `rng()` panics inside this call instead.
#[verifier::external_body]
fn generate_keypair_strings() -> (r: Option<(String, String)>)
    ensures
        r matches Some(p) ==> p.1@ == address_of(p.0@),
{
    let mut rng = rand::rng();
    let private_key = match snarkvm::console::account::PrivateKey::<
        snarkvm::console::network::MainnetV0,
    >::new(&mut rng) {
        Ok(key) => key,
        Err(_) => return None,
    };
    let address = match snarkvm::console::account::Address::try_from(&private_key) {
        Ok(address) => address,
        Err(_) => return None,
    };
    Some((private_key.to_string(), address.to_string()))
}

/// The generator backed by the operating system's randomness.
pub struct OsKeyGenerator;

impl KeyGenerator for OsKeyGenerator {
    /// A successful generation hands back an address that is the canonical
    /// derivation of the private key beside it: the emitted key controls the
    /// emitted address.
    fn generate(&mut self) -> (r: Result<Keypair, GenerationFailure>)
        ensures
            r matches Ok(kp) ==> kp.address@ == address_of(kp.private_key@),
    {
        match generate_keypair_strings() {
            Some(pair) => Ok(Keypair { private_key: pair.0, address: pair.1 }),
            None => Err(GenerationFailure),
        }
    }
}

} // verus!
