//! Hash digests from the outside hashing crate.
//!
//! Two digests run through the logic: Keccak-256, for event topics, call
//! selectors and task names; and SHA3-256, for deriving a validator's account
//! identifier from its consensus public key. Both depend on their input
//! alone, so each digest is named and the names are applied by the trusted
//! wrappers around the outside crate.

use vstd::prelude::*;
use tiny_keccak::Hasher;

verus! {

/// The Keccak-256 digest of a byte sequence.
pub uninterp spec fn keccak256_of(input: Seq<u8>) -> Seq<u8>;

/// The SHA3-256 digest of a byte sequence.
pub uninterp spec fn sha3_256_of(input: Seq<u8>) -> Seq<u8>;

/// Relies on `tiny_keccak::Keccak::v256`: a 32-byte digest that depends on
/// the input bytes alone.
#[verifier::external_body]
pub fn keccak256(input: &[u8]) -> (r: Vec<u8>)
    ensures
        r@ == keccak256_of(input@),
        r@.len() == 32,
{
    let mut hasher = tiny_keccak::Keccak::v256();
    hasher.update(input);
    let mut output = [0u8; 32];
    hasher.finalize(&mut output);
    output.to_vec()
}

/// Relies on `tiny_keccak::Sha3::v256`: a 32-byte digest that depends on
/// the input bytes alone.
#[verifier::external_body]
pub fn sha3_256(input: &[u8]) -> (r: Vec<u8>)
    ensures
        r@ == sha3_256_of(input@),
        r@.len() == 32,
{
    let mut hasher = tiny_keccak::Sha3::v256();
    hasher.update(input);
    let mut output = [0u8; 32];
    hasher.finalize(&mut output);
    output.to_vec()
}

/// Derive the 32-byte account identifier of a validator from its consensus
/// public key, as the ledger's clients derive it.
pub fn derive_account_address_from_consensus_pubkey(consensus_pubkey: &[u8]) -> (r: Vec<u8>)
    ensures
        r@ == sha3_256_of(consensus_pubkey@),
        r@.len() == 32,
{
    sha3_256(consensus_pubkey)
}

} // verus!
