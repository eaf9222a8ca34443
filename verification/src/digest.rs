//! Proposal fingerprints.
//!
//! A proposal is identified by a fixed-size key: the 256-bit digest of the
//! byte concatenation of its call identifier and its argument payload, with
//! no separator. Identical (identifier, payload) pairs always collapse to the
//! same key, so identical pending proposals share one approval tally.

use vstd::prelude::*;

verus! {

/// The digest that the hashing crate computes for the given input bytes.
/// It depends on the input alone.
pub uninterp spec fn sha256_of(input: Seq<u8>) -> Seq<u8>;

/// Relies on sha2::Sha256 through digest::Digest::digest: a 256-bit digest
/// of the input bytes, 32 bytes long, a function of the input alone.
#[verifier::external_body]
fn sha256_bytes(input: &[u8]) -> (r: Vec<u8>)
    ensures
        r@ == sha256_of(input@),
        r@.len() == 32,
{
    <sha2::Sha256 as sha2::Digest>::digest(input).to_vec()
}

/// The fingerprint of a proposal: the digest of the UTF-8 bytes of the call
/// identifier with the argument payload appended.
pub open spec fn fingerprint_of(call_name: Seq<char>, arguments: Seq<char>) -> Seq<u8> {
    sha256_of(vstd::utf8::encode_utf8(call_name + arguments))
}

/// Collapses a (call identifier, argument payload) pair into its fixed-size
/// opaque key.
pub fn fingerprint(call_name: &str, arguments: &str) -> (r: Vec<u8>)
    ensures
        r@ == fingerprint_of(call_name@, arguments@),
        r@.len() == 32,
{
    let joined = String::from_str(call_name).concat(arguments);
    sha256_bytes(joined.as_str().as_bytes())
}

/// Fingerprints are pure: equal inputs always produce equal keys, across
/// repeated invocations.
pub proof fn lemma_fingerprint_deterministic(
    name1: Seq<char>,
    args1: Seq<char>,
    name2: Seq<char>,
    args2: Seq<char>,
)
    requires
        name1 == name2,
        args1 == args2,
    ensures
        fingerprint_of(name1, args1) == fingerprint_of(name2, args2),
{
}

/// The fingerprint sees only the concatenation of identifier and payload:
/// splitting the same text differently yields the same key.
pub proof fn lemma_fingerprint_concatenation(
    name1: Seq<char>,
    args1: Seq<char>,
    name2: Seq<char>,
    args2: Seq<char>,
)
    requires
        name1 + args1 == name2 + args2,
    ensures
        fingerprint_of(name1, args1) == fingerprint_of(name2, args2),
{
}

} // verus!
