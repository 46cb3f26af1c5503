//! The node's few points of trust in outside code: the SHA-256 digest,
//! the randomized starting nonce, and the UTF-8 well-formedness check.

use vstd::prelude::*;

use sha2::Digest;

verus! {

/// The SHA-256 digest of a byte sequence. The digest has no short
/// mathematical description, so it is only named here; the wrapper
/// below ties the name to the real function.
pub uninterp spec fn sha256_of(data: Seq<u8>) -> Seq<u8>;

/// Relies on sha2's `Sha256::digest`: the digest is a function of the
/// input bytes alone and is exactly 32 bytes long.
#[verifier::external_body]
pub fn sha256(data: &Vec<u8>) -> (r: [u8; 32])
    ensures
        r@ == sha256_of(data@),
{
    sha2::Sha256::digest(data.as_slice()).into()
}

/// Relies on rand's `random`: an arbitrary value from the thread-local
/// generator. Nothing is promised of it; mining is proved correct for
/// every starting nonce.
#[verifier::external_body]
pub fn random_u64() -> u64 {
    rand::random::<u64>()
}

/// Relies on `core::str::from_utf8`: it accepts exactly the valid UTF-8
/// byte sequences, the notion vstd's `valid_utf8` spells out.
#[verifier::external_body]
pub fn is_utf8(bytes: &[u8]) -> (r: bool)
    ensures
        r == vstd::utf8::valid_utf8(bytes@),
{
    core::str::from_utf8(bytes).is_ok()
}

} // verus!
