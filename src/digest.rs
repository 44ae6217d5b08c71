//! Content hashing and fresh identifiers, from outside crates.
use vstd::prelude::*;

verus! {

/// The SHA-256 digest of a byte sequence.
pub uninterp spec fn sha256_of(b: Seq<u8>) -> Seq<u8>;

/// Largest input length, exclusive, that SHA-256 takes: its bit length must
/// fit in 64 bits.
pub const SHA256_INPUT_LIMIT: u64 = 0x2000_0000_0000_0000;

/// Relies on `ring::digest::digest` with `SHA256`: a 32-byte digest that
/// depends on the bytes alone. It panics only when the bit length of the input
/// overflows 64 bits, which `requires` rules out.
#[verifier::external_body]
fn sha256(b: &[u8]) -> (r: Vec<u8>)
    requires
        b@.len() < SHA256_INPUT_LIMIT,
    ensures
        r@ == sha256_of(b@),
        r@.len() == 32,
{
    ring::digest::digest(&ring::digest::SHA256, b).as_ref().to_vec()
}

/// The content hash of model bytes: their SHA-256 digest.
pub fn content_hash(b: &[u8]) -> (r: Vec<u8>)
    requires
        b@.len() < SHA256_INPUT_LIMIT,
    ensures
        r@ == sha256_of(b@),
        r@.len() == 32,
{
    sha256(b)
}

/// Relies on `uuid::Uuid::new_v4` and its `Display`: a random version-4 id in
/// its hyphenated text form. Nothing is promised of its value.
#[verifier::external_body]
pub(crate) fn fresh_id() -> (r: String) {
    uuid::Uuid::new_v4().to_string()
}

} // verus!
