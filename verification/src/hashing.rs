use vstd::prelude::*;
use sha3::Digest;

verus! {

/// The SHA-256 digest of a byte sequence.
pub uninterp spec fn sha256_of(data: Seq<u8>) -> Seq<u8>;

/// The RIPEMD-160 digest of a byte sequence.
pub uninterp spec fn ripemd160_of(data: Seq<u8>) -> Seq<u8>;

/// The Keccak-256 digest of a byte sequence.
pub uninterp spec fn keccak256_of(data: Seq<u8>) -> Seq<u8>;

/// Relies on `bitcoin_hashes::sha256::Hash::hash`: SHA-256 as a pure function
/// of the input bytes, with a 32-byte digest.
#[verifier::external_body]
pub(crate) fn sha256(data: &[u8]) -> (r: Vec<u8>)
    ensures
        r@ == sha256_of(data@),
        r@.len() == 32,
{
    bitcoin_hashes::sha256::Hash::hash(data).to_byte_array().to_vec()
}

/// Relies on `bitcoin_hashes::ripemd160::Hash::hash`: RIPEMD-160 as a pure
/// function of the input bytes, with a 20-byte digest.
#[verifier::external_body]
pub(crate) fn ripemd160(data: &[u8]) -> (r: Vec<u8>)
    ensures
        r@ == ripemd160_of(data@),
        r@.len() == 20,
{
    bitcoin_hashes::ripemd160::Hash::hash(data).to_byte_array().to_vec()
}

/// Relies on `sha3::Keccak256`: Keccak-256 as a pure function of the input
/// bytes, with a 32-byte digest.
#[verifier::external_body]
pub(crate) fn keccak256(data: &[u8]) -> (r: Vec<u8>)
    ensures
        r@ == keccak256_of(data@),
        r@.len() == 32,
{
    sha3::Keccak256::digest(data).to_vec()
}

} // verus!
