use vstd::prelude::*;
use crate::hashing::{sha256, sha256_of};

verus! {

/// Length of a compact ECDSA signature.
pub const SIGNATURE_LEN: usize = 64;

/// Whether the bytes parse as a compact ECDSA signature
/// (`secp256k1::ecdsa::Signature::from_compact` succeeds).
pub uninterp spec fn sig_parse_ok(sig: Seq<u8>) -> bool;

/// Whether the bytes parse as a secp256k1 public key
/// (`secp256k1::PublicKey::from_slice` succeeds).
pub uninterp spec fn pubkey_parse_ok(pubkey: Seq<u8>) -> bool;

/// Whether the compact signature verifies the 32-byte digest under the
/// serialized public key, per ECDSA over the secp256k1 curve.
pub uninterp spec fn ecdsa_verifies(digest: Seq<u8>, sig: Seq<u8>, pubkey: Seq<u8>) -> bool;

#[verifier::external_type_specification]
#[verifier::external_body]
pub struct ExSecpError(secp256k1::Error);

/// Relies on `secp256k1`: `ecdsa::Signature::from_compact` and
/// `PublicKey::from_slice` succeed or fail on the input bytes alone
/// (`from_compact` in particular fails on every slice that is not 64 bytes
/// long), `Message::from_digest` is total on a 32-byte digest, and
/// `ecdsa::verify` is a deterministic function of digest, signature and key.
#[verifier::external_body]
fn ecdsa_verify_digest(digest: &[u8], sig: &[u8], pk: &[u8]) -> (r: Result<bool, secp256k1::Error>)
    requires
        digest@.len() == 32,
    ensures
        r is Ok ==> sig_parse_ok(sig@) && pubkey_parse_ok(pk@),
        r is Err ==> !(sig_parse_ok(sig@) && pubkey_parse_ok(pk@)),
        r matches Ok(v) ==> v == ecdsa_verifies(digest@, sig@, pk@),
{
    let msg = secp256k1::Message::from_digest(digest.try_into().unwrap());
    let s = secp256k1::ecdsa::Signature::from_compact(sig)?;
    let p = secp256k1::PublicKey::from_slice(pk)?;
    Ok(secp256k1::ecdsa::verify(&s, msg, &p).is_ok())
}

/// Signature verification for an identity claim: the message is hashed with
/// SHA-256 and the compact ECDSA signature is checked against that digest and
/// the serialized public key. `Err` reports a cryptographic parse failure;
/// `Ok(false)` a signature that parsed but does not verify.
pub fn verify_btc(msg: &[u8], sig: &[u8], pubkey: &[u8]) -> (r: Result<bool, secp256k1::Error>)
    ensures
        r is Ok <==> sig_parse_ok(sig@) && pubkey_parse_ok(pubkey@),
        r matches Ok(v) ==> v == ecdsa_verifies(sha256_of(msg@), sig@, pubkey@),
{
    let digest = sha256(msg);
    ecdsa_verify_digest(digest.as_slice(), sig, pubkey)
}

} // verus!
