use vstd::prelude::*;
use crate::address::{
    account_address_of, btc_address_of, public_key_to_address, public_key_to_eth_address,
    ACCOUNT_ADDRESS_LEN, BTC_ADDRESS_LEN, COMPRESSED_KEY_LEN, UNCOMPRESSED_KEY_LEN,
};
use crate::bytes::{bytes_eq, copy_bytes};
use crate::hashing::sha256_of;
use crate::output::{
    abi_identity, abi_poly, encode_identity_output, encode_poly_output, IdentityOutput,
    PolyOutput, MAX_FIELD_LEN,
};
use crate::poly::{evaluate, poly_eval};
use crate::signature::{ecdsa_verifies, pubkey_parse_ok, sig_parse_ok, verify_btc, SIGNATURE_LEN};

verus! {

/// Why an identity claim was rejected. Any rejection aborts the invocation:
/// no public output is produced.
#[derive(Clone, Copy, Debug, PartialEq, Eq, Structural)]
pub enum ClaimError {
    /// An input's byte length does not match its scheme's fixed width.
    BadLength,
    /// The signature or public key bytes do not decode to a curve element.
    MalformedCrypto,
    /// The signature does not verify the hashed claimed address.
    SignatureRejected,
    /// The address derived from the key differs from the claimed address.
    AddressMismatch,
}

/// The fixed input widths of the Bitcoin identity scheme.
pub open spec fn btc_lengths_ok(pubkey: Seq<u8>, addr: Seq<u8>, sig: Seq<u8>) -> bool {
    pubkey.len() == 33 && addr.len() == 25 && sig.len() == 64
}

/// The fixed input widths of the account identity scheme.
pub open spec fn account_lengths_ok(pubkey: Seq<u8>, addr: Seq<u8>, sig: Seq<u8>) -> bool {
    pubkey.len() == 65 && addr.len() == 20 && sig.len() == 64
}

/// Both cryptographic inputs decode to curve elements.
pub open spec fn crypto_parse_ok(sig: Seq<u8>, pubkey: Seq<u8>) -> bool {
    sig_parse_ok(sig) && pubkey_parse_ok(pubkey)
}

/// Everything the Bitcoin identity claim requires of its inputs: exact
/// widths, a signature over the hashed claimed address, and a claimed
/// address equal to the one derived from the key.
pub open spec fn btc_claim_ok(pubkey: Seq<u8>, addr: Seq<u8>, sig: Seq<u8>) -> bool {
    &&& btc_lengths_ok(pubkey, addr, sig)
    &&& crypto_parse_ok(sig, pubkey)
    &&& ecdsa_verifies(sha256_of(addr), sig, pubkey)
    &&& btc_address_of(pubkey) == addr
}

/// Everything the account identity claim requires of its inputs.
pub open spec fn account_claim_ok(pubkey: Seq<u8>, addr: Seq<u8>, sig: Seq<u8>) -> bool {
    &&& account_lengths_ok(pubkey, addr, sig)
    &&& crypto_parse_ok(sig, pubkey)
    &&& ecdsa_verifies(sha256_of(addr), sig, pubkey)
    &&& account_address_of(pubkey) == addr
}

/// The Bitcoin identity claim core. Checks, in fixed order: input widths,
/// signature over the hashed claimed address, and equality of the claimed
/// address with the address derived from the key. Emits the public output
/// exactly when every check holds; any failure rejects the whole invocation.
pub fn run_bitcoin_claim(
    pubkey: &[u8],
    claimed_address: &[u8],
    signature: &[u8],
    aux_key: &[u8],
) -> (r: Result<IdentityOutput, ClaimError>)
    ensures
        r is Ok <==> btc_claim_ok(pubkey@, claimed_address@, signature@),
        r matches Ok(o) ==> o.address@ == claimed_address@ && o.aux_key@ == aux_key@,
        r == Err::<IdentityOutput, ClaimError>(ClaimError::BadLength) <==> !btc_lengths_ok(
            pubkey@,
            claimed_address@,
            signature@,
        ),
        r == Err::<IdentityOutput, ClaimError>(ClaimError::MalformedCrypto) <==> btc_lengths_ok(
            pubkey@,
            claimed_address@,
            signature@,
        ) && !crypto_parse_ok(signature@, pubkey@),
        r == Err::<IdentityOutput, ClaimError>(ClaimError::SignatureRejected) <==> btc_lengths_ok(
            pubkey@,
            claimed_address@,
            signature@,
        ) && crypto_parse_ok(signature@, pubkey@) && !ecdsa_verifies(
            sha256_of(claimed_address@),
            signature@,
            pubkey@,
        ),
        r == Err::<IdentityOutput, ClaimError>(ClaimError::AddressMismatch) <==> btc_lengths_ok(
            pubkey@,
            claimed_address@,
            signature@,
        ) && crypto_parse_ok(signature@, pubkey@) && ecdsa_verifies(
            sha256_of(claimed_address@),
            signature@,
            pubkey@,
        ) && btc_address_of(pubkey@) != claimed_address@,
{
    if pubkey.len() != COMPRESSED_KEY_LEN || claimed_address.len() != BTC_ADDRESS_LEN
        || signature.len() != SIGNATURE_LEN {
        return Err(ClaimError::BadLength);
    }
    let verified = match verify_btc(claimed_address, signature, pubkey) {
        Ok(v) => v,
        Err(_) => {
            return Err(ClaimError::MalformedCrypto);
        },
    };
    if !verified {
        return Err(ClaimError::SignatureRejected);
    }
    let derived = public_key_to_address(pubkey);
    if !bytes_eq(derived.as_slice(), claimed_address) {
        return Err(ClaimError::AddressMismatch);
    }
    Ok(IdentityOutput { address: copy_bytes(claimed_address), aux_key: copy_bytes(aux_key) })
}

/// The account identity claim core: the same fixed order of checks as the
/// Bitcoin core, with the uncompressed key width and the account address
/// derivation rule.
pub fn run_account_claim(
    pubkey: &[u8],
    claimed_address: &[u8],
    signature: &[u8],
    aux_key: &[u8],
) -> (r: Result<IdentityOutput, ClaimError>)
    ensures
        r is Ok <==> account_claim_ok(pubkey@, claimed_address@, signature@),
        r matches Ok(o) ==> o.address@ == claimed_address@ && o.aux_key@ == aux_key@,
        r == Err::<IdentityOutput, ClaimError>(ClaimError::BadLength) <==> !account_lengths_ok(
            pubkey@,
            claimed_address@,
            signature@,
        ),
        r == Err::<IdentityOutput, ClaimError>(ClaimError::MalformedCrypto)
            <==> account_lengths_ok(pubkey@, claimed_address@, signature@) && !crypto_parse_ok(
            signature@,
            pubkey@,
        ),
        r == Err::<IdentityOutput, ClaimError>(ClaimError::SignatureRejected)
            <==> account_lengths_ok(pubkey@, claimed_address@, signature@) && crypto_parse_ok(
            signature@,
            pubkey@,
        ) && !ecdsa_verifies(sha256_of(claimed_address@), signature@, pubkey@),
        r == Err::<IdentityOutput, ClaimError>(ClaimError::AddressMismatch)
            <==> account_lengths_ok(pubkey@, claimed_address@, signature@) && crypto_parse_ok(
            signature@,
            pubkey@,
        ) && ecdsa_verifies(sha256_of(claimed_address@), signature@, pubkey@)
            && account_address_of(pubkey@) != claimed_address@,
{
    if pubkey.len() != UNCOMPRESSED_KEY_LEN || claimed_address.len() != ACCOUNT_ADDRESS_LEN
        || signature.len() != SIGNATURE_LEN {
        return Err(ClaimError::BadLength);
    }
    let verified = match verify_btc(claimed_address, signature, pubkey) {
        Ok(v) => v,
        Err(_) => {
            return Err(ClaimError::MalformedCrypto);
        },
    };
    if !verified {
        return Err(ClaimError::SignatureRejected);
    }
    let derived = public_key_to_eth_address(pubkey);
    if !bytes_eq(derived.as_slice(), claimed_address) {
        return Err(ClaimError::AddressMismatch);
    }
    Ok(IdentityOutput { address: copy_bytes(claimed_address), aux_key: copy_bytes(aux_key) })
}

/// The polynomial claim core: evaluates the polynomial on the public
/// parameters and the private witness and assembles the public output.
/// Total: every input yields an output.
pub fn run_polynomial_claim(x: u32, a: u32, b: u32) -> (o: PolyOutput)
    ensures
        o.x == x,
        o.a == a,
        o.y == poly_eval(x, a, b),
{
    let y = evaluate(x, a, b);
    PolyOutput { x, a, y }
}

/// Runs the Bitcoin identity claim and, on success, encodes its public
/// output into the external schema. Rejection produces no bytes at all.
pub fn bitcoin_claim_encoded(
    pubkey: &[u8],
    claimed_address: &[u8],
    signature: &[u8],
    aux_key: &[u8],
) -> (r: Result<Vec<u8>, ClaimError>)
    requires
        aux_key@.len() <= MAX_FIELD_LEN,
    ensures
        r is Ok <==> btc_claim_ok(pubkey@, claimed_address@, signature@),
        r matches Ok(bytes) ==> bytes@ == abi_identity(claimed_address@, aux_key@),
{
    match run_bitcoin_claim(pubkey, claimed_address, signature, aux_key) {
        Ok(o) => Ok(encode_identity_output(&o)),
        Err(e) => Err(e),
    }
}

/// Runs the account identity claim and, on success, encodes its public
/// output into the external schema. Rejection produces no bytes at all.
pub fn account_claim_encoded(
    pubkey: &[u8],
    claimed_address: &[u8],
    signature: &[u8],
    aux_key: &[u8],
) -> (r: Result<Vec<u8>, ClaimError>)
    requires
        aux_key@.len() <= MAX_FIELD_LEN,
    ensures
        r is Ok <==> account_claim_ok(pubkey@, claimed_address@, signature@),
        r matches Ok(bytes) ==> bytes@ == abi_identity(claimed_address@, aux_key@),
{
    match run_account_claim(pubkey, claimed_address, signature, aux_key) {
        Ok(o) => Ok(encode_identity_output(&o)),
        Err(e) => Err(e),
    }
}

/// Runs the polynomial claim and encodes its public output into the external
/// schema.
pub fn polynomial_claim_encoded(x: u32, a: u32, b: u32) -> (r: Vec<u8>)
    ensures
        r@ == abi_poly(x, a, poly_eval(x, a, b)),
{
    let o = run_polynomial_claim(x, a, b);
    encode_poly_output(&o)
}

} // verus!
