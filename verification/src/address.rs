use vstd::prelude::*;
use crate::bytes::append_bytes;
use crate::hashing::{sha256, ripemd160, keccak256, sha256_of, ripemd160_of, keccak256_of};

verus! {

/// Network version byte of a Bitcoin mainnet address.
pub const BTC_VERSION_BYTE: u8 = 0x00;

/// Length of a compressed secp256k1 public key.
pub const COMPRESSED_KEY_LEN: usize = 33;

/// Length of an uncompressed secp256k1 public key.
pub const UNCOMPRESSED_KEY_LEN: usize = 65;

/// Length of a versioned, checksummed Bitcoin address payload.
pub const BTC_ADDRESS_LEN: usize = 25;

/// Length of an account-scheme address (truncated Keccak-256 digest).
pub const ACCOUNT_ADDRESS_LEN: usize = 20;

/// Version byte followed by the 20-byte RIPEMD-160-of-SHA-256 digest of the key.
pub open spec fn btc_payload_of(pubkey: Seq<u8>) -> Seq<u8> {
    seq![BTC_VERSION_BYTE] + ripemd160_of(sha256_of(pubkey))
}

/// The 25-byte Bitcoin address: versioned payload followed by the first four
/// bytes of its double-SHA-256 checksum.
pub open spec fn btc_address_of(pubkey: Seq<u8>) -> Seq<u8> {
    btc_payload_of(pubkey) + sha256_of(sha256_of(btc_payload_of(pubkey))).take(4)
}

/// The 20-byte account-scheme address: the last 20 bytes of the Keccak-256
/// digest of the key material without its one-byte form prefix.
pub open spec fn account_address_of(pubkey: Seq<u8>) -> Seq<u8> {
    keccak256_of(pubkey.skip(1)).skip(12)
}

/// Derives the Bitcoin address of a 33-byte compressed public key:
/// SHA-256, then RIPEMD-160, then the version byte in front, then the first
/// four bytes of the double-SHA-256 checksum appended.
pub fn public_key_to_address(pubkey: &[u8]) -> (addr: Vec<u8>)
    requires
        pubkey@.len() == COMPRESSED_KEY_LEN,
    ensures
        addr@ == btc_address_of(pubkey@),
        addr@.len() == BTC_ADDRESS_LEN,
        addr@[0] == BTC_VERSION_BYTE,
        addr@.subrange(21, 25) == sha256_of(sha256_of(addr@.subrange(0, 21))).take(4),
{
    let h1 = sha256(pubkey);
    let h2 = ripemd160(h1.as_slice());
    let mut payload: Vec<u8> = Vec::new();
    payload.push(BTC_VERSION_BYTE);
    append_bytes(&mut payload, h2.as_slice());
    proof {
        assert(payload@ =~= btc_payload_of(pubkey@));
    }
    let c1 = sha256(payload.as_slice());
    let checksum = sha256(c1.as_slice());
    let mut addr = payload;
    let mut i: usize = 0;
    while i < 4
        invariant
            i <= 4,
            checksum@ == sha256_of(sha256_of(btc_payload_of(pubkey@))),
            checksum@.len() == 32,
            addr@ == btc_payload_of(pubkey@) + checksum@.subrange(0, i as int),
        decreases 4 - i,
    {
        let ghost pre = addr@;
        addr.push(checksum[i]);
        proof {
            assert(checksum@.subrange(0, i + 1) =~= checksum@.subrange(0, i as int).push(
                checksum@[i as int]));
            assert(btc_payload_of(pubkey@) + checksum@.subrange(0, i + 1) =~= pre.push(
                checksum@[i as int]));
        }
        i = i + 1;
    }
    proof {
        assert(checksum@.subrange(0, 4) =~= checksum@.take(4));
        assert(addr@ =~= btc_address_of(pubkey@));
        assert(addr@.subrange(0, 21) =~= btc_payload_of(pubkey@));
        assert(addr@.subrange(21, 25) =~= sha256_of(sha256_of(btc_payload_of(pubkey@))).take(4));
    }
    addr
}

/// Derives the account-scheme address of a 65-byte uncompressed public key:
/// Keccak-256 of the coordinate bytes, truncated to its last 20 bytes.
pub fn public_key_to_eth_address(pubkey: &[u8]) -> (addr: Vec<u8>)
    requires
        pubkey@.len() == UNCOMPRESSED_KEY_LEN,
    ensures
        addr@ == account_address_of(pubkey@),
        addr@.len() == ACCOUNT_ADDRESS_LEN,
{
    let body: &[u8] = &pubkey[1..65];
    proof {
        assert(body@ =~= pubkey@.skip(1));
    }
    let digest = keccak256(body);
    let mut addr: Vec<u8> = Vec::new();
    let mut i: usize = 12;
    while i < 32
        invariant
            12 <= i <= 32,
            digest@ == keccak256_of(pubkey@.skip(1)),
            digest@.len() == 32,
            addr@ == digest@.subrange(12, i as int),
        decreases 32 - i,
    {
        let ghost pre = addr@;
        addr.push(digest[i]);
        proof {
            assert(digest@.subrange(12, i + 1) =~= pre.push(digest@[i as int]));
        }
        i = i + 1;
    }
    proof {
        assert(addr@ =~= keccak256_of(pubkey@.skip(1)).skip(12));
    }
    addr
}

} // verus!
