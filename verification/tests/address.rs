use pq_bitcoin::{public_key_to_address, public_key_to_eth_address};
use bitcoin_hashes::{ripemd160, sha256};
use secp256k1::SecretKey;

fn hex_to_bytes(s: &str) -> Vec<u8> {
    let chars: Vec<u8> = s.as_bytes().to_vec();
    let mut out = Vec::new();
    let mut i = 0;
    while i + 1 < chars.len() {
        let hi = (chars[i] as char).to_digit(16).unwrap() as u8;
        let lo = (chars[i + 1] as char).to_digit(16).unwrap() as u8;
        out.push(hi * 16 + lo);
        i += 2;
    }
    out
}

fn to_hex(bytes: &[u8]) -> String {
    let mut s = String::new();
    for b in bytes {
        s.push_str(&format!("{:02x}", b));
    }
    s
}

#[test]
fn btc_address_known_vector() {
    // A classic compressed key whose HASH160 is well known.
    let pubkey = hex_to_bytes("0250863ad64a87ae8a2fe83c1af1a8403cb53f53e486d8511dad8a04887e5b2352");
    assert_eq!(pubkey.len(), 33);
    let addr = public_key_to_address(pubkey.as_slice());
    assert_eq!(addr.len(), 25);
    assert_eq!(addr[0], 0x00);
    assert_eq!(to_hex(&addr[1..21]), "f54a5851e9372b87810a8e60cdd2e7cfd80b6e31");
}

#[test]
fn btc_address_structure_and_checksum() {
    let pubkey = vec![0x02u8; 33];
    let addr = public_key_to_address(pubkey.as_slice());
    assert_eq!(addr.len(), 25);
    assert_eq!(addr[0], 0x00);
    // Recompute the pipeline with the hash crate directly.
    let h1 = sha256::Hash::hash(pubkey.as_slice()).to_byte_array();
    let h2 = ripemd160::Hash::hash(&h1).to_byte_array();
    assert_eq!(&addr[1..21], &h2[..]);
    let c1 = sha256::Hash::hash(&addr[0..21]).to_byte_array();
    let c2 = sha256::Hash::hash(&c1).to_byte_array();
    assert_eq!(&addr[21..25], &c2[0..4]);
}

#[test]
fn btc_address_deterministic() {
    let pubkey = vec![0x03u8; 33];
    let a1 = public_key_to_address(pubkey.as_slice());
    let a2 = public_key_to_address(pubkey.as_slice());
    assert_eq!(a1, a2);
    assert_eq!(a1.len(), 25);
}

#[test]
fn eth_address_known_vector() {
    // The address of secret key 1 on secp256k1 is a well-known constant.
    let mut sk_bytes = [0u8; 32];
    sk_bytes[31] = 1;
    let sk = SecretKey::from_byte_array(sk_bytes).unwrap();
    let pk = sk.public_key();
    let uncompressed = pk.serialize_uncompressed();
    assert_eq!(uncompressed.len(), 65);
    let addr = public_key_to_eth_address(&uncompressed);
    assert_eq!(addr.len(), 20);
    assert_eq!(to_hex(&addr), "7e5f4552091a69125d5dfcb7b8c2659029395bdf");
}

#[test]
fn eth_address_ignores_prefix_byte_only() {
    // Two keys differing anywhere in the coordinates give different addresses.
    let mut k1 = vec![0x04u8; 65];
    let mut k2 = k1.clone();
    k2[64] ^= 0xFF;
    let a1 = public_key_to_eth_address(k1.as_slice());
    let a2 = public_key_to_eth_address(k2.as_slice());
    assert_ne!(a1, a2);
    // The one-byte form prefix is excluded from the hash.
    k1[0] = 0x00;
    let a3 = public_key_to_eth_address(k1.as_slice());
    assert_eq!(a1, a3);
}
