use pq_bitcoin::{decode_identity_output, encode_identity_output, IdentityOutput};
use alloy_sol_types::sol_data::Bytes;
use alloy_sol_types::SolType;

fn round_trip(address: Vec<u8>, aux_key: Vec<u8>) {
    let o = IdentityOutput { address, aux_key };
    let bytes = encode_identity_output(&o);
    let back = decode_identity_output(bytes.as_slice()).expect("own encoding must decode");
    assert_eq!(back.address, o.address);
    assert_eq!(back.aux_key, o.aux_key);
}

#[test]
fn identity_round_trip_typical() {
    round_trip(vec![0x00, 0xAA, 0xBB, 0xCC, 0xDD], b"pq public keys.".to_vec());
}

#[test]
fn identity_round_trip_edge_lengths() {
    round_trip(Vec::new(), Vec::new());
    round_trip(vec![1u8; 32], vec![2u8; 64]);
    round_trip(vec![3u8; 31], vec![4u8; 33]);
    round_trip(vec![5u8; 25], Vec::new());
}

#[test]
fn identity_encoding_matches_external_schema() {
    let address = vec![0x00u8, 1, 2, 3, 4, 5, 6, 7, 8, 9, 10, 11, 12, 13, 14, 15, 16, 17, 18,
        19, 20, 21, 22, 23, 24];
    let aux = b"pq public keys.".to_vec();
    let o = IdentityOutput { address: address.clone(), aux_key: aux.clone() };
    let ours = encode_identity_output(&o);
    let theirs = <(Bytes, Bytes) as SolType>::abi_encode(&(address, aux));
    assert_eq!(ours, theirs);
}

#[test]
fn identity_encoding_layout() {
    let o = IdentityOutput { address: vec![0xAB; 25], aux_key: vec![0xCD; 15] };
    let bytes = encode_identity_output(&o);
    // Offset of the pair, offsets of the two strings, two padded tails.
    assert_eq!(bytes.len(), 32 * 7);
    assert_eq!(bytes[31], 32);
    assert_eq!(bytes[63], 64);
    assert_eq!(bytes[95], 96 + 32);
    assert_eq!(bytes[127], 25);
    assert_eq!(&bytes[128..153], &[0xAB; 25][..]);
    assert_eq!(&bytes[153..160], &[0u8; 7][..]);
    assert_eq!(bytes[191], 15);
    assert_eq!(&bytes[192..207], &[0xCD; 15][..]);
    assert_eq!(&bytes[207..224], &[0u8; 17][..]);
}

#[test]
fn identity_decode_accepts_external_encoding() {
    let address = vec![9u8; 20];
    let aux = vec![7u8; 40];
    let theirs = <(Bytes, Bytes) as SolType>::abi_encode(&(address.clone(), aux.clone()));
    let back = decode_identity_output(theirs.as_slice()).expect("external encoding must decode");
    assert_eq!(back.address, address);
    assert_eq!(back.aux_key, aux);
}

#[test]
fn identity_decode_rejects_malformed() {
    let o = IdentityOutput { address: vec![1u8; 25], aux_key: vec![2u8; 15] };
    let bytes = encode_identity_output(&o);
    // Truncated.
    assert!(decode_identity_output(&bytes[..bytes.len() - 1]).is_none());
    // Trailing garbage.
    let mut longer = bytes.clone();
    longer.push(0);
    assert!(decode_identity_output(longer.as_slice()).is_none());
    // A wrong head offset.
    let mut bad_offset = bytes.clone();
    bad_offset[31] = 33;
    assert!(decode_identity_output(bad_offset.as_slice()).is_none());
    // Dirt in a high word byte.
    let mut dirty_word = bytes.clone();
    dirty_word[64] = 1;
    assert!(decode_identity_output(dirty_word.as_slice()).is_none());
    // Dirt in the zero padding.
    let mut dirty_pad = bytes.clone();
    dirty_pad[159] = 1;
    assert!(decode_identity_output(dirty_pad.as_slice()).is_none());
    // Too short for the schema at all.
    assert!(decode_identity_output(&[0u8; 96]).is_none());
}
