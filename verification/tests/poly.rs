use pq_bitcoin::{decode_poly_output, encode_poly_output, evaluate, PolyOutput};
use pq_bitcoin::claim::{polynomial_claim_encoded, run_polynomial_claim};
use alloy_sol_types::sol_data::Uint;
use alloy_sol_types::SolType;

#[test]
fn evaluate_scenario_one() {
    // x = 7, a = 3, b = 8: y = 343 + 21 + 8 = 372.
    assert_eq!(evaluate(7, 3, 8), 372);
    let o = run_polynomial_claim(7, 3, 8);
    assert_eq!(o, PolyOutput { x: 7, a: 3, y: 372 });
}

#[test]
fn evaluate_wraps_at_each_step() {
    // 65536^3 = 2^48, which is 0 modulo 2^32.
    assert_eq!(evaluate(65536, 0, 0), 0);
    assert_eq!(evaluate(65536, 1, 2), 65538);
    // x = 2^32 - 1: the cube wraps; compare against explicit wrapping steps.
    let xs: [u32; 6] = [0, 1, 0xFFFF_FFFF, 0xDEAD_BEEF, 1 << 16, 77_777_777];
    for &x in xs.iter() {
        let a: u32 = x ^ 0x5A5A_5A5A;
        let b: u32 = x.rotate_left(7);
        let expected = x
            .wrapping_mul(x)
            .wrapping_mul(x)
            .wrapping_add(a.wrapping_mul(x))
            .wrapping_add(b);
        assert_eq!(evaluate(x, a, b), expected);
    }
}

#[test]
fn evaluate_overflow_boundaries() {
    assert_eq!(evaluate(0xFFFF_FFFF, 0, 0), 0xFFFF_FFFFu32.wrapping_pow(3));
    assert_eq!(evaluate(0, 0xFFFF_FFFF, 0xFFFF_FFFF), 0xFFFF_FFFF);
    assert_eq!(evaluate(1, 0xFFFF_FFFF, 1), 1);
}

#[test]
fn poly_encoding_layout() {
    let bytes = polynomial_claim_encoded(7, 3, 8);
    assert_eq!(bytes.len(), 96);
    let mut expected = vec![0u8; 96];
    expected[31] = 7;
    expected[63] = 3;
    expected[94] = 1;
    expected[95] = 116;
    assert_eq!(bytes, expected);
}

#[test]
fn poly_encoding_matches_external_schema() {
    let cases: [(u32, u32, u32); 3] = [(7, 3, 372), (0, 0, 0), (0xFFFF_FFFF, 1, 0xABCD_EF01)];
    for &(x, a, y) in cases.iter() {
        let ours = encode_poly_output(&PolyOutput { x, a, y });
        let theirs =
            <(Uint<32>, Uint<32>, Uint<32>) as SolType>::abi_encode(&(x, a, y));
        assert_eq!(ours, theirs);
    }
}

#[test]
fn poly_round_trip() {
    let o = PolyOutput { x: 7, a: 3, y: 372 };
    let bytes = encode_poly_output(&o);
    assert_eq!(decode_poly_output(bytes.as_slice()), Some(o));
    let o2 = PolyOutput { x: 0xFFFF_FFFF, a: 0, y: 0x8000_0001 };
    let bytes2 = encode_poly_output(&o2);
    assert_eq!(decode_poly_output(bytes2.as_slice()), Some(o2));
}

#[test]
fn poly_decode_rejects_malformed() {
    let o = PolyOutput { x: 1, a: 2, y: 3 };
    let bytes = encode_poly_output(&o);
    assert_eq!(decode_poly_output(&bytes[..95]), None);
    let mut longer = bytes.clone();
    longer.push(0);
    assert_eq!(decode_poly_output(longer.as_slice()), None);
    let mut dirty = bytes.clone();
    dirty[3] = 1;
    assert_eq!(decode_poly_output(dirty.as_slice()), None);
}

#[test]
fn poly_decode_accepts_external_encoding() {
    let theirs = <(Uint<32>, Uint<32>, Uint<32>) as SolType>::abi_encode(&(9u32, 8u32, 7u32));
    assert_eq!(
        decode_poly_output(theirs.as_slice()),
        Some(PolyOutput { x: 9, a: 8, y: 7 })
    );
}
