//! Verifiable claim computations: deterministic, fail-closed kernels that turn
//! a private witness and public parameters into a public output, together with
//! the integrity checks that must hold before that output is emitted.

pub mod address;
pub mod bytes;
pub mod claim;
pub mod hashing;
pub mod output;
pub mod poly;
pub mod signature;

pub use address::{public_key_to_address, public_key_to_eth_address};
pub use claim::{run_account_claim, run_bitcoin_claim, run_polynomial_claim, ClaimError};
pub use output::{
    decode_identity_output, decode_poly_output, encode_identity_output, encode_poly_output,
    IdentityOutput, PolyOutput,
};
pub use poly::evaluate;
pub use signature::verify_btc;
