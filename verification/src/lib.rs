//! Poseidon hashing, byte packing, commitments and the prover and verifier
//! inputs of the token-issuance circuits.

pub mod bignat;
pub mod field;
pub mod poseidon;
pub mod constants;
pub mod packing;
pub mod commitment;
pub mod ec;
pub mod text;
pub mod input_map;
pub mod pcs;
pub mod create_input;
pub mod token_input;
pub mod sample_inputs;
