//! Proof-of-work mining for the H98 token.
//!
//! A nonce is a solution when the Keccak-256 digest of the challenge followed
//! by the nonce lies below the difficulty. The library holds the rules of the
//! miner: the proof check, the nonce sequence of a CPU worker, the batch
//! pipeline of the GPU backend, and the JSON-RPC messages and call data that
//! go to and come from the contract.

pub mod bytes;
pub mod calldata;
pub mod gpu;
pub mod hexadecimal;
pub mod json;
pub mod nonce;
pub mod pipeline;
pub mod pow;
pub mod rpc;
pub mod settings;
pub mod words;
pub mod worker;
