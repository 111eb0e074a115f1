//! Chaum–Pedersen password-less authentication: the prover's commitment and
//! response, the verifier's check, and the server-side store that sequences
//! registration, challenge issuance and verification.
//!
//! Every function carries a contract over mathematical naturals; the
//! arbitrary-precision arithmetic itself is done by `num-bigint` behind a small
//! set of trusted wrappers in [`bignat`] and [`entropy`].

pub mod bignat;
pub mod client;
pub mod encoding;
pub mod entropy;
pub mod error;
pub mod group;
pub mod models;
pub mod primes;
pub mod protocol;
pub mod server;
pub mod soundness;
pub mod store;
