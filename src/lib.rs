//! The symmetric state of a Noise-style handshake: a running transcript hash
//! and a chaining key, threaded through key derivation and authenticated
//! encryption until two transport keys are split off.
//!
//! The state is generic over a hash capability (`types::HashFunction`) and a
//! cipher capability (`types::Cipher`); `hashes` and `chachapoly` provide
//! SHA-256, SHA-512 and ChaCha20-Poly1305 ones.

pub mod constants;
pub mod types;
pub mod symmetricstate;
pub mod lemmas;
pub mod hashes;
pub mod chachapoly;
pub mod utils;
