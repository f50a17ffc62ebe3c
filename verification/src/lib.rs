//! Identity-based threshold decryption over the secp256k1 group.
//!
//! A master keypair is produced by a distributed key generation ceremony run
//! by `n` centers under a `(t, n)` threshold.  Per-group private key shares
//! are derived for a group identity string, and any `k` of `m` group members
//! can cooperatively decrypt a ciphertext addressed to that group.

pub mod aead;
pub mod bytes;
pub mod crypto;
pub mod dkg;
pub mod encryption;
pub mod errors;
pub mod point;
pub mod scalar;
pub mod threshold;
pub mod types;
pub mod utils;
