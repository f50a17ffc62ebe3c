//! Error kinds surfaced across the library boundary.

use vstd::prelude::*;

verus! {

/// Every fallible operation of the library returns one of these tags, so
/// callers can branch on the exact failure.
#[derive(Clone, Debug, PartialEq, Eq)]
pub enum DIBTDError {
    /// Threshold parameters rejected: holds `(t, n)`.
    InvalidThreshold(usize, usize),
    /// Too few shares for reconstruction: holds `(got, need)`.
    InsufficientShares(usize, usize),
    /// A received share does not match the sender's commitment.
    InvalidShareVerification,
    /// A Schnorr proof failed verification.
    InvalidProof,
    /// The recovered plaintext failed the consistency check.
    DecryptionFailed,
    /// A scalar could not be used as a secret key (for example, it is zero),
    /// or a group operation degenerated to the point at infinity.
    KeyGenerationFailed,
    /// The ciphertext failed its sanity check.
    InvalidCiphertext,
    /// A value could not be encoded or decoded.
    SerializationError(String),
    /// The AEAD envelope could not be processed.
    AEADError(String),
    /// The group identity was rejected.
    InvalidGroupIdentity,
    /// The key generation ceremony could not proceed.
    DKGProtocolFailed(String),
}

} // verus!
