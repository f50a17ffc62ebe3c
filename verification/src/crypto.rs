//! Zero-knowledge proofs for decryption shares and group key derivation.

use vstd::prelude::*;

use crate::errors::DIBTDError;
use crate::point::{pt_bytes, Point};
use crate::scalar::q_val;
use crate::types::{DecryptionShare, MasterPublicKey, PrivateKeyShare, Proof};
use crate::utils::{h1_val, hash_h1, schnorr_accepts, schnorr_challenge, schnorr_prove, schnorr_verify};
use vstd::string::StringSliceAdditionalSpecFns;

verus! {

/// Schnorr proofs binding a decryption share to its verification key.
pub struct ZKProof;

impl ZKProof {
    /// Proves knowledge of the member's private share `ψ_i`, bound to a
    /// context string.  The decryption share is not folded into the
    /// transcript; it only rides along in the call shape.
    pub fn prove_share(
        private_share: &PrivateKeyShare,
        _decryption_share: &DecryptionShare,
        context: &str,
    ) -> (r: Result<Proof, DIBTDError>)
        ensures
            r matches Ok(p) ==> p.r@ != 0 && p.mu@ == (p.r@ + private_share.psi_i@
                * schnorr_challenge(context.spec_bytes(), pt_bytes(p.r@))) % q_val(),
            r is Err ==> r == Err::<Proof, DIBTDError>(DIBTDError::KeyGenerationFailed),
    {
        schnorr_prove(&private_share.psi_i, context)
    }

    /// Verifies a Schnorr proof against a verification key and a context.
    pub fn verify_share(proof: &Proof, verification_key: &Point, context: &str) -> (r: bool)
        ensures
            r == schnorr_accepts(
                proof.r@,
                proof.mu@,
                verification_key@,
                context.spec_bytes(),
            ),
    {
        schnorr_verify(proof, verification_key, context)
    }

    /// Verifies a batch of proofs pairwise against a batch of keys: accepts
    /// exactly when the lengths match and every pair verifies.
    pub fn batch_verify(proofs: &[Proof], verification_keys: &[Point], context: &str) -> (r:
        bool)
        ensures
            r == (proofs@.len() == verification_keys@.len() && (forall|i: int|
                0 <= i < proofs@.len() ==> #[trigger] schnorr_accepts(
                    proofs@[i].r@,
                    proofs@[i].mu@,
                    verification_keys@[i]@,
                    context.spec_bytes(),
                ))),
    {
        if proofs.len() != verification_keys.len() {
            return false;
        }
        let n = proofs.len();
        let mut i: usize = 0;
        while i < n
            invariant
                0 <= i <= n,
                n == proofs@.len(),
                n == verification_keys@.len(),
                forall|k: int|
                    0 <= k < i ==> #[trigger] schnorr_accepts(
                        proofs@[k].r@,
                        proofs@[k].mu@,
                        verification_keys@[k]@,
                        context.spec_bytes(),
                    ),
            decreases n - i,
        {
            if !Self::verify_share(&proofs[i], &verification_keys[i], context) {
                return false;
            }
            i = i + 1;
        }
        true
    }
}

/// Derivation and checking of per-group key material.
pub struct KeyDerivation;

impl KeyDerivation {
    /// The group's public key `Y + H1(id)·Γ`, failing when either group
    /// operation would degenerate to the point at infinity.
    pub fn derive_group_public_key(mpk: &MasterPublicKey, group_id: &str) -> (r: Result<
        Point,
        DIBTDError,
    >)
        ensures
            ({
                let hg = (h1_val(group_id.spec_bytes()) * mpk.gamma@) % q_val();
                let gk = (mpk.y@ + hg) % q_val();
                &&& (r matches Ok(p) ==> p@ == gk)
                &&& (r is Ok <==> hg != 0 && gk != 0)
                &&& (r is Err ==> r == Err::<Point, DIBTDError>(DIBTDError::KeyGenerationFailed))
            }),
    {
        let id_hash = hash_h1(group_id.as_bytes());
        let gamma_scaled = match mpk.gamma.mul_scalar(&id_hash) {
            Some(p) => p,
            None => {
                return Err(DIBTDError::KeyGenerationFailed);
            },
        };
        match mpk.y.add_point(&gamma_scaled) {
            Some(p) => Ok(p),
            None => Err(DIBTDError::KeyGenerationFailed),
        }
    }

    /// Checks that a private key share matches its verification key:
    /// `ψ_i · P == VK`.  Fails when `ψ_i` cannot be used as a secret key.
    pub fn verify_private_share(
        share: &PrivateKeyShare,
        _mpk: &MasterPublicKey,
        _group_id: &str,
    ) -> (r: Result<bool, DIBTDError>)
        ensures
            r is Ok <==> share.psi_i@ != 0,
            r matches Ok(b) ==> b == (share.psi_i@ == share.verification_key@),
            r is Err ==> r == Err::<bool, DIBTDError>(DIBTDError::KeyGenerationFailed),
    {
        let expected_vk = match Point::from_scalar(&share.psi_i) {
            Some(p) => p,
            None => {
                return Err(DIBTDError::KeyGenerationFailed);
            },
        };
        let eq = expected_vk.eq_point(&share.verification_key);
        proof {
            if share.verification_key@ != share.psi_i@ {
                assert(pt_bytes(share.verification_key@) != pt_bytes(expected_vk@));
            }
        }
        Ok(eq)
    }
}

} // verus!
