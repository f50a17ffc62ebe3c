//! The identity-based threshold encryption engine: encrypt, share-decrypt
//! with a ciphertext sanity check, and Lagrange-combined decrypt with a
//! consistency check of the recovered plaintext.

use vstd::prelude::*;

use crate::bytes::{append_bytes, lemma_xor_unmask, pad_trunc, xor_seq};
use crate::errors::DIBTDError;
use crate::point::{pt_bytes, Point};
use crate::scalar::{q_val, scalar_add, scalar_mul, Zq};
use crate::threshold::{recon_point, share_indices, pt_share_vals, ThresholdOperations};
use crate::types::{Ciphertext, DecryptionShare, MasterPublicKey, PrivateKeyShare};
use crate::utils::{
    h1_val, h2_val, h3_val, hash_h1, hash_h2, hash_h2_bytes, hash_h3, pad_or_truncate, xor_bytes,
};
use vstd::arithmetic::div_mod::{lemma_add_mod_noop, lemma_small_mod};
use vstd::string::StringSliceAdditionalSpecFns;

verus! {

/// Whether encryption under the randomness `u` goes through: none of the
/// intermediate group operations may degenerate, and the derived scalar `r`
/// must be usable as a secret key.
pub open spec fn encrypt_ok(y: nat, gamma: nat, id: Seq<u8>, m: Seq<u8>, u: nat) -> bool {
    let hg = (h1_val(id) * gamma) % q_val();
    let gk = (y + hg) % q_val();
    let de = (gk * u) % q_val();
    hg != 0 && gk != 0 && de != 0 && h1_val(m + pt_bytes(de)) != 0
}

/// What a ciphertext produced for plaintext `m` under master key `(y, γ)`
/// and identity `id` satisfies, with `u` read off as the discrete logarithm
/// of `D`: `Δ = u·(Y + H1(id)·Γ)`, `E = H1(m ‖ Δ)·P`,
/// `F = Ω' ⊕ Θ' ⊕ m`, and `δ = u + r·H3(D, E, F) mod q`.
pub open spec fn encrypt_rel(y: nat, gamma: nat, id: Seq<u8>, m: Seq<u8>, c: Ciphertext) -> bool {
    let u = c.d@;
    let hg = (h1_val(id) * gamma) % q_val();
    let gk = (y + hg) % q_val();
    let de = (gk * u) % q_val();
    let delta_b = pt_bytes(de);
    let rr = h1_val(m + delta_b);
    let theta = h2_val(delta_b);
    let tp = pad_trunc(theta, m.len());
    let omega = h2_val(pt_bytes(rr) + theta);
    let op = pad_trunc(omega, m.len());
    &&& 0 < u < q_val()
    &&& c.e@ == rr
    &&& c.f@ == xor_seq(op, xor_seq(tp, m))
    &&& c.f@.len() == m.len()
    &&& c.delta@ == (u + rr * h3_val(pt_bytes(u), pt_bytes(rr), c.f@)) % q_val()
}

/// The sanity condition that `share_decrypt` checks before applying the
/// member's key: `δ·P == D + H3(D, E, F)·E`, with neither side degenerate.
pub open spec fn ciphertext_sane(c: Ciphertext) -> bool {
    let h3v = h3_val(pt_bytes(c.d@), pt_bytes(c.e@), c.f@);
    let he = (h3v * c.e@) % q_val();
    let sum = (c.d@ + he) % q_val();
    he != 0 && sum != 0 && c.delta@ == sum
}

/// What the unmasking step of `decrypt` recovers from a ciphertext, given
/// the exponent of the interpolated point `Δ`.
pub open spec fn recovered_plaintext(c: Ciphertext, de: nat) -> Seq<u8> {
    let theta = h2_val(pt_bytes(de));
    let tp = pad_trunc(theta, c.f@.len());
    let omega = h2_val(pt_bytes(c.e@) + theta);
    let op = pad_trunc(omega, c.f@.len());
    xor_seq(xor_seq(c.f@, op), tp)
}

/// The values `(index, Λ exponent)` of a slice of decryption shares.
pub open spec fn dec_share_vals(s: Seq<DecryptionShare>) -> Seq<(nat, nat)> {
    s.map_values(|d: DecryptionShare| (d.index as nat, d.lambda_i@))
}

/// If a ciphertext stands in the encryption relation for plaintext `m`, and
/// the interpolated `Δ` exponent equals the one fixed at encryption, then
/// unmasking recovers exactly `m` and the consistency check
/// `H1(m ‖ Δ)·P == E` accepts.  This is the deterministic half of
/// correctness; that the share combination yields that exponent is a
/// property of the group arithmetic behind the trusted wrappers.
pub proof fn lemma_decrypt_round_trip(
    y: nat,
    gamma: nat,
    id: Seq<u8>,
    m: Seq<u8>,
    c: Ciphertext,
    de: nat,
)
    requires
        encrypt_rel(y, gamma, id, m, c),
        de == (((y + (h1_val(id) * gamma) % q_val()) % q_val()) * c.d@) % q_val(),
    ensures
        recovered_plaintext(c, de) =~= m,
        h1_val(recovered_plaintext(c, de) + pt_bytes(de)) == c.e@,
{
    let delta_b = pt_bytes(de);
    let theta = h2_val(delta_b);
    let tp = pad_trunc(theta, m.len());
    let omega = h2_val(pt_bytes(c.e@) + theta);
    let op = pad_trunc(omega, m.len());
    assert(c.f@ == xor_seq(op, xor_seq(tp, m)));
    lemma_xor_unmask(tp, op, m);
    assert(xor_seq(xor_seq(c.f@, op), tp) =~= m);
    assert(recovered_plaintext(c, de) =~= m);
}

/// The identity-based threshold encryption scheme.
pub struct DIBTDEncryption;

impl DIBTDEncryption {
    /// Encrypts a message for a group identity under the master public key,
    /// with a caller-supplied random scalar `u`.  Deterministic in its
    /// arguments; fails exactly when `u` or a derived value degenerates.
    pub fn encrypt_with_randomness(
        message: &[u8],
        group_id: &str,
        mpk: &MasterPublicKey,
        u: &Zq,
    ) -> (r: Result<Ciphertext, DIBTDError>)
        ensures
            r is Ok <==> encrypt_ok(
                mpk.y@,
                mpk.gamma@,
                group_id.spec_bytes(),
                message@,
                u@,
            ),
            r matches Ok(c) ==> c.d@ == u@ && encrypt_rel(
                mpk.y@,
                mpk.gamma@,
                group_id.spec_bytes(),
                message@,
                c,
            ),
            r is Err ==> r == Err::<Ciphertext, DIBTDError>(DIBTDError::KeyGenerationFailed),
    {
        let id_hash = hash_h1(group_id.as_bytes());
        let gamma_scaled = match mpk.gamma.mul_scalar(&id_hash) {
            Some(p) => p,
            None => {
                return Err(DIBTDError::KeyGenerationFailed);
            },
        };
        let combined = match mpk.y.add_point(&gamma_scaled) {
            Some(p) => p,
            None => {
                return Err(DIBTDError::KeyGenerationFailed);
            },
        };
        let delta_pt = match combined.mul_scalar(u) {
            Some(p) => p,
            None => {
                return Err(DIBTDError::KeyGenerationFailed);
            },
        };
        let d = match Point::from_scalar(u) {
            Some(p) => p,
            None => {
                proof {
                    assert(false);
                }
                return Err(DIBTDError::KeyGenerationFailed);
            },
        };
        let mut r_input: Vec<u8> = Vec::new();
        append_bytes(&mut r_input, message);
        append_bytes(&mut r_input, delta_pt.compressed().as_slice());
        let r_scalar = hash_h1(r_input.as_slice());
        let e = match Point::from_scalar(&r_scalar) {
            Some(p) => p,
            None => {
                return Err(DIBTDError::KeyGenerationFailed);
            },
        };
        let theta = hash_h2(&delta_pt);
        let theta_padded = pad_or_truncate(theta.as_slice(), message.len());
        let mut omega_input: Vec<u8> = Vec::new();
        append_bytes(&mut omega_input, e.compressed().as_slice());
        append_bytes(&mut omega_input, theta.as_slice());
        let omega = hash_h2_bytes(omega_input.as_slice());
        let omega_padded = pad_or_truncate(omega.as_slice(), message.len());
        let x = xor_bytes(theta_padded.as_slice(), message);
        let f = xor_bytes(omega_padded.as_slice(), x.as_slice());
        let h3v = hash_h3(&d, &e, f.as_slice());
        let r_h3 = scalar_mul(&r_scalar, &h3v);
        let delta_scalar = scalar_add(u, &r_h3);
        proof {
            let q = q_val() as int;
            lemma_small_mod(u@, q_val());
            lemma_small_mod((r_scalar@ * h3v@) % q_val(), q_val());
            lemma_add_mod_noop(u@ as int, (r_scalar@ * h3v@) as int, q);
            lemma_add_mod_noop(u@ as int, ((r_scalar@ * h3v@) % q_val()) as int, q);
        }
        Ok(Ciphertext { d, e, f, delta: delta_scalar })
    }

    /// Encrypts a message for a group identity under the master public key,
    /// drawing fresh randomness.  The ciphertext body `F` has exactly the
    /// plaintext's length.
    pub fn encrypt(message: &[u8], group_id: &str, mpk: &MasterPublicKey) -> (r: Result<
        Ciphertext,
        DIBTDError,
    >)
        ensures
            r matches Ok(c) ==> encrypt_rel(
                mpk.y@,
                mpk.gamma@,
                group_id.spec_bytes(),
                message@,
                c,
            ) && c.f@.len() == message@.len(),
            r is Err ==> r == Err::<Ciphertext, DIBTDError>(DIBTDError::KeyGenerationFailed),
    {
        let u = Zq::random();
        Self::encrypt_with_randomness(message, group_id, mpk, &u)
    }

    /// Checks the ciphertext's sanity equation and, when it holds, produces
    /// the member's decryption share `Λ_i = ψ_i · D`.
    pub fn share_decrypt(ciphertext: &Ciphertext, private_share: &PrivateKeyShare) -> (r: Result<
        DecryptionShare,
        DIBTDError,
    >)
        ensures
            r matches Ok(s) ==> ciphertext_sane(*ciphertext) && s.index == private_share.index
                && s.lambda_i@ == (private_share.psi_i@ * ciphertext.d@) % q_val(),
            !ciphertext_sane(*ciphertext) <==> r == Err::<DecryptionShare, DIBTDError>(
                DIBTDError::InvalidCiphertext,
            ),
            ciphertext_sane(*ciphertext) && (private_share.psi_i@ * ciphertext.d@) % q_val()
                == 0 <==> r == Err::<DecryptionShare, DIBTDError>(
                DIBTDError::KeyGenerationFailed,
            ),
    {
        let delta_point = match Point::from_scalar(&ciphertext.delta) {
            Some(p) => p,
            None => {
                return Err(DIBTDError::InvalidCiphertext);
            },
        };
        let h3v = hash_h3(&ciphertext.d, &ciphertext.e, ciphertext.f.as_slice());
        let e_scaled = match ciphertext.e.mul_scalar(&h3v) {
            Some(p) => p,
            None => {
                return Err(DIBTDError::InvalidCiphertext);
            },
        };
        let expected = match ciphertext.d.add_point(&e_scaled) {
            Some(p) => p,
            None => {
                return Err(DIBTDError::InvalidCiphertext);
            },
        };
        if !delta_point.eq_point(&expected) {
            proof {
                if ciphertext.delta@ == expected@ {
                    assert(delta_point@ == expected@);
                }
            }
            return Err(DIBTDError::InvalidCiphertext);
        }
        proof {
            if expected@ != ciphertext.delta@ {
                assert(pt_bytes(expected@) != pt_bytes(delta_point@));
            }
        }
        let lambda_i = match ciphertext.d.mul_scalar(&private_share.psi_i) {
            Some(p) => p,
            None => {
                return Err(DIBTDError::KeyGenerationFailed);
            },
        };
        Ok(DecryptionShare { index: private_share.index, lambda_i })
    }

    /// Combines at least `threshold` decryption shares by Lagrange
    /// interpolation in the exponent, unmasks the plaintext, and verifies
    /// its consistency against `E` before returning it.
    pub fn decrypt(ciphertext: &Ciphertext, shares: &[DecryptionShare], threshold: usize) -> (r:
        Result<Vec<u8>, DIBTDError>)
        ensures
            shares@.len() < threshold <==> r == Err::<Vec<u8>, DIBTDError>(
                DIBTDError::InsufficientShares(shares@.len() as usize, threshold),
            ),
            shares@.len() >= threshold ==> {
                let sv = dec_share_vals(shares@).take(threshold as int);
                let iv = share_indices(sv);
                &&& (r matches Ok(m) ==> recon_point(sv, iv) matches Some(de) && m@
                    == recovered_plaintext(*ciphertext, de) && h1_val(
                    m@ + pt_bytes(de),
                ) == ciphertext.e@ && m@.len() == ciphertext.f@.len())
                &&& (r is Ok <==> (recon_point(sv, iv) matches Some(de) && h1_val(
                    recovered_plaintext(*ciphertext, de) + pt_bytes(de),
                ) == ciphertext.e@))
                &&& (r is Err ==> r == Err::<Vec<u8>, DIBTDError>(DIBTDError::DecryptionFailed)
                    || r == Err::<Vec<u8>, DIBTDError>(DIBTDError::InvalidThreshold(0, 0)))
            },
    {
        if shares.len() < threshold {
            return Err(DIBTDError::InsufficientShares(shares.len(), threshold));
        }
        let ghost sv = dec_share_vals(shares@).take(threshold as int);
        let ghost iv = share_indices(sv);
        let mut point_shares: Vec<(usize, Point)> = Vec::new();
        let mut i: usize = 0;
        while i < threshold
            invariant
                0 <= i <= threshold,
                threshold <= shares@.len(),
                point_shares@.len() == i,
                forall|k: int| #![auto]
                    0 <= k < i ==> point_shares@[k].0 == shares@[k].index
                        && point_shares@[k].1@ == shares@[k].lambda_i@,
            decreases threshold - i,
        {
            point_shares.push((shares[i].index, shares[i].lambda_i.duplicate()));
            i = i + 1;
        }
        proof {
            assert(pt_share_vals(point_shares@) =~= sv);
            assert(pt_share_vals(point_shares@).take(threshold as int) =~= sv);
        }
        let delta = match ThresholdOperations::reconstruct_public_key(
            point_shares.as_slice(),
            threshold,
        ) {
            Ok(p) => p,
            Err(e) => {
                return Err(e);
            },
        };
        let theta = hash_h2(&delta);
        let theta_padded = pad_or_truncate(theta.as_slice(), ciphertext.f.len());
        let mut omega_input: Vec<u8> = Vec::new();
        append_bytes(&mut omega_input, ciphertext.e.compressed().as_slice());
        append_bytes(&mut omega_input, theta.as_slice());
        let omega = hash_h2_bytes(omega_input.as_slice());
        let omega_padded = pad_or_truncate(omega.as_slice(), ciphertext.f.len());
        let x = xor_bytes(ciphertext.f.as_slice(), omega_padded.as_slice());
        let message = xor_bytes(x.as_slice(), theta_padded.as_slice());
        let mut r_input: Vec<u8> = Vec::new();
        append_bytes(&mut r_input, message.as_slice());
        append_bytes(&mut r_input, delta.compressed().as_slice());
        let r_scalar = hash_h1(r_input.as_slice());
        let expected_e = match Point::from_scalar(&r_scalar) {
            Some(p) => p,
            None => {
                return Err(DIBTDError::DecryptionFailed);
            },
        };
        if !expected_e.eq_point(&ciphertext.e) {
            proof {
                if r_scalar@ == ciphertext.e@ {
                    assert(expected_e@ == ciphertext.e@);
                }
            }
            return Err(DIBTDError::DecryptionFailed);
        }
        proof {
            if ciphertext.e@ != r_scalar@ {
                assert(pt_bytes(ciphertext.e@) != pt_bytes(expected_e@));
            }
        }
        Ok(message)
    }
}

} // verus!
