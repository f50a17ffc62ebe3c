//! Generic Shamir reconstruction at `x = 0`, for scalars and for points,
//! and the cross-subset consistency audit.

use vstd::prelude::*;

use crate::errors::DIBTDError;
use crate::point::Point;
use crate::scalar::{q_val, scalar_add, scalar_mul, Zq};
use crate::types::{MasterPublicKey, PrivateKeyShare};
use crate::utils::{lagrange_at, lagrange_coefficient};

verus! {

/// The values `(index, share)` of a slice of scalar shares.
pub open spec fn share_vals(s: Seq<(usize, Zq)>) -> Seq<(nat, nat)> {
    s.map_values(|p: (usize, Zq)| (p.0 as nat, p.1@))
}

/// The index values of a share sequence.
pub open spec fn share_indices(s: Seq<(nat, nat)>) -> Seq<nat> {
    s.map_values(|p: (nat, nat)| p.0)
}

/// The running Lagrange combination `Σ λ_i(0)·share_i mod q` over the
/// shares in order, `None` when some coefficient has no inverse.
pub open spec fn recon_scalar(shares: Seq<(nat, nat)>, indices: Seq<nat>) -> Option<nat>
    decreases shares.len(),
{
    if shares.len() == 0 {
        Some(0)
    } else {
        match recon_scalar(shares.drop_last(), indices) {
            None => None,
            Some(acc) => match lagrange_at(indices, shares.last().0, 0) {
                None => None,
                Some(c) => Some((acc + (shares.last().1 * c) % q_val()) % q_val()),
            },
        }
    }
}

/// The running Lagrange combination `Σ λ_i(0)·Λ_i` in the exponent, over
/// the shares in order; `None` when a coefficient has no inverse or a step
/// degenerates to the point at infinity.
pub open spec fn recon_point(shares: Seq<(nat, nat)>, indices: Seq<nat>) -> Option<nat>
    decreases shares.len(),
{
    if shares.len() == 0 {
        None
    } else {
        match lagrange_at(indices, shares.last().0, 0) {
            None => None,
            Some(c) => {
                let w = (shares.last().1 * c) % q_val();
                if w == 0 {
                    None
                } else if shares.len() == 1 {
                    Some(w)
                } else {
                    match recon_point(shares.drop_last(), indices) {
                        None => None,
                        Some(acc) => if (acc + w) % q_val() == 0 {
                            None
                        } else {
                            Some((acc + w) % q_val())
                        },
                    }
                }
            },
        }
    }
}

/// A failed scalar combination stays failed when more shares follow.
proof fn lemma_recon_scalar_none_prefix(shares: Seq<(nat, nat)>, indices: Seq<nat>, i: int, m: int)
    requires
        0 <= i <= m <= shares.len(),
        recon_scalar(shares.take(i), indices) is None,
    ensures
        recon_scalar(shares.take(m), indices) is None,
    decreases m - i,
{
    if m > i {
        lemma_recon_scalar_none_prefix(shares, indices, i, m - 1);
        assert(shares.take(m).drop_last() =~= shares.take(m - 1));
    }
}

/// A failed point combination stays failed when more shares follow.
pub(crate) proof fn lemma_recon_point_none_prefix(shares: Seq<(nat, nat)>, indices: Seq<nat>, i: int, m: int)
    requires
        1 <= i <= m <= shares.len(),
        recon_point(shares.take(i), indices) is None,
    ensures
        recon_point(shares.take(m), indices) is None,
    decreases m - i,
{
    if m > i {
        lemma_recon_point_none_prefix(shares, indices, i, m - 1);
        assert(shares.take(m).drop_last() =~= shares.take(m - 1));
        assert(shares.take(m).len() > 1);
    }
}

/// Generic threshold operations over shares.
pub struct ThresholdOperations;

impl ThresholdOperations {
    /// Reconstructs a secret from at least `threshold` scalar shares by
    /// Lagrange interpolation at `x = 0` over the first `threshold` of them.
    pub fn reconstruct_secret(shares: &[(usize, Zq)], threshold: usize) -> (r: Result<
        Zq,
        DIBTDError,
    >)
        ensures
            shares@.len() < threshold ==> r == Err::<Zq, DIBTDError>(
                DIBTDError::InsufficientShares(shares@.len() as usize, threshold),
            ),
            shares@.len() >= threshold ==> {
                let sv = share_vals(shares@).take(threshold as int);
                let iv = share_indices(share_vals(shares@).take(threshold as int));
                &&& (r matches Ok(v) ==> recon_scalar(sv, iv) == Some(v@))
                &&& (r is Ok <==> recon_scalar(sv, iv) is Some)
                &&& (r is Err ==> r == Err::<Zq, DIBTDError>(DIBTDError::InvalidThreshold(0, 0)))
            },
    {
        if shares.len() < threshold {
            return Err(DIBTDError::InsufficientShares(shares.len(), threshold));
        }
        let ghost sv = share_vals(shares@).take(threshold as int);
        let ghost iv = share_indices(share_vals(shares@).take(threshold as int));
        let mut indices: Vec<usize> = Vec::new();
        let mut i: usize = 0;
        while i < threshold
            invariant
                0 <= i <= threshold,
                threshold <= shares@.len(),
                indices@.len() == i,
                forall|k: int| 0 <= k < i ==> indices@[k] == shares@[k].0,
            decreases threshold - i,
        {
            indices.push(shares[i].0);
            i = i + 1;
        }
        proof {
            assert(crate::utils::idx_vals(indices@) =~= iv);
        }
        let mut result = Zq::from_u32(0);
        let mut j: usize = 0;
        while j < threshold
            invariant
                0 <= j <= threshold,
                threshold <= shares@.len(),
                crate::utils::idx_vals(indices@) == iv,
                indices@.len() == threshold,
                sv == share_vals(shares@).take(threshold as int),
                iv == share_indices(sv),
                recon_scalar(sv.take(j as int), iv) == Some(result@),
            decreases threshold - j,
        {
            let coeff = match lagrange_coefficient(indices.as_slice(), shares[j].0, 0) {
                Ok(c) => c,
                Err(e) => {
                    proof {
                        assert(sv.take(j + 1 as int).drop_last() =~= sv.take(j as int));
                        assert(sv.take(j + 1 as int).last() == sv[j as int]);
                        assert(recon_scalar(sv.take(j + 1 as int), iv) is None);
                        lemma_recon_scalar_none_prefix(sv, iv, j + 1, threshold as int);
                        assert(sv.take(threshold as int) =~= sv);
                    }
                    return Err(e);
                },
            };
            let weighted = scalar_mul(&shares[j].1, &coeff);
            result = scalar_add(&result, &weighted);
            proof {
                assert(sv.take(j + 1 as int).drop_last() =~= sv.take(j as int));
                assert(sv.take(j + 1 as int).last() == sv[j as int]);
            }
            j = j + 1;
        }
        proof {
            assert(sv.take(threshold as int) =~= sv);
        }
        Ok(result)
    }

    /// Reconstructs a public value from at least `threshold` point shares by
    /// Lagrange interpolation in the exponent over the first `threshold`.
    pub fn reconstruct_public_key(shares: &[(usize, Point)], threshold: usize) -> (r: Result<
        Point,
        DIBTDError,
    >)
        ensures
            shares@.len() < threshold ==> r == Err::<Point, DIBTDError>(
                DIBTDError::InsufficientShares(shares@.len() as usize, threshold),
            ),
            shares@.len() >= threshold ==> {
                let sv = pt_share_vals(shares@).take(threshold as int);
                let iv = share_indices(pt_share_vals(shares@).take(threshold as int));
                &&& (r matches Ok(p) ==> recon_point(sv, iv) == Some(p@))
                &&& (r is Ok <==> recon_point(sv, iv) is Some)
                &&& (r is Err ==> r == Err::<Point, DIBTDError>(DIBTDError::InvalidThreshold(0, 0))
                    || r == Err::<Point, DIBTDError>(DIBTDError::DecryptionFailed))
            },
    {
        if shares.len() < threshold {
            return Err(DIBTDError::InsufficientShares(shares.len(), threshold));
        }
        let ghost sv = pt_share_vals(shares@).take(threshold as int);
        let ghost iv = share_indices(pt_share_vals(shares@).take(threshold as int));
        let mut indices: Vec<usize> = Vec::new();
        let mut i: usize = 0;
        while i < threshold
            invariant
                0 <= i <= threshold,
                threshold <= shares@.len(),
                indices@.len() == i,
                forall|k: int| 0 <= k < i ==> indices@[k] == shares@[k].0,
            decreases threshold - i,
        {
            indices.push(shares[i].0);
            i = i + 1;
        }
        proof {
            assert(crate::utils::idx_vals(indices@) =~= iv);
        }
        let mut result: Option<Point> = None;
        let mut j: usize = 0;
        while j < threshold
            invariant
                0 <= j <= threshold,
                threshold <= shares@.len(),
                crate::utils::idx_vals(indices@) == iv,
                indices@.len() == threshold,
                sv == pt_share_vals(shares@).take(threshold as int),
                iv == share_indices(sv),
                j == 0 ==> result is None,
                j > 0 ==> (result matches Some(p) && recon_point(sv.take(j as int), iv)
                    == Some(p@)),
            decreases threshold - j,
        {
            proof {
                assert(sv.take(j + 1 as int).drop_last() =~= sv.take(j as int));
                assert(sv.take(j + 1 as int).last() == sv[j as int]);
            }
            let coeff = match lagrange_coefficient(indices.as_slice(), shares[j].0, 0) {
                Ok(c) => c,
                Err(e) => {
                    proof {
                        assert(recon_point(sv.take(j + 1 as int), iv) is None);
                        lemma_recon_point_none_prefix(sv, iv, j + 1, threshold as int);
                        assert(sv.take(threshold as int) =~= sv);
                    }
                    return Err(e);
                },
            };
            let weighted = match shares[j].1.mul_scalar(&coeff) {
                Some(w) => w,
                None => {
                    proof {
                        assert(recon_point(sv.take(j + 1 as int), iv) is None);
                        lemma_recon_point_none_prefix(sv, iv, j + 1, threshold as int);
                        assert(sv.take(threshold as int) =~= sv);
                    }
                    return Err(DIBTDError::DecryptionFailed);
                },
            };
            let next = match result {
                None => weighted,
                Some(acc) => match acc.add_point(&weighted) {
                    Some(s) => s,
                    None => {
                        proof {
                            assert(recon_point(sv.take(j + 1 as int), iv) is None);
                            lemma_recon_point_none_prefix(sv, iv, j + 1, threshold as int);
                            assert(sv.take(threshold as int) =~= sv);
                        }
                        return Err(DIBTDError::DecryptionFailed);
                    },
                },
            };
            result = Some(next);
            j = j + 1;
        }
        proof {
            assert(sv.take(threshold as int) =~= sv);
        }
        match result {
            Some(p) => Ok(p),
            None => Err(DIBTDError::DecryptionFailed),
        }
    }

    /// Audits that two overlapping `threshold`-subsets of the shares
    /// reconstruct the same secret; with exactly `threshold` shares it
    /// trivially accepts, with fewer it rejects.
    pub fn verify_threshold_consistency(
        shares: &[PrivateKeyShare],
        _mpk: &MasterPublicKey,
        _group_id: &str,
        threshold: usize,
    ) -> (r: Result<bool, DIBTDError>)
        ensures
            shares@.len() < threshold ==> r == Ok::<bool, DIBTDError>(false),
            shares@.len() == threshold ==> r == Ok::<bool, DIBTDError>(true),
            threshold == 0 && shares@.len() > 0 ==> r == Ok::<bool, DIBTDError>(true),
            shares@.len() > threshold && threshold >= 1 ==> {
                let sv = pk_share_vals(shares@);
                let s1 = sv.take(threshold as int);
                let s2 = sv.subrange(1, threshold as int).push(sv[threshold as int]);
                let v1 = recon_scalar(s1, share_indices(s1));
                let v2 = recon_scalar(s2, share_indices(s2));
                &&& (r matches Ok(b) ==> v1 matches Some(a) && v2 matches Some(c) && b == (
                a == c))
                &&& (r is Ok <==> v1 is Some && v2 is Some)
            },
    {
        if shares.len() < threshold {
            return Ok(false);
        }
        if shares.len() == threshold {
            return Ok(true);
        }
        if threshold == 0 {
            return Ok(true);
        }
        let ghost sv = pk_share_vals(shares@);
        let mut subset1: Vec<(usize, Zq)> = Vec::new();
        let mut i: usize = 0;
        while i < threshold
            invariant
                0 <= i <= threshold,
                threshold < shares@.len(),
                subset1@.len() == i,
                forall|k: int| #![auto]
                    0 <= k < i ==> subset1@[k].0 == shares@[k].index && subset1@[k].1@
                        == shares@[k].psi_i@,
            decreases threshold - i,
        {
            subset1.push((shares[i].index, shares[i].psi_i.duplicate()));
            i = i + 1;
        }
        let mut subset2: Vec<(usize, Zq)> = Vec::new();
        let mut j: usize = 0;
        while j < threshold
            invariant
                0 <= j <= threshold,
                threshold < shares@.len(),
                subset2@.len() == j,
                forall|k: int| #![auto]
                    0 <= k < j ==> subset2@[k].0 == shares@[k + 1].index && subset2@[k].1@
                        == shares@[k + 1].psi_i@,
            decreases threshold - j,
        {
            subset2.push((shares[j + 1].index, shares[j + 1].psi_i.duplicate()));
            j = j + 1;
        }
        proof {
            let target = sv.subrange(1, threshold as int).push(sv[threshold as int]);
            assert(share_vals(subset1@) =~= sv.take(threshold as int));
            assert forall|k: int| 0 <= k < threshold implies share_vals(subset2@)[k]
                == target[k] by {
                assert(share_vals(subset2@)[k] == (subset2@[k].0 as nat, subset2@[k].1@));
                assert(sv[k + 1] == (shares@[k + 1].index as nat, shares@[k + 1].psi_i@));
                if k < threshold - 1 {
                    assert(target[k] == sv[k + 1]);
                } else {
                    assert(target[k] == sv[threshold as int]);
                }
            }
            assert(share_vals(subset2@) =~= target);
            assert(share_vals(subset1@).take(threshold as int) =~= share_vals(subset1@));
            assert(share_vals(subset2@).take(threshold as int) =~= share_vals(subset2@));
        }
        let secret1 = match Self::reconstruct_secret(subset1.as_slice(), threshold) {
            Ok(s) => s,
            Err(e) => {
                return Err(e);
            },
        };
        let secret2 = match Self::reconstruct_secret(subset2.as_slice(), threshold) {
            Ok(s) => s,
            Err(e) => {
                return Err(e);
            },
        };
        Ok(secret1.eq_scalar(&secret2))
    }
}

/// The values `(index, exponent)` of a slice of point shares.
pub open spec fn pt_share_vals(s: Seq<(usize, Point)>) -> Seq<(nat, nat)> {
    s.map_values(|p: (usize, Point)| (p.0 as nat, p.1@))
}

/// The values `(index, ψ)` of a slice of private key shares.
pub open spec fn pk_share_vals(s: Seq<PrivateKeyShare>) -> Seq<(nat, nat)> {
    s.map_values(|p: PrivateKeyShare| (p.index as nat, p.psi_i@))
}

} // verus!
