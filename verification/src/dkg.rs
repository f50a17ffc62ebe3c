//! The distributed key generation ceremony: two parallel Shamir sharings
//! that produce the master public key `(Y, Γ)` and each center's share
//! `(s_i, z_i)`, plus the per-group key derivation.

use vstd::prelude::*;

use crate::errors::DIBTDError;
use crate::point::Point;
use crate::scalar::{q_val, scalar_add, scalar_mul, Zq};
use crate::threshold::{
    recon_point, recon_scalar, share_indices, share_vals, ThresholdOperations,
};
use crate::types::{
    coeff_vals, poly_eval_q, MasterPublicKey, MasterSecretShare, GroupIdentity, Polynomial,
    PrivateKeyShare, SystemParams,
};
use crate::utils::{h1_val, hash_h1, idx_vals, lagrange_coefficient};
use vstd::string::StringSliceAdditionalSpecFns;
use vstd::utf8::encode_utf8;

verus! {

/// One center's state during a ceremony run: its two polynomials, the
/// per-recipient commitments `f_b(j)·P`, and the shares received so far
/// (slot `s − 1` holds the pair sent by center `s`).
pub struct DKGParticipant {
    pub index: usize,
    pub f_0: Polynomial,
    pub f_1: Polynomial,
    pub commitments_0: Vec<Point>,
    pub commitments_1: Vec<Point>,
    pub shares_received: Vec<Option<(Zq, Zq)>>,
}

/// Well-formedness of a participant sitting in slot `slot` of a ceremony
/// with parameters `(n, t)`: polynomials of degree `t − 1`, and one
/// commitment per recipient whose exponent is the matching evaluation.
pub open spec fn participant_wf(p: DKGParticipant, n: nat, t: nat, slot: nat) -> bool {
    &&& p.index == slot + 1
    &&& coeff_vals(p.f_0).len() == t
    &&& coeff_vals(p.f_1).len() == t
    &&& p.commitments_0@.len() == n
    &&& p.commitments_1@.len() == n
    &&& p.shares_received@.len() == n
    &&& forall|j: int|
        0 <= j < n ==> #[trigger] p.commitments_0@[j]@ == poly_eval_q(
            coeff_vals(p.f_0),
            (j + 1) as nat,
        )
    &&& forall|j: int|
        0 <= j < n ==> #[trigger] p.commitments_1@[j]@ == poly_eval_q(
            coeff_vals(p.f_1),
            (j + 1) as nat,
        )
}

/// The ceremony coordinator: one optional participant per slot.
pub struct DKGProtocol {
    pub participants: Vec<Option<DKGParticipant>>,
    pub n: usize,
    pub t: usize,
}

impl DKGProtocol {
    /// Well-formedness of the ceremony state.
    pub open spec fn wf(self) -> bool {
        &&& 1 <= self.t <= self.n
        &&& self.n <= 0xFFFFFFFF
        &&& self.participants@.len() == self.n
        &&& forall|i: int|
            0 <= i < self.n ==> (#[trigger] self.participants@[i] matches Some(p)
                ==> participant_wf(p, self.n as nat, self.t as nat, i as nat))
    }

    /// An empty ceremony over `n` centers with threshold `t`; rejects
    /// `t == 0` and `t > n`.
    pub fn new(n: usize, t: usize) -> (r: Result<DKGProtocol, DIBTDError>)
        requires
            n <= 0xFFFFFFFF,
        ensures
            (t > n || t == 0) <==> r is Err,
            r is Err ==> r == Err::<DKGProtocol, DIBTDError>(DIBTDError::InvalidThreshold(t, n)),
            r matches Ok(s) ==> s.wf() && s.n == n && s.t == t && (forall|i: int|
                0 <= i < n ==> #[trigger] s.participants@[i] is None),
    {
        if t > n || t == 0 {
            return Err(DIBTDError::InvalidThreshold(t, n));
        }
        let mut participants: Vec<Option<DKGParticipant>> = Vec::new();
        let mut i: usize = 0;
        while i < n
            invariant
                0 <= i <= n,
                participants@.len() == i,
                forall|k: int| 0 <= k < i ==> #[trigger] participants@[k] is None,
            decreases n - i,
        {
            participants.push(None);
            i = i + 1;
        }
        Ok(DKGProtocol { participants, n, t })
    }

    /// Initializes participant `index` with caller-supplied polynomials:
    /// computes the commitments `f_b(j)·P` for every recipient `j`.
    /// Succeeds exactly when the index is in range and no evaluation is
    /// zero modulo `q` (a zero cannot serve as a secret key).
    pub fn init_participant_with(&mut self, index: usize, f_0: Polynomial, f_1: Polynomial) -> (r:
        Result<(), DIBTDError>)
        requires
            old(self).wf(),
            coeff_vals(f_0).len() == old(self).t,
            coeff_vals(f_1).len() == old(self).t,
        ensures
            final(self).wf(),
            final(self).n == old(self).n && final(self).t == old(self).t,
            r is Err ==> *final(self) == *old(self),
            (index == 0 || index > old(self).n) ==> (r matches Err(e) && e matches
                DIBTDError::DKGProtocolFailed(_)),
            r is Ok <==> (1 <= index <= old(self).n && (forall|j: int|
                1 <= j <= old(self).n ==> #[trigger] poly_eval_q(coeff_vals(f_0), j as nat) != 0
                    && poly_eval_q(coeff_vals(f_1), j as nat) != 0)),
            1 <= index <= old(self).n && !(forall|j: int|
                1 <= j <= old(self).n ==> #[trigger] poly_eval_q(coeff_vals(f_0), j as nat) != 0
                    && poly_eval_q(coeff_vals(f_1), j as nat) != 0) ==> r == Err::<
                (),
                DIBTDError,
            >(DIBTDError::KeyGenerationFailed),
            r is Ok ==> {
                &&& 1 <= index <= old(self).n
                &&& (final(self).participants@[index - 1] matches Some(p) && p.index == index
                    && p.f_0 == f_0 && p.f_1 == f_1 && (forall|f: int|
                    0 <= f < old(self).n ==> #[trigger] p.shares_received@[f] is None))
                &&& (forall|i: int|
                    0 <= i < old(self).n && i != index - 1 ==> final(self).participants@[i]
                        == old(self).participants@[i])
            },
    {
        if index == 0 || index > self.n {
            return Err(DIBTDError::DKGProtocolFailed("Invalid participant index".to_owned()));
        }
        let n = self.n;
        let mut commitments_0: Vec<Point> = Vec::new();
        let mut commitments_1: Vec<Point> = Vec::new();
        let mut j: usize = 0;
        while j < n
            invariant
                0 <= j <= n,
                1 <= index <= n,
                n == old(self).n,
                n <= 0xFFFFFFFF,
                self == old(self),
                old(self).wf(),
                coeff_vals(f_0).len() == old(self).t,
                coeff_vals(f_1).len() == old(self).t,
                commitments_0@.len() == j,
                commitments_1@.len() == j,
                forall|k: int|
                    0 <= k < j ==> #[trigger] commitments_0@[k]@ == poly_eval_q(
                        coeff_vals(f_0),
                        (k + 1) as nat,
                    ),
                forall|k: int|
                    0 <= k < j ==> #[trigger] commitments_1@[k]@ == poly_eval_q(
                        coeff_vals(f_1),
                        (k + 1) as nat,
                    ),
                forall|k: int|
                    1 <= k <= j ==> #[trigger] poly_eval_q(coeff_vals(f_0), k as nat) != 0
                        && poly_eval_q(coeff_vals(f_1), k as nat) != 0,
            decreases n - j,
        {
            let share_0 = f_0.evaluate(j + 1);
            let share_1 = f_1.evaluate(j + 1);
            proof {
                assert(((j + 1) as u32) as nat == (j + 1) as nat);
            }
            let comm_0 = match Point::from_scalar(&share_0) {
                Some(p) => p,
                None => {
                    proof {
                        let ghost jw: int = j + 1 as int;
                        assert(poly_eval_q(coeff_vals(f_0), jw as nat) == 0);
                        assert(!(forall|jj: int|
                            1 <= jj <= old(self).n ==> #[trigger] poly_eval_q(
                                coeff_vals(f_0),
                                jj as nat,
                            ) != 0 && poly_eval_q(coeff_vals(f_1), jj as nat) != 0));
                    }
                    return Err(DIBTDError::KeyGenerationFailed);
                },
            };
            let comm_1 = match Point::from_scalar(&share_1) {
                Some(p) => p,
                None => {
                    proof {
                        let ghost jw: int = j + 1 as int;
                        assert(poly_eval_q(coeff_vals(f_1), jw as nat) == 0);
                        assert(!(forall|jj: int|
                            1 <= jj <= old(self).n ==> #[trigger] poly_eval_q(
                                coeff_vals(f_0),
                                jj as nat,
                            ) != 0 && poly_eval_q(coeff_vals(f_1), jj as nat) != 0));
                    }
                    return Err(DIBTDError::KeyGenerationFailed);
                },
            };
            commitments_0.push(comm_0);
            commitments_1.push(comm_1);
            j = j + 1;
        }
        let mut shares_received: Vec<Option<(Zq, Zq)>> = Vec::new();
        let mut f: usize = 0;
        while f < n
            invariant
                0 <= f <= n,
                shares_received@.len() == f,
                forall|k: int| 0 <= k < f ==> #[trigger] shares_received@[k] is None,
            decreases n - f,
        {
            shares_received.push(None);
            f = f + 1;
        }
        let participant = DKGParticipant {
            index,
            f_0,
            f_1,
            commitments_0,
            commitments_1,
            shares_received,
        };
        self.participants[index - 1] = Some(participant);
        Ok(())
    }

    /// Initializes participant `index` with two fresh random polynomials of
    /// degree `t − 1`.
    pub fn init_participant(&mut self, index: usize) -> (r: Result<(), DIBTDError>)
        requires
            old(self).wf(),
        ensures
            final(self).wf(),
            final(self).n == old(self).n && final(self).t == old(self).t,
            r is Err ==> *final(self) == *old(self),
            (index == 0 || index > old(self).n) ==> (r matches Err(e) && e matches
                DIBTDError::DKGProtocolFailed(_)),
            r is Ok ==> 1 <= index <= old(self).n && final(self).participants@[index - 1] is Some
                && (forall|i: int|
                0 <= i < old(self).n && i != index - 1 ==> final(self).participants@[i] == old(
                    self,
                ).participants@[i]),
    {
        let f_0 = Polynomial::new(self.t - 1);
        let f_1 = Polynomial::new(self.t - 1);
        proof {
            assert(coeff_vals(f_0).len() == old(self).t);
            assert(coeff_vals(f_1).len() == old(self).t);
        }
        let r = self.init_participant_with(index, f_0, f_1);
        match r {
            Ok(()) => Ok(()),
            Err(e) => Err(e),
        }
    }

    /// The shares that center `from` sends out: for every other recipient
    /// `to`, the pair `(f_0(to), f_1(to))`, keyed by `to` in rising order.
    pub fn distribute_shares(&self, from: usize) -> (r: Result<
        Vec<(usize, (Zq, Zq))>,
        DIBTDError,
    >)
        requires
            self.wf(),
        ensures
            r is Err <==> (from == 0 || from > self.n || self.participants@[from - 1] is None),
            r is Err ==> (r matches Err(e) && e matches DIBTDError::DKGProtocolFailed(_)),
            r matches Ok(v) ==> (self.participants@[from - 1] matches Some(p) && v@.len()
                == self.n - 1 && (forall|k: int|
                #![auto]
                0 <= k < v@.len() ==> v@[k].0 == (if k + 1 < from {
                    k + 1
                } else {
                    k + 2
                }) && v@[k].1.0@ == poly_eval_q(coeff_vals(p.f_0), v@[k].0 as nat)
                    && v@[k].1.1@ == poly_eval_q(coeff_vals(p.f_1), v@[k].0 as nat))),
    {
        if from == 0 || from > self.n {
            return Err(DIBTDError::DKGProtocolFailed("Participant not found".to_owned()));
        }
        let participant = match &self.participants[from - 1] {
            Some(p) => p,
            None => {
                return Err(DIBTDError::DKGProtocolFailed("Participant not found".to_owned()));
            },
        };
        let n = self.n;
        let mut shares: Vec<(usize, (Zq, Zq))> = Vec::new();
        let mut idx: usize = 0;
        while idx < n
            invariant
                0 <= idx <= n,
                1 <= from <= n,
                n == self.n,
                n <= 0xFFFFFFFF,
                self.wf(),
                self.participants@[from - 1] matches Some(p) && *participant == p,
                shares@.len() == (if idx < from {
                    idx as int
                } else {
                    idx - 1
                }),
                forall|k: int|
                    #![auto]
                    0 <= k < shares@.len() ==> shares@[k].0 == (if k + 1 < from {
                        k + 1
                    } else {
                        k + 2
                    }) && shares@[k].1.0@ == poly_eval_q(
                        coeff_vals(participant.f_0),
                        shares@[k].0 as nat,
                    ) && shares@[k].1.1@ == poly_eval_q(
                        coeff_vals(participant.f_1),
                        shares@[k].0 as nat,
                    ),
            decreases n - idx,
        {
            let to = idx + 1;
            if to != from {
                let share_0 = participant.f_0.evaluate(to);
                let share_1 = participant.f_1.evaluate(to);
                proof {
                    assert((to as u32) as nat == to as nat);
                }
                shares.push((to, (share_0, share_1)));
            }
            idx = idx + 1;
        }
        Ok(shares)
    }

    /// Records at participant `to` the share pair sent by center `from`.
    pub fn receive_shares(&mut self, to: usize, from: usize, shares: (Zq, Zq)) -> (r: Result<
        (),
        DIBTDError,
    >)
        requires
            old(self).wf(),
        ensures
            final(self).wf(),
            final(self).n == old(self).n && final(self).t == old(self).t,
            r is Err ==> final(self).participants@ == old(self).participants@,
            r is Err <==> (to == 0 || to > old(self).n || old(self).participants@[to - 1] is None
                || from == 0 || from > old(self).n),
            r is Err ==> (r matches Err(e) && e matches DIBTDError::DKGProtocolFailed(_)),
            r is Ok ==> {
                &&& (final(self).participants@[to - 1] matches Some(p2) && old(
                    self,
                ).participants@[to - 1] matches Some(p1) && p2.index == p1.index && p2.f_0
                    == p1.f_0 && p2.f_1 == p1.f_1 && p2.commitments_0 == p1.commitments_0
                    && p2.commitments_1 == p1.commitments_1 && p2.shares_received@.len()
                    == p1.shares_received@.len() && (p2.shares_received@[from - 1] matches Some(
                    pair,
                ) && pair.0@ == shares.0@ && pair.1@ == shares.1@) && (forall|f: int|
                    0 <= f < old(self).n && f != from - 1
                        ==> #[trigger] p2.shares_received@[f] == p1.shares_received@[f]))
                &&& (forall|i: int|
                    0 <= i < old(self).n && i != to - 1 ==> final(self).participants@[i] == old(
                        self,
                    ).participants@[i])
            },
    {
        if to == 0 || to > self.n || from == 0 || from > self.n {
            return Err(DIBTDError::DKGProtocolFailed("Participant not found".to_owned()));
        }
        let slot = self.participants.remove(to - 1);
        match slot {
            None => {
                self.participants.insert(to - 1, None);
                proof {
                    assert(self.participants@ =~= old(self).participants@);
                }
                Err(DIBTDError::DKGProtocolFailed("Participant not found".to_owned()))
            },
            Some(mut p) => {
                proof {
                    assert(participant_wf(
                        p,
                        old(self).n as nat,
                        old(self).t as nat,
                        (to - 1) as nat,
                    ));
                }
                let ghost p1 = p;
                p.shares_received[from - 1] = Some(shares);
                self.participants.insert(to - 1, Some(p));
                proof {
                    assert(self.participants@ =~= old(self).participants@.update(
                        to - 1,
                        self.participants@[to - 1],
                    ));
                    assert forall|i: int|
                        0 <= i < self.n implies (#[trigger] self.participants@[i] matches Some(
                        pp,
                    ) ==> participant_wf(pp, self.n as nat, self.t as nat, i as nat)) by {
                        if i != to - 1 {
                            assert(self.participants@[i] == old(self).participants@[i]);
                        }
                    }
                }
                Ok(())
            },
        }
    }

    /// Checks every share received at a participant against the sender's
    /// published commitment for this recipient: true exactly when each
    /// stored pair equals the sender's polynomial evaluations here.
    pub fn verify_shares(&self, participant_index: usize) -> (r: Result<bool, DIBTDError>)
        requires
            self.wf(),
        ensures
            r is Err <==> (participant_index == 0 || participant_index > self.n
                || self.participants@[participant_index - 1] is None || (
            self.participants@[participant_index - 1] matches Some(p) && !senders_present(
                *self,
                p,
            ))),
            r is Err ==> (r matches Err(e) && e matches DIBTDError::DKGProtocolFailed(_)),
            r matches Ok(b) ==> (self.participants@[participant_index - 1] matches Some(p) && b
                == received_matches(*self, p, participant_index as nat)),
    {
        if participant_index == 0 || participant_index > self.n {
            return Err(DIBTDError::DKGProtocolFailed("Participant not found".to_owned()));
        }
        let participant = match &self.participants[participant_index - 1] {
            Some(p) => p,
            None => {
                return Err(DIBTDError::DKGProtocolFailed("Participant not found".to_owned()));
            },
        };
        let n = self.n;
        let mut f: usize = 0;
        while f < n
            invariant
                0 <= f <= n,
                1 <= participant_index <= n,
                n == self.n,
                self.wf(),
                self.participants@[participant_index - 1] matches Some(p) && *participant == p,
                forall|k: int|
                    0 <= k < f ==> (#[trigger] participant.shares_received@[k] is Some
                        ==> self.participants@[k] is Some),
            decreases n - f,
        {
            if participant.shares_received[f].is_some() {
                if self.participants[f].is_none() {
                    return Err(DIBTDError::DKGProtocolFailed("Sender not found".to_owned()));
                }
            }
            f = f + 1;
        }
        let mut g: usize = 0;
        while g < n
            invariant
                0 <= g <= n,
                1 <= participant_index <= n,
                n == self.n,
                self.wf(),
                self.participants@[participant_index - 1] matches Some(p) && *participant == p,
                senders_present(*self, *participant),
                forall|k: int|
                    0 <= k < g ==> (#[trigger] participant.shares_received@[k] matches Some(pair)
                        ==> (self.participants@[k] matches Some(sender) && pair.0@
                        == poly_eval_q(
                        coeff_vals(sender.f_0),
                        participant_index as nat,
                    ) && pair.1@ == poly_eval_q(
                        coeff_vals(sender.f_1),
                        participant_index as nat,
                    ))),
            decreases n - g,
        {
            if let Some(pair) = &participant.shares_received[g] {
                let sender = match &self.participants[g] {
                    Some(sd) => sd,
                    None => {
                        proof {
                            assert(false);
                        }
                        return Err(DIBTDError::DKGProtocolFailed("Sender not found".to_owned()));
                    },
                };
                let ok_0 = sender.commitments_0[participant_index - 1].matches_scalar(&pair.0);
                let ok_1 = sender.commitments_1[participant_index - 1].matches_scalar(&pair.1);
                if !ok_0 || !ok_1 {
                    proof {
                        assert(participant.shares_received@[g as int] matches Some(pr) && !(
                        pr.0@ == poly_eval_q(
                            coeff_vals(sender.f_0),
                            participant_index as nat,
                        ) && pr.1@ == poly_eval_q(
                            coeff_vals(sender.f_1),
                            participant_index as nat,
                        )));
                        assert(!received_matches(*self, *participant, participant_index as nat));
                    }
                    return Ok(false);
                }
            }
            g = g + 1;
        }
        Ok(true)
    }

    /// Aggregates each initialized center's share `(s_i, z_i)` and
    /// interpolates the master public key `(Y, Γ)` over the quorum of the
    /// lowest-indexed `t` centers.  Fails when fewer than `t` centers are
    /// initialized, when one of the first `t` slots is empty, when an
    /// aggregated share is zero modulo `q`, or when the interpolation
    /// degenerates.
    pub fn finalize(&self) -> (r: Result<(MasterPublicKey, Vec<MasterSecretShare>), DIBTDError>)
        requires
            self.wf(),
        ensures
            count_some(self.participants@) < self.t <==> r == Err::<
                (MasterPublicKey, Vec<MasterSecretShare>),
                DIBTDError,
            >(
                DIBTDError::InsufficientShares(count_some(self.participants@) as usize, self.t),
            ),
            count_some(self.participants@) >= self.t ==> ((r matches Err(e) && e matches
                DIBTDError::DKGProtocolFailed(_)) <==> (exists|i: int|
                0 <= i < self.t && self.participants@[i] is None)),
            count_some(self.participants@) >= self.t && !(exists|i: int|
                0 <= i < self.t && self.participants@[i] is None) ==> {
                let yv = recon_point(quorum_pairs0(*self), share_indices(quorum_pairs0(*self)));
                let gv = recon_point(quorum_pairs1(*self), share_indices(quorum_pairs1(*self)));
                &&& (r is Ok <==> shares_nonzero(self.participants@) && yv is Some
                    && gv is Some)
                &&& (r matches Ok(pr) ==> mss_triples(pr.1@) == collect_spec(self.participants@)
                    && yv == Some(pr.0.y@) && gv == Some(pr.0.gamma@) && pr.0.params == (
                SystemParams { n: self.n, t: self.t }))
                &&& (r is Err ==> r == Err::<(MasterPublicKey, Vec<MasterSecretShare>),
                    DIBTDError,
                >(DIBTDError::KeyGenerationFailed) || r == Err::<
                    (MasterPublicKey, Vec<MasterSecretShare>),
                    DIBTDError,
                >(DIBTDError::InvalidThreshold(0, 0)))
            },
    {
        let n = self.n;
        let t = self.t;
        let mut cnt: usize = 0;
        let mut i: usize = 0;
        while i < n
            invariant
                0 <= i <= n,
                n == self.n,
                self.wf(),
                cnt <= i,
                cnt == count_some(self.participants@.take(i as int)),
            decreases n - i,
        {
            proof {
                assert(self.participants@.take(i + 1 as int).drop_last() =~= self.participants@.take(
                    i as int,
                ));
            }
            if self.participants[i].is_some() {
                cnt = cnt + 1;
            }
            i = i + 1;
        }
        proof {
            assert(self.participants@.take(n as int) =~= self.participants@);
        }
        if cnt < t {
            return Err(DIBTDError::InsufficientShares(cnt, t));
        }
        let mut m: usize = 0;
        while m < t
            invariant
                0 <= m <= t,
                t == self.t,
                n == self.n,
                self.wf(),
                cnt == count_some(self.participants@),
                cnt >= t,
                forall|k: int| 0 <= k < m ==> self.participants@[k] is Some,
            decreases t - m,
        {
            if self.participants[m].is_none() {
                return Err(DIBTDError::DKGProtocolFailed("Missing share".to_owned()));
            }
            m = m + 1;
        }
        let mut secret_shares: Vec<MasterSecretShare> = Vec::new();
        let mut si: usize = 0;
        while si < n
            invariant
                0 <= si <= n,
                t == self.t,
                n == self.n,
                self.wf(),
                cnt == count_some(self.participants@),
                cnt >= t,
                forall|k: int| 0 <= k < t ==> self.participants@[k] is Some,
                mss_triples(secret_shares@) == collect_spec(self.participants@.take(si as int)),
                forall|k: int|
                    0 <= k < si ==> (#[trigger] self.participants@[k] matches Some(p) ==> s_i_of(
                        p,
                    ) != 0 && z_i_of(p) != 0),
            decreases n - si,
        {
            proof {
                assert(self.participants@.take(si + 1 as int).drop_last() =~= self.participants@.take(
                    si as int,
                ));
                assert(self.participants@.take(si + 1 as int).last()
                    == self.participants@[si as int]);
            }
            match &self.participants[si] {
                None => {
                    proof {
                        assert(collect_spec(self.participants@.take(si + 1 as int))
                            == collect_spec(self.participants@.take(si as int)));
                    }
                },
                Some(p) => {
                    proof {
                        assert(participant_wf(*p, self.n as nat, self.t as nat, si as nat));
                        assert((p.index as u32) as nat == p.index as nat);
                    }
                    let mut acc0 = p.f_0.evaluate(p.index);
                    let mut acc1 = p.f_1.evaluate(p.index);
                    let mut f: usize = 0;
                    while f < n
                        invariant
                            0 <= f <= n,
                            n == self.n,
                            self.wf(),
                            self.participants@[si as int] matches Some(pp) && pp == *p,
                            p.shares_received@.len() == n,
                            acc0@ == recv_fold0(
                                poly_eval_q(coeff_vals(p.f_0), p.index as nat),
                                p.shares_received@.take(f as int),
                            ),
                            acc1@ == recv_fold1(
                                poly_eval_q(coeff_vals(p.f_1), p.index as nat),
                                p.shares_received@.take(f as int),
                            ),
                        decreases n - f,
                    {
                        proof {
                            assert(p.shares_received@.take(f + 1 as int).drop_last()
                                =~= p.shares_received@.take(f as int));
                            assert(p.shares_received@.take(f + 1 as int).last()
                                == p.shares_received@[f as int]);
                        }
                        if let Some(pair) = &p.shares_received[f] {
                            acc0 = scalar_add(&acc0, &pair.0);
                            acc1 = scalar_add(&acc1, &pair.1);
                        }
                        f = f + 1;
                    }
                    proof {
                        assert(p.shares_received@.take(n as int) =~= p.shares_received@);
                        assert(acc0@ == s_i_of(*p));
                        assert(acc1@ == z_i_of(*p));
                    }
                    let zero0 = acc0.is_zero();
                    let zero1 = acc1.is_zero();
                    if zero0 || zero1 {
                        proof {
                            assert(self.participants@[si as int] matches Some(pz) && (s_i_of(pz)
                                == 0 || z_i_of(pz) == 0));
                            assert(!shares_nonzero(self.participants@));
                        }
                        return Err(DIBTDError::KeyGenerationFailed);
                    }
                    let index = p.index;
                    secret_shares.push(MasterSecretShare { index, s_i: acc0, z_i: acc1 });
                    proof {
                        assert(mss_triples(secret_shares@) =~= collect_spec(
                            self.participants@.take(si + 1 as int),
                        ));
                    }
                },
            }
            si = si + 1;
        }
        proof {
            assert(self.participants@.take(n as int) =~= self.participants@);
        }
        let mut indices: Vec<usize> = Vec::new();
        let mut ii: usize = 0;
        while ii < t
            invariant
                0 <= ii <= t,
                t == self.t,
                n == self.n,
                self.wf(),
                indices@.len() == ii,
                forall|k: int| 0 <= k < ii ==> indices@[k] == k + 1,
            decreases t - ii,
        {
            indices.push(ii + 1);
            ii = ii + 1;
        }
        let ghost ypairs = quorum_pairs0(*self);
        let ghost gpairs = quorum_pairs1(*self);
        let ghost iv = share_indices(ypairs);
        proof {
            lemma_collect_first_t(self.participants@, t as int);
            assert(idx_vals(indices@) =~= iv);
            assert(share_indices(gpairs) =~= iv);
            assert(secret_shares@.len() == collect_spec(self.participants@).len());
        }
        let mut acc_y: Option<Point> = None;
        let mut acc_g: Option<Point> = None;
        let mut qi: usize = 0;
        while qi < t
            invariant
                0 <= qi <= t,
                t == self.t,
                n == self.n,
                self.wf(),
                count_some(self.participants@) >= t,
                forall|k: int| 0 <= k < t ==> self.participants@[k] is Some,
                shares_nonzero(self.participants@),
                mss_triples(secret_shares@) == collect_spec(self.participants@),
                secret_shares@.len() >= t,
                indices@.len() == t,
                idx_vals(indices@) == iv,
                ypairs == quorum_pairs0(*self),
                gpairs == quorum_pairs1(*self),
                iv == share_indices(ypairs),
                iv == share_indices(gpairs),
                qi == 0 ==> acc_y is None && acc_g is None,
                qi > 0 ==> (acc_y matches Some(p) && recon_point(ypairs.take(qi as int), iv)
                    == Some(p@)) && (acc_g matches Some(p) && recon_point(
                    gpairs.take(qi as int),
                    iv,
                ) == Some(p@)),
            decreases t - qi,
        {
            proof {
                lemma_collect_first_t(self.participants@, t as int);
                assert(ypairs.take(qi + 1 as int).drop_last() =~= ypairs.take(qi as int));
                assert(ypairs.take(qi + 1 as int).last() == ypairs[qi as int]);
                assert(gpairs.take(qi + 1 as int).drop_last() =~= gpairs.take(qi as int));
                assert(gpairs.take(qi + 1 as int).last() == gpairs[qi as int]);
                assert(mss_triples(secret_shares@)[qi as int] == collect_spec(
                    self.participants@,
                )[qi as int]);
                assert(self.participants@[qi as int] matches Some(pq) && pq.index == qi + 1);
                assert(secret_shares@[qi as int].s_i@ == ypairs[qi as int].1);
                assert(secret_shares@[qi as int].z_i@ == gpairs[qi as int].1);
                assert(ypairs[qi as int].0 == qi + 1);
                assert(gpairs[qi as int].0 == qi + 1);
            }
            let coeff = match lagrange_coefficient(indices.as_slice(), qi + 1, 0) {
                Ok(c) => c,
                Err(e) => {
                    proof {
                        assert(recon_point(ypairs.take(qi + 1 as int), iv) is None);
                        crate::threshold::lemma_recon_point_none_prefix(
                            ypairs,
                            iv,
                            qi + 1,
                            t as int,
                        );
                        assert(ypairs.take(t as int) =~= ypairs);
                    }
                    return Err(e);
                },
            };
            let s_scaled = scalar_mul(&secret_shares[qi].s_i, &coeff);
            let z_scaled = scalar_mul(&secret_shares[qi].z_i, &coeff);
            let y_i = match Point::from_scalar(&s_scaled) {
                Some(p) => p,
                None => {
                    proof {
                        assert(recon_point(ypairs.take(qi + 1 as int), iv) is None);
                        crate::threshold::lemma_recon_point_none_prefix(
                            ypairs,
                            iv,
                            qi + 1,
                            t as int,
                        );
                        assert(ypairs.take(t as int) =~= ypairs);
                    }
                    return Err(DIBTDError::KeyGenerationFailed);
                },
            };
            let g_i = match Point::from_scalar(&z_scaled) {
                Some(p) => p,
                None => {
                    proof {
                        assert(recon_point(gpairs.take(qi + 1 as int), iv) is None);
                        crate::threshold::lemma_recon_point_none_prefix(
                            gpairs,
                            iv,
                            qi + 1,
                            t as int,
                        );
                        assert(gpairs.take(t as int) =~= gpairs);
                    }
                    return Err(DIBTDError::KeyGenerationFailed);
                },
            };
            acc_y = match acc_y {
                None => Some(y_i),
                Some(a) => match a.add_point(&y_i) {
                    Some(sum) => Some(sum),
                    None => {
                        proof {
                            assert(recon_point(ypairs.take(qi + 1 as int), iv) is None);
                            crate::threshold::lemma_recon_point_none_prefix(
                                ypairs,
                                iv,
                                qi + 1,
                                t as int,
                            );
                            assert(ypairs.take(t as int) =~= ypairs);
                        }
                        return Err(DIBTDError::KeyGenerationFailed);
                    },
                },
            };
            acc_g = match acc_g {
                None => Some(g_i),
                Some(a) => match a.add_point(&g_i) {
                    Some(sum) => Some(sum),
                    None => {
                        proof {
                            assert(recon_point(gpairs.take(qi + 1 as int), iv) is None);
                            crate::threshold::lemma_recon_point_none_prefix(
                                gpairs,
                                iv,
                                qi + 1,
                                t as int,
                            );
                            assert(gpairs.take(t as int) =~= gpairs);
                        }
                        return Err(DIBTDError::KeyGenerationFailed);
                    },
                },
            };
            qi = qi + 1;
        }
        proof {
            assert(ypairs.take(t as int) =~= ypairs);
            assert(gpairs.take(t as int) =~= gpairs);
        }
        let y = match acc_y {
            Some(p) => p,
            None => {
                proof {
                    assert(false);
                }
                return Err(DIBTDError::KeyGenerationFailed);
            },
        };
        let gamma = match acc_g {
            Some(p) => p,
            None => {
                proof {
                    assert(false);
                }
                return Err(DIBTDError::KeyGenerationFailed);
            },
        };
        let mpk = MasterPublicKey { y, gamma, params: SystemParams { n, t } };
        Ok((mpk, secret_shares))
    }
}

/// Every received share has its sender present in the ceremony state.
pub open spec fn senders_present(s: DKGProtocol, p: DKGParticipant) -> bool {
    forall|f: int|
        0 <= f < s.n ==> (#[trigger] p.shares_received@[f] is Some ==> s.participants@[f] is Some)
}

/// Every share received at position `to` equals the sender's polynomial
/// evaluations at `to`, as pinned by the sender's commitments.
pub open spec fn received_matches(s: DKGProtocol, p: DKGParticipant, to: nat) -> bool {
    forall|f: int|
        0 <= f < s.n ==> (#[trigger] p.shares_received@[f] matches Some(pair) ==> (
        s.participants@[f] matches Some(sender) && pair.0@ == poly_eval_q(coeff_vals(sender.f_0), to)
            && pair.1@ == poly_eval_q(coeff_vals(sender.f_1), to)))
}

/// Honest delivery verifies: when every pair stored at a participant is
/// the sender's polynomial evaluation at this recipient — exactly what
/// `distribute_shares` hands out and `receive_shares` stores — the
/// commitment check `verify_shares` reports true.
pub proof fn lemma_honest_shares_verify(s: DKGProtocol, p: DKGParticipant, to: nat)
    requires
        forall|f: int|
            0 <= f < s.n ==> (#[trigger] p.shares_received@[f] matches Some(pair) ==> (
            s.participants@[f] matches Some(sender) && pair.0@ == poly_eval_q(
                coeff_vals(sender.f_0),
                to,
            ) && pair.1@ == poly_eval_q(coeff_vals(sender.f_1), to))),
    ensures
        received_matches(s, p, to),
{
}

/// Tampering is detected: if some stored pair differs in value from the
/// sender's evaluation — and flipping any byte of a share's canonical
/// 32-byte encoding changes its value, since that encoding is injective —
/// the commitment check `verify_shares` reports false.
pub proof fn lemma_tampered_share_rejected(s: DKGProtocol, p: DKGParticipant, to: nat, f: int)
    requires
        0 <= f < s.n,
        p.shares_received@[f] is Some,
        s.participants@[f] matches Some(sender) ==> !(p.shares_received@[f]->Some_0.0@
            == poly_eval_q(coeff_vals(sender.f_0), to) && p.shares_received@[f]->Some_0.1@
            == poly_eval_q(coeff_vals(sender.f_1), to)),
    ensures
        !received_matches(s, p, to),
{
}

/// The number of initialized slots.
pub open spec fn count_some(parts: Seq<Option<DKGParticipant>>) -> nat
    decreases parts.len(),
{
    if parts.len() == 0 {
        0
    } else {
        count_some(parts.drop_last()) + (if parts.last() is Some {
            1nat
        } else {
            0nat
        })
    }
}

/// The running sum modulo `q` of the first components of the received
/// pairs, on top of a start value, in slot order.
pub open spec fn recv_fold0(start: nat, rs: Seq<Option<(Zq, Zq)>>) -> nat
    decreases rs.len(),
{
    if rs.len() == 0 {
        start
    } else {
        match rs.last() {
            None => recv_fold0(start, rs.drop_last()),
            Some(pair) => (recv_fold0(start, rs.drop_last()) + pair.0@) % q_val(),
        }
    }
}

/// The running sum modulo `q` of the second components of the received
/// pairs, on top of a start value, in slot order.
pub open spec fn recv_fold1(start: nat, rs: Seq<Option<(Zq, Zq)>>) -> nat
    decreases rs.len(),
{
    if rs.len() == 0 {
        start
    } else {
        match rs.last() {
            None => recv_fold1(start, rs.drop_last()),
            Some(pair) => (recv_fold1(start, rs.drop_last()) + pair.1@) % q_val(),
        }
    }
}

/// Center `i`'s aggregated first share: its own `f_0(i)` plus everything
/// received, modulo `q`.
pub open spec fn s_i_of(p: DKGParticipant) -> nat {
    recv_fold0(poly_eval_q(coeff_vals(p.f_0), p.index as nat), p.shares_received@)
}

/// Center `i`'s aggregated second share: its own `f_1(i)` plus everything
/// received, modulo `q`.
pub open spec fn z_i_of(p: DKGParticipant) -> nat {
    recv_fold1(poly_eval_q(coeff_vals(p.f_1), p.index as nat), p.shares_received@)
}

/// The `(index, s_i, z_i)` triples of the initialized slots, in slot order.
pub open spec fn collect_spec(parts: Seq<Option<DKGParticipant>>) -> Seq<(nat, nat, nat)>
    decreases parts.len(),
{
    if parts.len() == 0 {
        Seq::empty()
    } else {
        let prev = collect_spec(parts.drop_last());
        match parts.last() {
            None => prev,
            Some(p) => prev.push((p.index as nat, s_i_of(p), z_i_of(p))),
        }
    }
}

/// The value triples of a sequence of master secret shares.
pub open spec fn mss_triples(s: Seq<MasterSecretShare>) -> Seq<(nat, nat, nat)> {
    s.map_values(|m: MasterSecretShare| (m.index as nat, m.s_i@, m.z_i@))
}

/// Every initialized center's aggregated shares are nonzero modulo `q`.
pub open spec fn shares_nonzero(parts: Seq<Option<DKGParticipant>>) -> bool {
    forall|i: int|
        0 <= i < parts.len() ==> (#[trigger] parts[i] matches Some(p) ==> s_i_of(p) != 0
            && z_i_of(p) != 0)
}

/// The interpolation pairs `(i, s_i)` over the quorum `1..t`.
pub open spec fn quorum_pairs0(s: DKGProtocol) -> Seq<(nat, nat)> {
    Seq::new(s.t as nat, |i: int| ((i + 1) as nat, s_i_of(s.participants@[i]->Some_0)))
}

/// The interpolation pairs `(i, z_i)` over the quorum `1..t`.
pub open spec fn quorum_pairs1(s: DKGProtocol) -> Seq<(nat, nat)> {
    Seq::new(s.t as nat, |i: int| ((i + 1) as nat, z_i_of(s.participants@[i]->Some_0)))
}

/// The pairs `(index, ψ'_i)` with `ψ'_i = s_i + h·z_i mod q`, for the
/// identity hash `h`.
pub open spec fn psi_pairs(shares: Seq<MasterSecretShare>, h: nat) -> Seq<(nat, nat)> {
    shares.map_values(
        |m: MasterSecretShare| (m.index as nat, (m.s_i@ + (h * m.z_i@) % q_val()) % q_val()),
    )
}

/// Produces the `m` member shares of a group from a sharing polynomial:
/// member `j` receives `(j, g(j), g(j)·P)`.  Deterministic in its
/// arguments; fails exactly when some evaluation is zero modulo `q`.
pub fn distributed_keygen_with_polynomial(group_id: &GroupIdentity, poly: &Polynomial) -> (r:
    Result<Vec<PrivateKeyShare>, DIBTDError>)
    requires
        group_id.members <= 0xFFFFFFFF,
    ensures
        r is Ok <==> (forall|j: int|
            1 <= j <= group_id.members ==> #[trigger] poly_eval_q(coeff_vals(*poly), j as nat)
                != 0),
        r matches Ok(v) ==> v@.len() == group_id.members && (forall|j: int|
            #![auto]
            0 <= j < group_id.members ==> v@[j].index == j + 1 && v@[j].psi_i@ == poly_eval_q(
                coeff_vals(*poly),
                (j + 1) as nat,
            ) && v@[j].psi_i@ != 0 && v@[j].verification_key@ == v@[j].psi_i@),
        r is Err ==> r == Err::<Vec<PrivateKeyShare>, DIBTDError>(
            DIBTDError::KeyGenerationFailed,
        ),
{
    let m = group_id.members;
    let mut v: Vec<PrivateKeyShare> = Vec::new();
    let mut j: usize = 0;
    while j < m
        invariant
            0 <= j <= m,
            m == group_id.members,
            m <= 0xFFFFFFFF,
            v@.len() == j,
            forall|k: int|
                #![auto]
                0 <= k < j ==> v@[k].index == k + 1 && v@[k].psi_i@ == poly_eval_q(
                    coeff_vals(*poly),
                    (k + 1) as nat,
                ) && v@[k].psi_i@ != 0 && v@[k].verification_key@ == v@[k].psi_i@,
        decreases m - j,
    {
        let psi = poly.evaluate(j + 1);
        proof {
            assert(((j + 1) as u32) as nat == (j + 1) as nat);
        }
        let vk = match Point::from_scalar(&psi) {
            Some(p) => p,
            None => {
                proof {
                    let ghost jw: int = j + 1 as int;
                    assert(poly_eval_q(coeff_vals(*poly), jw as nat) == 0);
                    assert(!(forall|jj: int|
                        1 <= jj <= group_id.members ==> #[trigger] poly_eval_q(
                            coeff_vals(*poly),
                            jj as nat,
                        ) != 0));
                }
                return Err(DIBTDError::KeyGenerationFailed);
            },
        };
        v.push(PrivateKeyShare { index: j + 1, psi_i: psi, verification_key: vk });
        j = j + 1;
    }
    proof {
        assert forall|jj: int|
            1 <= jj <= group_id.members implies #[trigger] poly_eval_q(
            coeff_vals(*poly),
            jj as nat,
        ) != 0 by {
            assert(v@[jj - 1].psi_i@ == poly_eval_q(coeff_vals(*poly), (jj - 1 + 1) as nat));
        }
    }
    Ok(v)
}

/// Derives a group's `(k, m)` member shares from a quorum of master secret
/// shares: each quorum member contributes `ψ'_i = s_i + H1(id)·z_i`, the
/// group secret is reconstructed at `x = 0`, reshared under a fresh
/// polynomial with that constant term, and evaluated for every member.
pub fn distributed_keygen(
    master_shares: &[MasterSecretShare],
    group_id: &GroupIdentity,
    threshold: usize,
) -> (r: Result<Vec<PrivateKeyShare>, DIBTDError>)
    requires
        group_id.threshold >= 1,
        group_id.members <= 0xFFFFFFFF,
    ensures
        ({
            let h = h1_val(encode_utf8(group_id.id@));
            let k = if master_shares@.len() < threshold {
                master_shares@.len() as int
            } else {
                threshold as int
            };
            let pv = psi_pairs(master_shares@.take(k), h);
            let iv = share_indices(pv);
            &&& (r == Err::<Vec<PrivateKeyShare>, DIBTDError>(
                DIBTDError::InvalidThreshold(0, 0),
            ) <==> recon_scalar(pv, iv) is None)
            &&& (r matches Ok(v) ==> recon_scalar(pv, iv) matches Some(gs) && v@.len()
                == group_id.members && (exists|cs: Seq<nat>|
                cs.len() == group_id.threshold && cs[0] == gs && #[trigger] member_shares_of(
                    v@,
                    cs,
                )))
            &&& (r is Err ==> r == Err::<Vec<PrivateKeyShare>, DIBTDError>(
                DIBTDError::InvalidThreshold(0, 0),
            ) || r == Err::<Vec<PrivateKeyShare>, DIBTDError>(DIBTDError::KeyGenerationFailed))
        }),
{
    let h = hash_h1(group_id.id.as_str().as_bytes());
    let k = if master_shares.len() < threshold {
        master_shares.len()
    } else {
        threshold
    };
    let ghost hv: nat = h1_val(encode_utf8(group_id.id@));
    let ghost pv = psi_pairs(master_shares@.take(k as int), hv);
    let mut pairs: Vec<(usize, Zq)> = Vec::new();
    let mut i: usize = 0;
    while i < k
        invariant
            0 <= i <= k,
            k <= master_shares@.len(),
            h@ == hv,
            pv == psi_pairs(master_shares@.take(k as int), hv),
            pairs@.len() == i,
            forall|x: int|
                #![auto]
                0 <= x < i ==> pairs@[x].0 == master_shares@[x].index && pairs@[x].1@ == (
                master_shares@[x].s_i@ + (hv * master_shares@[x].z_i@) % q_val()) % q_val(),
        decreases k - i,
    {
        let id_z = scalar_mul(&h, &master_shares[i].z_i);
        let psi = scalar_add(&master_shares[i].s_i, &id_z);
        pairs.push((master_shares[i].index, psi));
        i = i + 1;
    }
    proof {
        assert(share_vals(pairs@) =~= pv);
        assert(share_vals(pairs@).take(k as int) =~= share_vals(pairs@));
    }
    let group_secret = match ThresholdOperations::reconstruct_secret(pairs.as_slice(), k) {
        Ok(gs) => gs,
        Err(e) => {
            return Err(e);
        },
    };
    let poly = Polynomial::with_constant(group_id.threshold - 1, group_secret);
    let r = distributed_keygen_with_polynomial(group_id, &poly);
    match r {
        Ok(v) => {
            proof {
                let cs = coeff_vals(poly);
                assert(cs.len() == group_id.threshold && cs[0] == group_secret@
                    && member_shares_of(v@, cs));
            }
            Ok(v)
        },
        Err(e) => Err(e),
    }
}

/// Every member share in `v` carries the matching evaluation of the
/// sharing polynomial with coefficients `cs`, together with its key.
pub open spec fn member_shares_of(v: Seq<PrivateKeyShare>, cs: Seq<nat>) -> bool {
    forall|j: int|
        #![auto]
        0 <= j < v.len() ==> v[j].index == j + 1 && v[j].psi_i@ == poly_eval_q(
            cs,
            (j + 1) as nat,
        ) && v[j].psi_i@ != 0 && v[j].verification_key@ == v[j].psi_i@
}

/// When the first `t` slots are initialized, the first `t` collected
/// triples are exactly theirs, in order.
proof fn lemma_collect_first_t(parts: Seq<Option<DKGParticipant>>, t: int)
    requires
        0 <= t <= parts.len(),
        forall|i: int| 0 <= i < t ==> parts[i] is Some,
    ensures
        t <= collect_spec(parts).len() <= parts.len(),
        forall|k: int|
            0 <= k < t ==> #[trigger] collect_spec(parts)[k] == (
            parts[k]->Some_0.index as nat,
            s_i_of(parts[k]->Some_0),
            z_i_of(parts[k]->Some_0),
            ),
    decreases parts.len(),
{
    if parts.len() > 0 {
        if t == parts.len() {
            assert(forall|i: int|
                0 <= i < t - 1 ==> #[trigger] parts.drop_last()[i] == parts[i]);
            lemma_collect_first_t(parts.drop_last(), t - 1);
        } else {
            assert(forall|i: int| 0 <= i < t ==> #[trigger] parts.drop_last()[i] == parts[i]);
            lemma_collect_first_t(parts.drop_last(), t);
        }
    }
}

} // verus!
