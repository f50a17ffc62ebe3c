//! Data model: keys, shares, ciphertexts, proofs, and polynomials.

use vstd::prelude::*;

use crate::point::Point;
use crate::scalar::{q_val, scalar_add, scalar_from_u32, scalar_mul, Zq};

verus! {

/// Threshold parameters of the key generation ceremony: `t` of `n` centers.
#[derive(Clone, Copy, Debug, PartialEq, Eq, Structural)]
pub struct SystemParams {
    pub n: usize,
    pub t: usize,
}

/// The master public key `(Y, Γ)` produced by the ceremony.
pub struct MasterPublicKey {
    pub y: Point,
    pub gamma: Point,
    pub params: SystemParams,
}

impl MasterPublicKey {
    /// An identical copy of the key.
    pub fn duplicate(&self) -> (r: MasterPublicKey)
        ensures
            r.y@ == self.y@,
            r.gamma@ == self.gamma@,
            r.params == self.params,
    {
        MasterPublicKey {
            y: self.y.duplicate(),
            gamma: self.gamma.duplicate(),
            params: self.params,
        }
    }
}

/// Center `i`'s long-term share `(s_i, z_i)` of the master secrets.
pub struct MasterSecretShare {
    pub index: usize,
    pub s_i: Zq,
    pub z_i: Zq,
}

impl MasterSecretShare {
    /// An identical copy of the share.
    pub fn duplicate(&self) -> (r: MasterSecretShare)
        ensures
            r.index == self.index,
            r.s_i@ == self.s_i@,
            r.z_i@ == self.z_i@,
    {
        MasterSecretShare {
            index: self.index,
            s_i: self.s_i.duplicate(),
            z_i: self.z_i.duplicate(),
        }
    }
}

/// A ciphertext `(D, E, F, δ)`; `F` has the length of the plaintext.
pub struct Ciphertext {
    pub d: Point,
    pub e: Point,
    pub f: Vec<u8>,
    pub delta: Zq,
}

impl Ciphertext {
    /// An identical copy of the ciphertext.
    pub fn duplicate(&self) -> (r: Ciphertext)
        ensures
            r.d@ == self.d@,
            r.e@ == self.e@,
            r.f@ == self.f@,
            r.delta@ == self.delta@,
    {
        let mut f: Vec<u8> = Vec::new();
        crate::bytes::append_bytes(&mut f, self.f.as_slice());
        proof {
            assert(f@ =~= self.f@);
        }
        Ciphertext {
            d: self.d.duplicate(),
            e: self.e.duplicate(),
            f,
            delta: self.delta.duplicate(),
        }
    }
}

/// Member `i`'s decryption share `Λ_i = ψ_i · D`.
pub struct DecryptionShare {
    pub index: usize,
    pub lambda_i: Point,
}

impl DecryptionShare {
    /// An identical copy of the share.
    pub fn duplicate(&self) -> (r: DecryptionShare)
        ensures
            r.index == self.index,
            r.lambda_i@ == self.lambda_i@,
    {
        DecryptionShare { index: self.index, lambda_i: self.lambda_i.duplicate() }
    }
}

/// A Schnorr proof `(R, μ)` of knowledge of a share.
pub struct Proof {
    pub r: Point,
    pub mu: Zq,
}

impl Proof {
    /// An identical copy of the proof.
    pub fn duplicate(&self) -> (r: Proof)
        ensures
            r.r@ == self.r@,
            r.mu@ == self.mu@,
    {
        Proof { r: self.r.duplicate(), mu: self.mu.duplicate() }
    }
}

/// Member `j`'s private key share `(j, ψ_j, ψ_j · P)` for one group.
pub struct PrivateKeyShare {
    pub index: usize,
    pub psi_i: Zq,
    pub verification_key: Point,
}

impl PrivateKeyShare {
    /// An identical copy of the share.
    pub fn duplicate(&self) -> (r: PrivateKeyShare)
        ensures
            r.index == self.index,
            r.psi_i@ == self.psi_i@,
            r.verification_key@ == self.verification_key@,
    {
        PrivateKeyShare {
            index: self.index,
            psi_i: self.psi_i.duplicate(),
            verification_key: self.verification_key.duplicate(),
        }
    }
}

/// A group identity: an arbitrary byte string plus the group's `(k, m)`
/// threshold parameters.
#[derive(Clone, Debug)]
pub struct GroupIdentity {
    pub id: String,
    pub threshold: usize,
    pub members: usize,
}

/// An AEAD envelope around bulk record bytes.
#[derive(Clone, Debug)]
pub struct AEADPacket {
    pub ciphertext: Vec<u8>,
    pub nonce: Vec<u8>,
    pub tag: Vec<u8>,
    pub associated_data: Vec<u8>,
}

/// `x^k mod q`.
pub open spec fn pow_q(x: nat, k: nat) -> nat
    decreases k,
{
    if k == 0 {
        1
    } else {
        (pow_q(x, (k - 1) as nat) * x) % q_val()
    }
}

/// The value at `x` of the polynomial with the given coefficients, low
/// degree first: the running sum `Σ aᵢ·xⁱ mod q`, reduced after each step.
pub open spec fn poly_eval_q(coeffs: Seq<nat>, x: nat) -> nat
    decreases coeffs.len(),
{
    if coeffs.len() == 0 {
        0
    } else {
        (poly_eval_q(coeffs.drop_last(), x) + (coeffs.last() * pow_q(
            x,
            (coeffs.len() - 1) as nat,
        )) % q_val()) % q_val()
    }
}

/// A polynomial over `ℤ_q`, coefficients in order of rising degree.
pub struct Polynomial {
    pub coefficients: Vec<Zq>,
}

/// The coefficient values of a polynomial.
pub open spec fn coeff_vals(p: Polynomial) -> Seq<nat> {
    p.coefficients@.map_values(|c: Zq| c@)
}

impl Polynomial {
    /// A polynomial of the given degree with uniformly random coefficients.
    pub fn new(degree: usize) -> (r: Polynomial)
        requires
            degree < usize::MAX,
        ensures
            r.coefficients@.len() == degree + 1,
    {
        let mut coefficients: Vec<Zq> = Vec::new();
        let n = degree + 1;
        let mut i: usize = 0;
        while i < n
            invariant
                0 <= i <= n,
                coefficients@.len() == i,
            decreases n - i,
        {
            coefficients.push(Zq::random());
            i = i + 1;
        }
        Polynomial { coefficients }
    }

    /// A polynomial of the given degree whose constant term is fixed and
    /// whose other coefficients are uniformly random.
    pub fn with_constant(degree: usize, constant: Zq) -> (r: Polynomial)
        requires
            degree < usize::MAX,
        ensures
            r.coefficients@.len() == degree + 1,
            coeff_vals(r)[0] == constant@,
    {
        let ghost cv: nat = constant@;
        let mut coefficients: Vec<Zq> = Vec::new();
        coefficients.push(constant);
        let n = degree + 1;
        let mut i: usize = 1;
        while i < n
            invariant
                1 <= i <= n,
                coefficients@.len() == i,
                coefficients@[0]@ == cv,
            decreases n - i,
        {
            coefficients.push(Zq::random());
            i = i + 1;
        }
        Polynomial { coefficients }
    }

    /// The value of the polynomial at a small non-negative integer point.
    pub fn evaluate(&self, x: usize) -> (r: Zq)
        ensures
            r@ == poly_eval_q(coeff_vals(*self), (x as u32) as nat),
    {
        let x_scalar = scalar_from_u32(x as u32);
        let ghost xv: nat = (x as u32) as nat;
        let mut result = Zq::from_u32(0);
        let mut x_power = Zq::from_u32(1);
        let n = self.coefficients.len();
        let mut i: usize = 0;
        while i < n
            invariant
                0 <= i <= n,
                n == self.coefficients@.len(),
                x_scalar@ == xv,
                result@ == poly_eval_q(coeff_vals(*self).take(i as int), xv),
                x_power@ == pow_q(xv, i as nat),
            decreases n - i,
        {
            let coeff = &self.coefficients[i];
            let term = scalar_mul(coeff, &x_power);
            result = scalar_add(&result, &term);
            x_power = scalar_mul(&x_power, &x_scalar);
            proof {
                let cs = coeff_vals(*self);
                assert(cs.take(i + 1 as int).drop_last() =~= cs.take(i as int));
                assert(cs.take(i + 1 as int).last() == cs[i as int]);
                assert(cs[i as int] == self.coefficients@[i as int]@);
            }
            i = i + 1;
        }
        proof {
            assert(coeff_vals(*self).take(n as int) =~= coeff_vals(*self));
        }
        result
    }
}

} // verus!
