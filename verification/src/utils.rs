//! Domain-separated hashes, byte utilities, Lagrange coefficients, and the
//! Schnorr proof of knowledge.

use vstd::prelude::*;

use crate::bytes::{append_bytes, be_val, pad_trunc, xor_seq};
use crate::errors::DIBTDError;
use crate::point::{pt_bytes, Point};
use crate::scalar::{modinv_q, q_val, scalar_add, scalar_mul, scalar_negate, Zq};
use crate::types::Proof;
use vstd::arithmetic::div_mod::{lemma_add_mod_noop, lemma_mul_mod_noop_left, lemma_small_mod};
use vstd::string::StringSliceAdditionalSpecFns;

verus! {

/// The SHA-256 digest of a byte string.  This names what `sha2::Sha256`
/// returns; the digest depends on the input bytes alone.
pub uninterp spec fn sha256_spec(data: Seq<u8>) -> Seq<u8>;

/// Relies on `sha2`'s SHA-256: the 32-byte digest is a function of the
/// input bytes alone.
#[verifier::external_body]
fn sha256(data: &Vec<u8>) -> (r: Vec<u8>)
    ensures
        r@ == sha256_spec(data@),
        r@.len() == 32,
{
    let mut h = <sha2::Sha256 as sha2::Digest>::new();
    sha2::Digest::update(&mut h, data.as_slice());
    sha2::Digest::finalize(h).to_vec()
}

/// The scalar value of `H1`: SHA-256 of `"H1:" ‖ data`, reduced modulo `q`.
pub open spec fn h1_val(data: Seq<u8>) -> nat {
    be_val(sha256_spec(seq![72u8, 49u8, 58u8] + data)) % q_val()
}

/// The byte string of `H2`: SHA-256 of `"H2:" ‖ data`.
pub open spec fn h2_val(data: Seq<u8>) -> Seq<u8> {
    sha256_spec(seq![72u8, 50u8, 58u8] + data)
}

/// The scalar value of `H3`: SHA-256 of `"H3:" ‖ p1 ‖ p2 ‖ data`, reduced
/// modulo `q`.
pub open spec fn h3_val(p1: Seq<u8>, p2: Seq<u8>, data: Seq<u8>) -> nat {
    be_val(sha256_spec(seq![72u8, 51u8, 58u8] + p1 + p2 + data)) % q_val()
}

/// `H1 : {0,1}* → ℤ_q`, domain-separated with the ASCII prefix `"H1:"`.
pub fn hash_h1(data: &[u8]) -> (r: Zq)
    ensures
        r@ == h1_val(data@),
{
    let mut v: Vec<u8> = Vec::new();
    v.push(72u8);
    v.push(49u8);
    v.push(58u8);
    append_bytes(&mut v, data);
    proof {
        assert(v@ =~= seq![72u8, 49u8, 58u8] + data@);
    }
    let h = sha256(&v);
    Zq::from_bytes_mod_q(&h)
}

/// `H2 : G → {0,1}^256` over a point's compressed encoding, prefix `"H2:"`.
pub fn hash_h2(point: &Point) -> (r: Vec<u8>)
    ensures
        r@ == h2_val(pt_bytes(point@)),
        r@.len() == 32,
{
    let mut v: Vec<u8> = Vec::new();
    v.push(72u8);
    v.push(50u8);
    v.push(58u8);
    append_bytes(&mut v, point.compressed().as_slice());
    proof {
        assert(v@ =~= seq![72u8, 50u8, 58u8] + pt_bytes(point@));
    }
    sha256(&v)
}

/// `H2` over an arbitrary byte string, sharing the `"H2:"` prefix.
pub fn hash_h2_bytes(data: &[u8]) -> (r: Vec<u8>)
    ensures
        r@ == h2_val(data@),
        r@.len() == 32,
{
    let mut v: Vec<u8> = Vec::new();
    v.push(72u8);
    v.push(50u8);
    v.push(58u8);
    append_bytes(&mut v, data);
    proof {
        assert(v@ =~= seq![72u8, 50u8, 58u8] + data@);
    }
    sha256(&v)
}

/// `H3 : G × G × {0,1}* → ℤ_q`, prefix `"H3:"`.
pub fn hash_h3(p1: &Point, p2: &Point, data: &[u8]) -> (r: Zq)
    ensures
        r@ == h3_val(pt_bytes(p1@), pt_bytes(p2@), data@),
{
    let mut v: Vec<u8> = Vec::new();
    v.push(72u8);
    v.push(51u8);
    v.push(58u8);
    append_bytes(&mut v, p1.compressed().as_slice());
    append_bytes(&mut v, p2.compressed().as_slice());
    append_bytes(&mut v, data);
    proof {
        assert(v@ =~= seq![72u8, 51u8, 58u8] + pt_bytes(p1@) + pt_bytes(p2@) + data@);
    }
    let h = sha256(&v);
    Zq::from_bytes_mod_q(&h)
}

/// Bytewise XOR of two byte strings, over the shorter length.
pub fn xor_bytes(a: &[u8], b: &[u8]) -> (r: Vec<u8>)
    ensures
        r@ == xor_seq(a@, b@),
{
    let n = if a.len() <= b.len() {
        a.len()
    } else {
        b.len()
    };
    let mut r: Vec<u8> = Vec::new();
    let mut i: usize = 0;
    while i < n
        invariant
            0 <= i <= n,
            n == if a@.len() <= b@.len() {
                a@.len()
            } else {
                b@.len()
            },
            r@.len() == i,
            forall|k: int| 0 <= k < i ==> r@[k] == (a@[k] ^ b@[k]),
        decreases n - i,
    {
        r.push(a[i] ^ b[i]);
        i = i + 1;
    }
    proof {
        assert(r@ =~= xor_seq(a@, b@));
    }
    r
}

/// The first `len` bytes of `data`, zero-padded on the right when short.
pub fn pad_or_truncate(data: &[u8], len: usize) -> (r: Vec<u8>)
    ensures
        r@ == pad_trunc(data@, len as nat),
{
    let mut r: Vec<u8> = Vec::new();
    let mut i: usize = 0;
    while i < len
        invariant
            0 <= i <= len,
            r@.len() == i,
            forall|k: int|
                0 <= k < i ==> r@[k] == (if k < data@.len() {
                    data@[k]
                } else {
                    0u8
                }),
        decreases len - i,
    {
        if i < data.len() {
            r.push(data[i]);
        } else {
            r.push(0u8);
        }
        i = i + 1;
    }
    proof {
        assert(r@ =~= pad_trunc(data@, len as nat));
    }
    r
}

/// The difference `a - b` reduced into `[0, q)`, as signed arithmetic
/// followed by a reduction.
pub open spec fn diff_mod(a: nat, b: nat) -> nat {
    if a >= b {
        ((a - b) as nat) % q_val()
    } else {
        (q_val() - (((b - a) as nat) % q_val())) as nat
    }
}

/// The index values of a slice of share indices.
pub open spec fn idx_vals(s: Seq<usize>) -> Seq<nat> {
    s.map_values(|u: usize| u as nat)
}

/// The running product `Π_{k ∈ indices, k ≠ i} (j − k) mod q`, reduced
/// after each factor, taken over the indices in order.
pub open spec fn lag_prod(indices: Seq<nat>, i: nat, j: nat) -> nat
    decreases indices.len(),
{
    if indices.len() == 0 {
        1
    } else {
        let rest = lag_prod(indices.drop_last(), i, j);
        let kk = indices.last();
        if kk == i {
            rest
        } else {
            (rest * diff_mod(j, kk)) % q_val()
        }
    }
}

/// The Lagrange coefficient `λ_i(j)` over an index set: the numerator
/// product times the inverse of the denominator product, when the
/// denominator is invertible modulo `q`.
pub open spec fn lagrange_at(indices: Seq<nat>, i: nat, j: nat) -> Option<nat> {
    match modinv_q(lag_prod(indices, i, i)) {
        Some(v) => Some((lag_prod(indices, i, j) * v) % q_val()),
        None => None,
    }
}

/// The scalar with the value of a machine-word index.
fn scalar_from_usize(v: usize) -> (r: Zq)
    ensures
        r@ == v,
{
    let w = v as u64;
    proof {
        assert((w >> 32) < 0x100000000 && (w & 0xFFFFFFFF) < 0x100000000 && w == (w >> 32)
            * 0x100000000 + (w & 0xFFFFFFFF)) by (bit_vector);
    }
    let hi = (w >> 32) as u32;
    let lo = (w & 0xFFFFFFFF) as u32;
    let hi_s = Zq::from_u32(hi);
    let two_pow_16 = Zq::from_u32(0x10000);
    let hi_16 = scalar_mul(&hi_s, &two_pow_16);
    let hi_32 = scalar_mul(&hi_16, &two_pow_16);
    let lo_s = Zq::from_u32(lo);
    let r = scalar_add(&hi_32, &lo_s);
    proof {
        let q = q_val() as int;
        lemma_mul_mod_noop_left(((hi as nat) * 0x10000) as int, 0x10000, q);
        assert(hi_32@ == ((hi as nat) * 0x100000000) % q_val());
        lemma_small_mod(lo as nat, q_val());
        lemma_add_mod_noop(((hi as nat) * 0x100000000) as int, lo as int, q);
        assert(r@ == ((hi as nat) * 0x100000000 + lo as nat) % q_val());
        lemma_small_mod((hi as nat) * 0x100000000 + lo as nat, q_val());
    }
    r
}

/// The scalar `(a − b) mod q` for machine-word `a`, `b`.
fn diff_scalar(a: usize, b: usize) -> (r: Zq)
    ensures
        r@ == diff_mod(a as nat, b as nat),
{
    if a >= b {
        let d = scalar_from_usize(a - b);
        proof {
            lemma_small_mod((a - b) as nat, q_val());
        }
        d
    } else {
        let d = scalar_from_usize(b - a);
        proof {
            lemma_small_mod((b - a) as nat, q_val());
        }
        scalar_negate(&d)
    }
}

/// The Lagrange coefficient `λ_i(j)` over a set of share indices, by the
/// product formula with modular inversion of the denominator.
pub fn lagrange_coefficient(indices: &[usize], i: usize, j: usize) -> (r: Result<
    Zq,
    DIBTDError,
>)
    ensures
        r matches Ok(c) ==> lagrange_at(idx_vals(indices@), i as nat, j as nat) == Some(
            c@,
        ),
        r is Err <==> lagrange_at(idx_vals(indices@), i as nat, j as nat) is None,
        r is Err ==> r == Err::<Zq, DIBTDError>(DIBTDError::InvalidThreshold(0, 0)),
{
    let n = indices.len();
    let mut num = Zq::from_u32(1);
    let mut den = Zq::from_u32(1);
    let mut idx: usize = 0;
    while idx < n
        invariant
            0 <= idx <= n,
            n == indices@.len(),
            num@ == lag_prod(idx_vals(indices@).take(idx as int), i as nat, j as nat),
            den@ == lag_prod(idx_vals(indices@).take(idx as int), i as nat, i as nat),
        decreases n - idx,
    {
        let k = indices[idx];
        if k != i {
            let numf = diff_scalar(j, k);
            let denf = diff_scalar(i, k);
            num = scalar_mul(&num, &numf);
            den = scalar_mul(&den, &denf);
        }
        proof {
            let iv = idx_vals(indices@);
            assert(iv.take(idx + 1 as int).drop_last() =~= iv.take(idx as int));
            assert(iv.take(idx + 1 as int).last() == iv[idx as int]);
            assert(iv[idx as int] == indices@[idx as int] as nat);
        }
        idx = idx + 1;
    }
    proof {
        assert(idx_vals(indices@).take(n as int) =~= idx_vals(indices@));
    }
    match crate::scalar::scalar_invert(&den) {
        Some(v) => Ok(scalar_mul(&num, &v)),
        None => Err(DIBTDError::InvalidThreshold(0, 0)),
    }
}

/// The Schnorr challenge: SHA-256 of `context ‖ R`, reduced modulo `q`.
pub open spec fn schnorr_challenge(context: Seq<u8>, r_bytes: Seq<u8>) -> nat {
    be_val(sha256_spec(context + r_bytes)) % q_val()
}

/// The challenge scalar for a context and a commitment point.
fn challenge_scalar(context: &str, r_point: &Point) -> (r: Zq)
    ensures
        r@ == schnorr_challenge(context.spec_bytes(), pt_bytes(r_point@)),
{
    let mut v: Vec<u8> = Vec::new();
    append_bytes(&mut v, context.as_bytes());
    append_bytes(&mut v, r_point.compressed().as_slice());
    proof {
        assert(v@ =~= context.spec_bytes() + pt_bytes(r_point@));
    }
    let h = sha256(&v);
    Zq::from_bytes_mod_q(&h)
}

/// A Schnorr proof of knowledge of `secret`, using a caller-supplied nonce:
/// `R = nonce · P` and `μ = nonce + secret · H(context ‖ R) mod q`.  Fails
/// exactly when the nonce is zero.
pub fn schnorr_prove_with_nonce(secret: &Zq, nonce: &Zq, context: &str) -> (r: Result<
    Proof,
    DIBTDError,
>)
    ensures
        r is Ok <==> nonce@ != 0,
        r matches Ok(p) ==> p.r@ == nonce@ && p.mu@ == (nonce@ + secret@
            * schnorr_challenge(context.spec_bytes(), pt_bytes(nonce@))) % q_val(),
        r is Err ==> r == Err::<Proof, DIBTDError>(DIBTDError::KeyGenerationFailed),
{
    match Point::from_scalar(nonce) {
        None => Err(DIBTDError::KeyGenerationFailed),
        Some(rp) => {
            let c = challenge_scalar(context, &rp);
            let secret_c = scalar_mul(secret, &c);
            let mu = scalar_add(nonce, &secret_c);
            proof {
                let q = q_val() as int;
                lemma_small_mod(nonce@, q_val());
                lemma_small_mod((secret@ * c@) % q_val(), q_val());
                lemma_add_mod_noop(nonce@ as int, (secret@ * c@) as int, q);
                lemma_add_mod_noop(nonce@ as int, ((secret@ * c@) % q_val()) as int, q);
            }
            Ok(Proof { r: rp, mu })
        },
    }
}

/// A Schnorr proof of knowledge of `secret` under a fresh random nonce.
pub fn schnorr_prove(secret: &Zq, context: &str) -> (r: Result<Proof, DIBTDError>)
    ensures
        r matches Ok(p) ==> p.r@ != 0 && p.mu@ == (p.r@ + secret@ * schnorr_challenge(
            context.spec_bytes(),
            pt_bytes(p.r@),
        )) % q_val(),
        r is Err ==> r == Err::<Proof, DIBTDError>(DIBTDError::KeyGenerationFailed),
{
    let nonce = Zq::random();
    schnorr_prove_with_nonce(secret, &nonce, context)
}

/// Whether a Schnorr verifier accepts `(R, μ)` for verification key
/// exponent `vk` under a context: the challenge `c` and the values
/// `c·vk` and `R + c·vk` are nondegenerate and `μ == r + c·vk (mod q)` in
/// the exponent.
pub open spec fn schnorr_accepts(r_exp: nat, mu: nat, vk: nat, context: Seq<u8>) -> bool {
    let c = schnorr_challenge(context, pt_bytes(r_exp));
    let cv = (vk * c) % q_val();
    let sum = (r_exp + cv) % q_val();
    c != 0 && cv != 0 && sum != 0 && mu == sum
}

/// A proof produced from a secret `ψ` with a nonzero nonce verifies against
/// the verification key `ψ·P` under the same context, whenever neither the
/// challenge nor the combined values degenerate.  The excluded degenerate
/// cases arise with negligible probability from the hash.
pub proof fn lemma_schnorr_completeness(p: Proof, psi: nat, context: Seq<u8>)
    requires
        0 < p.r@ < q_val(),
        p.mu@ == (p.r@ + psi * schnorr_challenge(context, pt_bytes(p.r@))) % q_val(),
        schnorr_challenge(context, pt_bytes(p.r@)) != 0,
        (psi * schnorr_challenge(context, pt_bytes(p.r@))) % q_val() != 0,
        (p.r@ + (psi * schnorr_challenge(context, pt_bytes(p.r@))) % q_val()) % q_val() != 0,
    ensures
        schnorr_accepts(p.r@, p.mu@, psi, context),
{
    let q = q_val() as int;
    let c = schnorr_challenge(context, pt_bytes(p.r@));
    lemma_small_mod(p.r@, q_val());
    lemma_small_mod((psi * c) % q_val(), q_val());
    lemma_add_mod_noop(p.r@ as int, (psi * c) as int, q);
    lemma_add_mod_noop(p.r@ as int, ((psi * c) % q_val()) as int, q);
}

/// Verifies a Schnorr proof against a verification key and a context:
/// accepts exactly when `μ ≠ 0`, the challenge and `c · VK` are not
/// degenerate, and `μ == r + c · vk (mod q)` in the exponent, which is
/// `μ · P == R + c · VK` on the curve.
pub fn schnorr_verify(proof: &Proof, public_key: &Point, context: &str) -> (r: bool)
    ensures
        r == schnorr_accepts(proof.r@, proof.mu@, public_key@, context.spec_bytes()),
{
    let c = challenge_scalar(context, &proof.r);
    if c.is_zero() {
        return false;
    }
    let cpk = match public_key.mul_scalar(&c) {
        Some(p) => p,
        None => {
            return false;
        },
    };
    let rhs = match proof.r.add_point(&cpk) {
        Some(p) => p,
        None => {
            return false;
        },
    };
    if proof.mu.is_zero() {
        return false;
    }
    let mu_point = match Point::from_scalar(&proof.mu) {
        Some(p) => p,
        None => {
            proof {
                assert(false);
            }
            return false;
        },
    };
    let eq = mu_point.eq_point(&rhs);
    proof {
        let cv = (public_key@ * c@) % q_val();
        let sum = (proof.r@ + cv) % q_val();
        assert(rhs@ == sum);
        if pt_bytes(mu_point@) == pt_bytes(rhs@) {
            if rhs@ != proof.mu@ {
                assert(pt_bytes(rhs@) != pt_bytes(mu_point@));
            }
        }
    }
    eq
}

} // verus!
