//! Scalars modulo the secp256k1 group order.
//!
//! A scalar is held as 32 canonical big-endian bytes whose value is below the
//! group order `q`.  The modular arithmetic itself is done by `num_bigint`
//! behind trusted wrappers; everything around it is verified.

use vstd::prelude::*;

use crate::bytes::{append_bytes, be_val, bytes_eq, lemma_be_val_zero};

verus! {

/// The order of the secp256k1 prime-order subgroup.
pub open spec fn q_val() -> nat {
    0xFFFFFFFFFFFFFFFFFFFFFFFFFFFFFFFEBAAEDCE6AF48A03BBFD25E8CD0364141nat
}

/// Equal big-endian values of equal length are the same byte string.
pub proof fn lemma_be_val_injective(a: Seq<u8>, b: Seq<u8>)
    requires
        a.len() == b.len(),
        be_val(a) == be_val(b),
    ensures
        a =~= b,
    decreases a.len(),
{
    if a.len() > 0 {
        assert(be_val(a) == be_val(a.drop_last()) * 256 + (a.last() as nat));
        assert(be_val(b) == be_val(b.drop_last()) * 256 + (b.last() as nat));
        assert(a.last() == b.last() && be_val(a.drop_last()) == be_val(b.drop_last()));
        lemma_be_val_injective(a.drop_last(), b.drop_last());
        assert(a =~= a.drop_last().push(a.last()));
        assert(b =~= b.drop_last().push(b.last()));
    }
}

/// What `BigUint::modinv` returns for a value, taken modulo `q`: `Some` of
/// the inverse exactly when the value is invertible.
pub uninterp spec fn modinv_q(a: nat) -> Option<nat>;

/// A scalar in `[0, q)`, stored as 32 canonical big-endian bytes.
#[derive(Debug)]
pub struct Zq {
    bytes: Vec<u8>,
}

impl View for Zq {
    type V = nat;

    closed spec fn view(&self) -> nat {
        be_val(self.bytes@)
    }
}

/// Relies on `num_bigint` big-endian arithmetic and secp256k1's
/// `constants::CURVE_ORDER`: returns `(a + b) mod q` as minimal big-endian
/// bytes (at most 32 of them, since the value is below `q`).
#[verifier::external_body]
fn nb_add_mod_q(a: &Vec<u8>, b: &Vec<u8>) -> (r: Vec<u8>)
    ensures
        be_val(r@) == (be_val(a@) + be_val(b@)) % q_val(),
        r@.len() <= 32,
{
    let q = num_bigint::BigUint::from_bytes_be(&secp256k1::constants::CURVE_ORDER);
    let x = num_bigint::BigUint::from_bytes_be(a);
    let y = num_bigint::BigUint::from_bytes_be(b);
    ((x + y) % q).to_bytes_be()
}

/// Relies on `num_bigint` big-endian arithmetic and secp256k1's
/// `constants::CURVE_ORDER`: returns `(a * b) mod q` as minimal big-endian
/// bytes.
#[verifier::external_body]
fn nb_mul_mod_q(a: &Vec<u8>, b: &Vec<u8>) -> (r: Vec<u8>)
    ensures
        be_val(r@) == (be_val(a@) * be_val(b@)) % q_val(),
        r@.len() <= 32,
{
    let q = num_bigint::BigUint::from_bytes_be(&secp256k1::constants::CURVE_ORDER);
    let x = num_bigint::BigUint::from_bytes_be(a);
    let y = num_bigint::BigUint::from_bytes_be(b);
    ((x * y) % q).to_bytes_be()
}

/// Relies on `num_bigint` big-endian arithmetic and secp256k1's
/// `constants::CURVE_ORDER`: returns `a mod q` as minimal big-endian bytes.
#[verifier::external_body]
fn nb_mod_q(a: &Vec<u8>) -> (r: Vec<u8>)
    ensures
        be_val(r@) == be_val(a@) % q_val(),
        r@.len() <= 32,
{
    let q = num_bigint::BigUint::from_bytes_be(&secp256k1::constants::CURVE_ORDER);
    let x = num_bigint::BigUint::from_bytes_be(a);
    (x % q).to_bytes_be()
}

/// Relies on `num_bigint` big-endian subtraction and secp256k1's
/// `constants::CURVE_ORDER`: for `a < q`, returns `(q - a) mod q` as minimal
/// big-endian bytes.
#[verifier::external_body]
fn nb_neg_mod_q(a: &Vec<u8>) -> (r: Vec<u8>)
    requires
        be_val(a@) < q_val(),
    ensures
        be_val(r@) == (q_val() - be_val(a@)) % (q_val() as int),
        r@.len() <= 32,
{
    let q = num_bigint::BigUint::from_bytes_be(&secp256k1::constants::CURVE_ORDER);
    let x = num_bigint::BigUint::from_bytes_be(a);
    ((q.clone() - x) % q).to_bytes_be()
}

/// Relies on `num_bigint`'s `BigUint::modinv` with secp256k1's
/// `constants::CURVE_ORDER` as the modulus: the result is `Some` exactly when
/// the value has an inverse modulo `q` (its gcd with `q` is 1), and the
/// inverse lies in `[0, q)` with `a * inv == 1 (mod q)`.
#[verifier::external_body]
fn nb_modinv_q(a: &Vec<u8>) -> (r: Option<Vec<u8>>)
    ensures
        r is Some <==> modinv_q(be_val(a@)) is Some,
        r matches Some(v) ==> modinv_q(be_val(a@)) == Some(be_val(v@))
            && (be_val(a@) * be_val(v@)) % q_val() == 1 && be_val(v@) < q_val() && v@.len()
            <= 32,
{
    let q = num_bigint::BigUint::from_bytes_be(&secp256k1::constants::CURVE_ORDER);
    let x = num_bigint::BigUint::from_bytes_be(a);
    x.modinv(&q).map(|v| v.to_bytes_be())
}

/// Relies on `rand`'s `ThreadRng`, a cryptographically secure generator:
/// fills a buffer of the requested length with random bytes.
#[verifier::external_body]
pub(crate) fn fill_random(len: usize) -> (r: Vec<u8>)
    ensures
        r@.len() == len,
{
    let mut buf = vec![0u8; len];
    rand::Rng::fill_bytes(&mut rand::rng(), &mut buf);
    buf
}

/// Left-pads a big-endian byte string with zeros to exactly 32 bytes,
/// keeping its value.
fn left_pad_32(v: &Vec<u8>) -> (r: Vec<u8>)
    requires
        v@.len() <= 32,
    ensures
        r@.len() == 32,
        be_val(r@) == be_val(v@),
{
    let mut r: Vec<u8> = Vec::new();
    let pad = 32 - v.len();
    let mut i: usize = 0;
    while i < pad
        invariant
            0 <= i <= pad,
            r@.len() == i,
            be_val(r@) == 0,
        decreases pad - i,
    {
        let ghost prev = r@;
        r.push(0u8);
        proof {
            assert(r@.drop_last() =~= prev);
        }
        i = i + 1;
    }
    let ghost zeros = r@;
    let n = v.len();
    let mut j: usize = 0;
    while j < n
        invariant
            0 <= j <= n,
            n == v@.len(),
            zeros.len() == 32 - n,
            be_val(zeros) == 0,
            r@.len() == zeros.len() + j,
            be_val(r@) == be_val(v@.take(j as int)),
        decreases n - j,
    {
        let ghost prev = r@;
        r.push(v[j]);
        proof {
            assert(r@.drop_last() =~= prev);
            assert(v@.take(j + 1 as int).drop_last() =~= v@.take(j as int));
            assert(v@.take(j + 1 as int).last() == v@[j as int]);
        }
        j = j + 1;
    }
    proof {
        assert(v@.take(n as int) =~= v@);
    }
    r
}

impl Zq {
    #[verifier::type_invariant]
    spec fn inv(self) -> bool {
        self.bytes@.len() == 32 && be_val(self.bytes@) < q_val()
    }

    /// Wraps reduced bytes into a scalar.
    fn from_reduced(v: Vec<u8>) -> (r: Zq)
        requires
            v@.len() <= 32,
            be_val(v@) < q_val(),
        ensures
            r@ == be_val(v@),
    {
        Zq { bytes: left_pad_32(&v) }
    }

    /// The scalar with a given small value.
    pub fn from_u32(value: u32) -> (r: Zq)
        ensures
            r@ == value,
    {
        let mut v: Vec<u8> = Vec::new();
        let c0 = (value >> 24) & 0xFF;
        let c1 = (value >> 16) & 0xFF;
        let c2 = (value >> 8) & 0xFF;
        let c3 = value & 0xFF;
        proof {
            assert(c0 < 256 && c1 < 256 && c2 < 256 && c3 < 256 && value == c0 * 0x1000000
                + c1 * 0x10000 + c2 * 0x100 + c3) by (bit_vector)
                requires
                    c0 == (value >> 24) & 0xFF,
                    c1 == (value >> 16) & 0xFF,
                    c2 == (value >> 8) & 0xFF,
                    c3 == value & 0xFF,
            ;
        }
        let b0 = c0 as u8;
        let b1 = c1 as u8;
        let b2 = c2 as u8;
        let b3 = c3 as u8;
        let ghost e: Seq<u8> = v@;
        v.push(b0);
        proof {
            assert(v@.drop_last() =~= e);
            assert(be_val(e) == 0);
            assert(be_val(v@) == c0);
        }
        let ghost s0 = v@;
        v.push(b1);
        proof {
            assert(v@.drop_last() =~= s0);
            assert(be_val(v@) == c0 * 256 + c1);
        }
        let ghost s1 = v@;
        v.push(b2);
        proof {
            assert(v@.drop_last() =~= s1);
            assert(be_val(v@) == (c0 * 256 + c1) * 256 + c2);
        }
        let ghost s2 = v@;
        v.push(b3);
        proof {
            assert(v@.drop_last() =~= s2);
            assert(be_val(v@) == ((c0 * 256 + c1) * 256 + c2) * 256 + c3);
            assert(be_val(v@) == value);
            assert((value as nat) < q_val());
        }
        Zq::from_reduced(v)
    }

    /// The value of any byte string, reduced modulo `q`.
    pub fn from_bytes_mod_q(data: &Vec<u8>) -> (r: Zq)
        ensures
            r@ == be_val(data@) % q_val(),
    {
        let reduced = nb_mod_q(data);
        proof {
            assert(q_val() > 0);
        }
        Zq::from_reduced(reduced)
    }

    /// A uniformly random scalar.
    pub fn random() -> (r: Zq)
        ensures
            r@ < q_val(),
    {
        let buf = fill_random(32);
        Zq::from_bytes_mod_q(&buf)
    }

    /// An identical copy of the scalar.
    pub fn duplicate(&self) -> (r: Zq)
        ensures
            r@ == self@,
            self@ < q_val(),
    {
        proof {
            use_type_invariant(self);
        }
        let mut b: Vec<u8> = Vec::new();
        append_bytes(&mut b, self.bytes.as_slice());
        proof {
            assert(b@ =~= self.bytes@);
        }
        Zq { bytes: b }
    }

    /// The canonical 32-byte big-endian encoding of the scalar.
    pub fn to_be_bytes(&self) -> (r: Vec<u8>)
        ensures
            r@.len() == 32,
            be_val(r@) == self@,
            self@ < q_val(),
    {
        proof {
            use_type_invariant(self);
        }
        let mut r: Vec<u8> = Vec::new();
        append_bytes(&mut r, self.bytes.as_slice());
        proof {
            assert(r@ =~= self.bytes@);
        }
        r
    }

    /// Whether the scalar is zero.
    pub fn is_zero(&self) -> (r: bool)
        ensures
            r == (self@ == 0),
            self@ < q_val(),
    {
        proof {
            use_type_invariant(self);
            lemma_be_val_zero(self.bytes@);
        }
        let n = self.bytes.len();
        let mut i: usize = 0;
        while i < n
            invariant
                n == self.bytes@.len(),
                0 <= i <= n,
                forall|j: int| 0 <= j < i ==> self.bytes@[j] == 0,
            decreases n - i,
        {
            if self.bytes[i] != 0 {
                proof {
                    use_type_invariant(self);
                    lemma_be_val_zero(self.bytes@);
                    assert(self.bytes@[i as int] != 0);
                    assert(!(forall|j: int|
                        0 <= j < self.bytes@.len() ==> self.bytes@[j] == 0));
                }
                return false;
            }
            i = i + 1;
        }
        true
    }

    /// Whether two scalars are equal.
    pub fn eq_scalar(&self, other: &Zq) -> (r: bool)
        ensures
            r == (self@ == other@),
    {
        proof {
            use_type_invariant(self);
            use_type_invariant(other);
            if self@ == other@ {
                lemma_be_val_injective(self.bytes@, other.bytes@);
            }
        }
        bytes_eq(&self.bytes, &other.bytes)
    }
}

/// The sum of two scalars modulo `q`.
pub fn scalar_add(a: &Zq, b: &Zq) -> (r: Zq)
    ensures
        r@ == (a@ + b@) % q_val(),
{
    proof {
        use_type_invariant(a);
        use_type_invariant(b);
    }
    let s = nb_add_mod_q(&a.bytes, &b.bytes);
    proof {
        assert(q_val() > 0);
    }
    Zq::from_reduced(s)
}

/// The product of two scalars modulo `q`.
pub fn scalar_mul(a: &Zq, b: &Zq) -> (r: Zq)
    ensures
        r@ == (a@ * b@) % q_val(),
{
    proof {
        use_type_invariant(a);
        use_type_invariant(b);
    }
    let s = nb_mul_mod_q(&a.bytes, &b.bytes);
    proof {
        assert(q_val() > 0);
    }
    Zq::from_reduced(s)
}

/// The additive inverse of a scalar modulo `q`.
pub fn scalar_negate(a: &Zq) -> (r: Zq)
    ensures
        r@ == (q_val() - a@) % (q_val() as int),
{
    proof {
        use_type_invariant(a);
    }
    let s = nb_neg_mod_q(&a.bytes);
    proof {
        assert(q_val() > 0);
    }
    Zq::from_reduced(s)
}

/// The scalar with a given small value.
pub fn scalar_from_u32(value: u32) -> (r: Zq)
    ensures
        r@ == value,
{
    Zq::from_u32(value)
}

/// The multiplicative inverse of a scalar modulo `q`, when it exists.
pub fn scalar_invert(a: &Zq) -> (r: Option<Zq>)
    ensures
        r is Some <==> modinv_q(a@) is Some,
        r matches Some(v) ==> modinv_q(a@) == Some(v@) && (a@ * v@) % q_val() == 1,
{
    proof {
        use_type_invariant(a);
    }
    match nb_modinv_q(&a.bytes) {
        Some(v) => Some(Zq::from_reduced(v)),
        None => None,
    }
}

} // verus!
