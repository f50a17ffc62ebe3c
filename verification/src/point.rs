//! Elements of the secp256k1 prime-order subgroup.
//!
//! A point is held as its 33-byte compressed SEC1 encoding, together with a
//! ghost discrete logarithm with respect to the standard generator `P`: every
//! point of the subgroup is `e · P` for exactly one `e` in `[1, q)` (the
//! encoding cannot hold the point at infinity).  The group operations are
//! done by the `secp256k1` crate behind trusted wrappers whose contracts
//! speak of the discrete logarithms; everything around them is verified.

use vstd::prelude::*;

use crate::bytes::{append_bytes, be_val, bytes_eq};
use crate::scalar::{q_val, Zq};

verus! {

/// The compressed SEC1 encoding of `e · P`, for `e` in `[1, q)`.  This names
/// what `secp256k1::PublicKey::from_secret_key` followed by `serialize`
/// returns for a secret key with value `e`.
pub uninterp spec fn pt_bytes(e: nat) -> Seq<u8>;

/// A point of the prime-order subgroup: 33 compressed bytes and the ghost
/// scalar `e` with `bytes == pt_bytes(e)`.
pub struct Point {
    bytes: Vec<u8>,
    exp: Ghost<nat>,
}

impl View for Point {
    type V = nat;

    closed spec fn view(&self) -> nat {
        self.exp@
    }
}

/// Relies on secp256k1's `SecretKey::from_secret_bytes` and
/// `PublicKey::from_secret_key`: for a scalar in `[1, q)` they compute the
/// scalar multiple of the generator, and `serialize` returns its 33-byte
/// compressed encoding.  Distinct scalars in `[1, q)` give distinct points,
/// because the subgroup has prime order `q`, and distinct points have
/// distinct compressed encodings.
#[verifier::external_body]
fn base_point_mul(s: &Vec<u8>) -> (r: Vec<u8>)
    requires
        s@.len() == 32,
        0 < be_val(s@) < q_val(),
    ensures
        r@ == pt_bytes(be_val(s@)),
        r@.len() == 33,
        forall|x: nat| 0 < x < q_val() && x != be_val(s@) ==> pt_bytes(x) != r@,
{
    let mut arr = [0u8; 32];
    arr.copy_from_slice(s.as_slice());
    let sk = secp256k1::SecretKey::from_secret_bytes(arr).unwrap();
    let pk = secp256k1::PublicKey::from_secret_key(&sk);
    pk.serialize().to_vec()
}

/// Relies on secp256k1's `PublicKey::mul_tweak`: multiplies a point by a
/// scalar below `q`, failing exactly when the result would be the point at
/// infinity, that is, when the product of the discrete logarithms is zero
/// modulo `q`.
#[verifier::external_body]
fn point_mul_raw(p: &Point, s: &Vec<u8>) -> (r: Option<Vec<u8>>)
    requires
        s@.len() == 32,
        be_val(s@) < q_val(),
    ensures
        r matches Some(b) ==> (p@ * be_val(s@)) % q_val() != 0 && b@ == pt_bytes(
            (p@ * be_val(s@)) % q_val(),
        ) && b@.len() == 33,
        r is None ==> (p@ * be_val(s@)) % q_val() == 0,
{
    let pk = match secp256k1::PublicKey::from_slice(&p.bytes) {
        Ok(k) => k,
        Err(_) => return None,
    };
    let mut arr = [0u8; 32];
    arr.copy_from_slice(s.as_slice());
    let tweak = match secp256k1::Scalar::from_be_bytes(arr) {
        Ok(t) => t,
        Err(_) => return None,
    };
    match pk.mul_tweak(&tweak) {
        Ok(t) => Some(t.serialize().to_vec()),
        Err(_) => None,
    }
}

/// Relies on secp256k1's `PublicKey::combine`: adds two points, failing
/// exactly when the sum would be the point at infinity, that is, when the
/// discrete logarithms sum to zero modulo `q`.
#[verifier::external_body]
fn point_add_raw(p1: &Point, p2: &Point) -> (r: Option<Vec<u8>>)
    ensures
        r matches Some(b) ==> (p1@ + p2@) % q_val() != 0 && b@ == pt_bytes(
            (p1@ + p2@) % q_val(),
        ) && b@.len() == 33,
        r is None ==> (p1@ + p2@) % q_val() == 0,
{
    let a = match secp256k1::PublicKey::from_slice(&p1.bytes) {
        Ok(k) => k,
        Err(_) => return None,
    };
    let b = match secp256k1::PublicKey::from_slice(&p2.bytes) {
        Ok(k) => k,
        Err(_) => return None,
    };
    match a.combine(&b) {
        Ok(t) => Some(t.serialize().to_vec()),
        Err(_) => None,
    }
}

impl Point {
    #[verifier::type_invariant]
    spec fn inv(self) -> bool {
        0 < self.exp@ < q_val() && self.bytes@ == pt_bytes(self.exp@) && self.bytes@.len()
            == 33
    }

    /// The scalar multiple `s · P` of the generator, defined for nonzero `s`.
    pub fn from_scalar(s: &Zq) -> (r: Option<Point>)
        ensures
            r is Some <==> s@ != 0,
            s@ < q_val(),
            r matches Some(p) ==> p@ == s@ && (forall|x: nat|
                0 < x < q_val() && x != s@ ==> #[trigger] pt_bytes(x) != pt_bytes(p@)),
    {
        let z = s.is_zero();
        if z {
            return None;
        }
        let b = s.to_be_bytes();
        let pb = base_point_mul(&b);
        let ghost e: nat = s@;
        Some(Point { bytes: pb, exp: Ghost(e) })
    }

    /// The compressed 33-byte SEC1 encoding of the point.
    pub fn compressed(&self) -> (r: &Vec<u8>)
        ensures
            r@ == pt_bytes(self@),
            r@.len() == 33,
            0 < self@ < q_val(),
    {
        proof {
            use_type_invariant(self);
        }
        &self.bytes
    }

    /// An identical copy of the point.
    pub fn duplicate(&self) -> (r: Point)
        ensures
            r@ == self@,
    {
        proof {
            use_type_invariant(self);
        }
        let mut b: Vec<u8> = Vec::new();
        append_bytes(&mut b, self.bytes.as_slice());
        proof {
            assert(b@ =~= self.bytes@);
        }
        Point { bytes: b, exp: Ghost(self.exp@) }
    }

    /// The point multiplied by a scalar, `None` when the product would be
    /// the point at infinity.
    pub fn mul_scalar(&self, s: &Zq) -> (r: Option<Point>)
        ensures
            r matches Some(t) ==> t@ == (self@ * s@) % q_val() && 0 < t@ < q_val(),
            r is None ==> (self@ * s@) % q_val() == 0,
    {
        proof {
            use_type_invariant(self);
        }
        let b = s.to_be_bytes();
        match point_mul_raw(self, &b) {
            Some(pb) => {
                let ghost e: nat = (self@ * s@) % q_val();
                Some(Point { bytes: pb, exp: Ghost(e) })
            },
            None => None,
        }
    }

    /// The sum of two points, `None` when it would be the point at infinity.
    pub fn add_point(&self, other: &Point) -> (r: Option<Point>)
        ensures
            r matches Some(t) ==> t@ == (self@ + other@) % q_val() && 0 < t@ < q_val(),
            r is None ==> (self@ + other@) % q_val() == 0,
    {
        proof {
            use_type_invariant(self);
            use_type_invariant(other);
        }
        match point_add_raw(self, other) {
            Some(pb) => {
                let ghost e: nat = (self@ + other@) % q_val();
                Some(Point { bytes: pb, exp: Ghost(e) })
            },
            None => None,
        }
    }

    /// Whether `s · P` equals this point; in the exponent, `s == self`.
    pub fn matches_scalar(&self, s: &Zq) -> (r: bool)
        ensures
            r == (s@ == self@),
    {
        proof {
            use_type_invariant(self);
        }
        match Point::from_scalar(s) {
            None => false,
            Some(sp) => {
                let e = sp.eq_point(self);
                proof {
                    if pt_bytes(sp@) == pt_bytes(self@) && self@ != s@ {
                        assert(pt_bytes(self@) != pt_bytes(sp@));
                    }
                }
                e
            },
        }
    }

    /// Whether two points have the same compressed encoding.
    pub fn eq_point(&self, other: &Point) -> (r: bool)
        ensures
            r == (pt_bytes(self@) == pt_bytes(other@)),
            self@ == other@ ==> r,
            0 < self@ < q_val(),
            0 < other@ < q_val(),
    {
        proof {
            use_type_invariant(self);
            use_type_invariant(other);
        }
        bytes_eq(&self.bytes, &other.bytes)
    }
}

} // verus!
