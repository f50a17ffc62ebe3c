//! Byte-string arithmetic: big-endian values, bytewise XOR, padding.

use vstd::prelude::*;

verus! {

/// The value of a byte string read as a big-endian unsigned integer.
pub open spec fn be_val(s: Seq<u8>) -> nat
    decreases s.len(),
{
    if s.len() == 0 {
        0
    } else {
        be_val(s.drop_last()) * 256 + (s.last() as nat)
    }
}

/// A big-endian value is zero exactly when every byte is zero.
pub proof fn lemma_be_val_zero(s: Seq<u8>)
    ensures
        (be_val(s) == 0) <==> (forall|i: int| 0 <= i < s.len() ==> s[i] == 0),
    decreases s.len(),
{
    if s.len() > 0 {
        lemma_be_val_zero(s.drop_last());
        if be_val(s) == 0 {
            assert(be_val(s.drop_last()) * 256 + (s.last() as nat) == 0);
            assert forall|i: int| 0 <= i < s.len() implies s[i] == 0 by {
                if i < s.len() - 1 {
                    assert(s[i] == s.drop_last()[i]);
                    assert(s.drop_last()[i] == 0);
                } else {
                    assert(s[i] == s.last());
                }
            }
        } else {
            if forall|i: int| 0 <= i < s.len() ==> s[i] == 0 {
                assert forall|i: int| 0 <= i < s.drop_last().len() implies s.drop_last()[i]
                    == 0 by {
                    assert(s.drop_last()[i] == s[i]);
                }
                assert(be_val(s.drop_last()) == 0);
                assert(s.last() == 0);
                assert(be_val(s) == 0);
            }
        }
    }
}

/// Bytewise XOR of two strings, over the shorter length.
pub open spec fn xor_seq(a: Seq<u8>, b: Seq<u8>) -> Seq<u8> {
    Seq::new(if a.len() <= b.len() { a.len() } else { b.len() }, |i: int| a[i] ^ b[i])
}

/// The first `len` bytes of `d`, zero-padded on the right when `d` is short.
pub open spec fn pad_trunc(d: Seq<u8>, len: nat) -> Seq<u8> {
    Seq::new(len, |i: int| if i < d.len() { d[i] } else { 0u8 })
}

/// Masking a string twice with the same pads recovers it: for equal-length
/// pads, `((o ^ (t ^ m)) ^ o) ^ t == m` bytewise.
pub proof fn lemma_xor_unmask(t: Seq<u8>, o: Seq<u8>, m: Seq<u8>)
    requires
        t.len() == m.len(),
        o.len() == m.len(),
    ensures
        xor_seq(xor_seq(xor_seq(o, xor_seq(t, m)), o), t) =~= m,
{
    assert forall|i: int| 0 <= i < m.len() implies xor_seq(
        xor_seq(xor_seq(o, xor_seq(t, m)), o),
        t,
    )[i] == m[i] by {
        let x = t[i];
        let y = o[i];
        let z = m[i];
        assert(((y ^ (x ^ z)) ^ y) ^ x == z) by (bit_vector);
    }
}

/// Bytewise equality of two byte vectors.
pub fn bytes_eq(a: &Vec<u8>, b: &Vec<u8>) -> (r: bool)
    ensures
        r == (a@ == b@),
{
    if a.len() != b.len() {
        return false;
    }
    let n = a.len();
    let mut i: usize = 0;
    while i < n
        invariant
            n == a@.len(),
            n == b@.len(),
            0 <= i <= n,
            forall|j: int| 0 <= j < i ==> a@[j] == b@[j],
        decreases n - i,
    {
        if a[i] != b[i] {
            return false;
        }
        i = i + 1;
    }
    proof {
        assert(a@ =~= b@);
    }
    true
}

/// Appends all of `src` to `dst`.
pub fn append_bytes(dst: &mut Vec<u8>, src: &[u8])
    ensures
        final(dst)@ == old(dst)@ + src@,
{
    let n = src.len();
    let mut i: usize = 0;
    while i < n
        invariant
            n == src@.len(),
            0 <= i <= n,
            dst@ == old(dst)@ + src@.take(i as int),
        decreases n - i,
    {
        dst.push(src[i]);
        proof {
            assert(src@.take(i + 1 as int) =~= src@.take(i as int).push(src@[i as int]));
            assert(dst@ =~= old(dst)@ + src@.take(i + 1 as int));
        }
        i = i + 1;
    }
    proof {
        assert(src@.take(n as int) =~= src@);
    }
}

} // verus!
