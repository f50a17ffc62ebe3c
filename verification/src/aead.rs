//! The AES-256-GCM envelope around bulk record bytes, and the 60-byte
//! `key ‖ nonce ‖ tag` packing that the threshold scheme encrypts.

use vstd::prelude::*;

use crate::bytes::append_bytes;
use crate::errors::DIBTDError;
use crate::scalar::fill_random;

verus! {

/// The AES-256-GCM ciphertext for a key, nonce, plaintext, and associated
/// data.  This names what `aes_gcm`'s `Aes256Gcm` encryption returns; the
/// result is a function of those arguments alone, with the 16-byte tag
/// appended after the encrypted body.
pub uninterp spec fn aead_enc(key: Seq<u8>, nonce: Seq<u8>, pt: Seq<u8>, aad: Seq<u8>) -> Seq<u8>;

/// The AES-256-GCM envelope.
pub struct AEADCipher;

impl AEADCipher {
    /// A fresh random 256-bit key.
    pub fn generate_key() -> (r: Vec<u8>)
        ensures
            r@.len() == 32,
    {
        fill_random(32)
    }

    /// A fresh random 96-bit nonce.
    pub fn generate_nonce() -> (r: Vec<u8>)
        ensures
            r@.len() == 12,
    {
        fill_random(12)
    }

    /// Relies on `aes_gcm`'s `Aes256Gcm`: encryption is deterministic in
    /// `(key, nonce, plaintext, aad)`, appends a 16-byte tag, and for a
    /// fixed key, nonce and aad is injective in the plaintext (the body is
    /// the plaintext XORed with a keystream).
    #[verifier::external_body]
    pub fn encrypt(
        key: &Vec<u8>,
        nonce: &Vec<u8>,
        plaintext: &[u8],
        associated_data: &[u8],
    ) -> (r: Result<Vec<u8>, DIBTDError>)
        requires
            key@.len() == 32,
            nonce@.len() == 12,
        ensures
            r matches Ok(c) ==> c@ == aead_enc(key@, nonce@, plaintext@, associated_data@)
                && c@.len() == plaintext@.len() + 16 && (forall|p2: Seq<u8>|
                p2 != plaintext@ ==> aead_enc(key@, nonce@, p2, associated_data@) != c@),
            r matches Err(e) ==> e matches DIBTDError::AEADError(_),
    {
        let cipher = match <aes_gcm::Aes256Gcm as aes_gcm::KeyInit>::new_from_slice(
            key.as_slice(),
        ) {
            Ok(c) => c,
            Err(e) => return Err(DIBTDError::AEADError(e.to_string())),
        };
        let nonce_arr = aes_gcm::Nonce::from_slice(nonce.as_slice());
        match aes_gcm::aead::Aead::encrypt(
            &cipher,
            nonce_arr,
            aes_gcm::aead::Payload { msg: plaintext, aad: associated_data },
        ) {
            Ok(c) => Ok(c),
            Err(e) => Err(DIBTDError::AEADError(e.to_string())),
        }
    }

    /// Relies on `aes_gcm`'s `Aes256Gcm`: decryption succeeds exactly on
    /// authentic ciphertexts, returning the plaintext whose encryption
    /// under the same key, nonce and aad is the ciphertext.
    #[verifier::external_body]
    pub fn decrypt(
        key: &Vec<u8>,
        nonce: &Vec<u8>,
        ciphertext: &[u8],
        associated_data: &[u8],
    ) -> (r: Result<Vec<u8>, DIBTDError>)
        requires
            key@.len() == 32,
            nonce@.len() == 12,
        ensures
            r matches Ok(p) ==> ciphertext@ == aead_enc(key@, nonce@, p@, associated_data@),
            (exists|p: Seq<u8>| ciphertext@ == aead_enc(key@, nonce@, p, associated_data@))
                ==> r is Ok,
            r matches Err(e) ==> e matches DIBTDError::AEADError(_),
    {
        let cipher = match <aes_gcm::Aes256Gcm as aes_gcm::KeyInit>::new_from_slice(
            key.as_slice(),
        ) {
            Ok(c) => c,
            Err(e) => return Err(DIBTDError::AEADError(e.to_string())),
        };
        let nonce_arr = aes_gcm::Nonce::from_slice(nonce.as_slice());
        match aes_gcm::aead::Aead::decrypt(
            &cipher,
            nonce_arr,
            aes_gcm::aead::Payload { msg: ciphertext, aad: associated_data },
        ) {
            Ok(p) => Ok(p),
            Err(e) => Err(DIBTDError::AEADError(e.to_string())),
        }
    }

    /// Packs `key ‖ nonce ‖ tag` into the single message that the
    /// threshold scheme encrypts on the envelope's behalf.
    pub fn pack_aead_params(key: &Vec<u8>, nonce: &Vec<u8>, tag: &Vec<u8>) -> (r: Vec<u8>)
        ensures
            r@ == key@ + nonce@ + tag@,
    {
        let mut packed: Vec<u8> = Vec::new();
        append_bytes(&mut packed, key.as_slice());
        append_bytes(&mut packed, nonce.as_slice());
        append_bytes(&mut packed, tag.as_slice());
        packed
    }

    /// Splits a recovered 60-byte message back into `(key, nonce, tag)`;
    /// any other length is rejected.
    pub fn unpack_aead_params(data: &[u8]) -> (r: Result<
        (Vec<u8>, Vec<u8>, Vec<u8>),
        DIBTDError,
    >)
        ensures
            data@.len() != 60 <==> r is Err,
            r matches Err(e) ==> e matches DIBTDError::AEADError(_),
            r matches Ok(p) ==> p.0@ == data@.subrange(0, 32) && p.1@ == data@.subrange(32, 44)
                && p.2@ == data@.subrange(44, 60),
    {
        if data.len() != 60 {
            return Err(DIBTDError::AEADError("Invalid packed data length".to_owned()));
        }
        let mut key: Vec<u8> = Vec::new();
        let mut i: usize = 0;
        while i < 32
            invariant
                0 <= i <= 32,
                data@.len() == 60,
                key@.len() == i,
                forall|k: int| 0 <= k < i ==> key@[k] == data@[k],
            decreases 32 - i,
        {
            key.push(data[i]);
            i = i + 1;
        }
        let mut nonce: Vec<u8> = Vec::new();
        let mut j: usize = 32;
        while j < 44
            invariant
                32 <= j <= 44,
                data@.len() == 60,
                nonce@.len() == j - 32,
                forall|k: int| 0 <= k < j - 32 ==> nonce@[k] == data@[k + 32],
            decreases 44 - j,
        {
            nonce.push(data[j]);
            j = j + 1;
        }
        let mut tag: Vec<u8> = Vec::new();
        let mut l: usize = 44;
        while l < 60
            invariant
                44 <= l <= 60,
                data@.len() == 60,
                tag@.len() == l - 44,
                forall|k: int| 0 <= k < l - 44 ==> tag@[k] == data@[k + 44],
            decreases 60 - l,
        {
            tag.push(data[l]);
            l = l + 1;
        }
        proof {
            assert(key@ =~= data@.subrange(0, 32));
            assert(nonce@ =~= data@.subrange(32, 44));
            assert(tag@ =~= data@.subrange(44, 60));
        }
        Ok((key, nonce, tag))
    }
}

} // verus!
