use dibtd_ephr::aead::AEADCipher;
use dibtd_ephr::crypto::{KeyDerivation, ZKProof};
use dibtd_ephr::dkg::{distributed_keygen, DKGProtocol};
use dibtd_ephr::encryption::DIBTDEncryption;
use dibtd_ephr::errors::DIBTDError;
use dibtd_ephr::point::Point;
use dibtd_ephr::scalar::{
    scalar_add, scalar_from_u32, scalar_mul, scalar_negate, Zq,
};
use dibtd_ephr::threshold::ThresholdOperations;
use dibtd_ephr::types::{GroupIdentity, MasterPublicKey, MasterSecretShare, PrivateKeyShare};
use dibtd_ephr::utils::{
    hash_h1, hash_h2, hash_h2_bytes, lagrange_coefficient, pad_or_truncate, schnorr_prove,
    schnorr_prove_with_nonce, schnorr_verify, xor_bytes,
};

fn setup(n: usize, t: usize) -> (MasterPublicKey, Vec<MasterSecretShare>) {
    let mut dkg = DKGProtocol::new(n, t).unwrap();
    for i in 1..=n {
        dkg.init_participant(i).unwrap();
    }
    for from in 1..=n {
        let shares = dkg.distribute_shares(from).unwrap();
        for (to, pair) in shares {
            dkg.receive_shares(to, from, pair).unwrap();
        }
    }
    for i in 1..=n {
        assert!(dkg.verify_shares(i).unwrap());
    }
    dkg.finalize().unwrap()
}

fn derive(
    mpk_shares: &[MasterSecretShare],
    id: &str,
    k: usize,
    m: usize,
    t: usize,
) -> Vec<PrivateKeyShare> {
    let group_id = GroupIdentity {
        id: id.to_string(),
        threshold: k,
        members: m,
    };
    distributed_keygen(mpk_shares, &group_id, t).unwrap()
}

#[test]
fn scalar_arithmetic_exact_values() {
    let two = scalar_from_u32(2);
    let three = scalar_from_u32(3);
    let five = scalar_from_u32(5);
    let six = scalar_from_u32(6);
    assert!(scalar_add(&two, &three).eq_scalar(&five));
    assert!(scalar_mul(&two, &three).eq_scalar(&six));
    // -(q - 5) == 5, and -0 == 0.
    let neg5 = scalar_negate(&five);
    assert!(scalar_negate(&neg5).eq_scalar(&five));
    let zero = scalar_from_u32(0);
    assert!(scalar_negate(&zero).eq_scalar(&zero));
    assert!(zero.is_zero());
    assert!(!five.is_zero());
    // 0x0100 read from two bytes is 256.
    let bytes = vec![1u8, 0u8];
    assert!(Zq::from_bytes_mod_q(&bytes).eq_scalar(&scalar_from_u32(256)));
}

#[test]
fn lagrange_coefficient_exact_values() {
    // Over the index set {1, 2}: λ_1(0) = (0−2)/(1−2) = 2 and
    // λ_2(0) = (0−1)/(2−1) = −1 mod q.
    let indices = [1usize, 2usize];
    let l1 = lagrange_coefficient(&indices, 1, 0).unwrap();
    let l2 = lagrange_coefficient(&indices, 2, 0).unwrap();
    assert!(l1.eq_scalar(&scalar_from_u32(2)));
    assert!(l2.eq_scalar(&scalar_negate(&scalar_from_u32(1))));
    // Entries equal to i are skipped in both products, so a repeated own
    // index changes nothing.
    let repeated = [1usize, 1usize, 2usize];
    let l1r = lagrange_coefficient(&repeated, 1, 0).unwrap();
    assert!(l1r.eq_scalar(&scalar_from_u32(2)));
}

#[test]
fn shamir_reconstruction_exact_value() {
    // Shares of f(x) = 5 + 3x at x = 1, 2: reconstructing at 0 gives 5.
    let shares = vec![
        (1usize, scalar_from_u32(8)),
        (2usize, scalar_from_u32(11)),
    ];
    let secret = ThresholdOperations::reconstruct_secret(&shares, 2).unwrap();
    assert!(secret.eq_scalar(&scalar_from_u32(5)));
    // Too few shares are rejected with the exact counts.
    let one = vec![(1usize, scalar_from_u32(8))];
    assert!(matches!(
        ThresholdOperations::reconstruct_secret(&one, 2),
        Err(DIBTDError::InsufficientShares(1, 2))
    ));
}

#[test]
fn xor_and_padding_behave_bytewise() {
    let a = [0xF0u8, 0x0F, 0xAA];
    let b = [0xFFu8, 0xFF, 0xAA];
    assert_eq!(xor_bytes(&a, &b), vec![0x0F, 0xF0, 0x00]);
    // XOR twice with the same mask recovers the input.
    let masked = xor_bytes(&a, &b);
    assert_eq!(xor_bytes(&masked, &b), a.to_vec());
    assert_eq!(pad_or_truncate(&a, 5), vec![0xF0, 0x0F, 0xAA, 0, 0]);
    assert_eq!(pad_or_truncate(&a, 2), vec![0xF0, 0x0F]);
    assert_eq!(pad_or_truncate(&[], 3), vec![0, 0, 0]);
}

#[test]
fn hashes_are_domain_separated_and_deterministic() {
    let h_a = hash_h1(b"abc");
    let h_b = hash_h1(b"abc");
    assert!(h_a.eq_scalar(&h_b));
    let h_c = hash_h1(b"abd");
    assert!(!h_a.eq_scalar(&h_c));
    // H2 over bytes is deterministic and 32 bytes long.
    let d1 = hash_h2_bytes(b"abc");
    let d2 = hash_h2_bytes(b"abc");
    assert_eq!(d1, d2);
    assert_eq!(d1.len(), 32);
    // A point's H2 digest matches hashing its compressed encoding.
    let p = Point::from_scalar(&scalar_from_u32(7)).unwrap();
    assert_eq!(hash_h2(&p), hash_h2_bytes(p.compressed()));
}

#[test]
fn mpk_independent_of_quorum_choice() {
    // Reconstructing Y = Σ λ_i(0)·s_i·P from two distinct quorums of
    // size t gives the same point.
    let (mpk, master_shares) = setup(5, 3);
    let mut points = Vec::new();
    for share in &master_shares {
        let p = Point::from_scalar(&share.s_i).unwrap();
        points.push((share.index, p));
    }
    let q1: Vec<(usize, Point)> = points[0..3]
        .iter()
        .map(|(i, p)| (*i, p.duplicate()))
        .collect();
    let q2: Vec<(usize, Point)> = points[2..5]
        .iter()
        .map(|(i, p)| (*i, p.duplicate()))
        .collect();
    let y1 = ThresholdOperations::reconstruct_public_key(&q1, 3).unwrap();
    let y2 = ThresholdOperations::reconstruct_public_key(&q2, 3).unwrap();
    assert!(y1.eq_point(&y2));
    assert!(y1.eq_point(&mpk.y));
}

#[test]
fn group_public_key_matches_group_secret() {
    // The derived group key Y + H1(id)·Γ equals σ_g·P for the
    // reconstructed group secret σ_g = Σ λ_i(0)·(s_i + H1(id)·z_i).
    let (mpk, master_shares) = setup(3, 2);
    let id = "cardiology";
    let h = hash_h1(id.as_bytes());
    let mut psi_shares = Vec::new();
    for share in master_shares.iter().take(2) {
        let psi = scalar_add(&share.s_i, &scalar_mul(&h, &share.z_i));
        psi_shares.push((share.index, psi));
    }
    let sigma = ThresholdOperations::reconstruct_secret(&psi_shares, 2).unwrap();
    let expected = Point::from_scalar(&sigma).unwrap();
    let gpk = KeyDerivation::derive_group_public_key(&mpk, id).unwrap();
    assert!(gpk.eq_point(&expected));
}

#[test]
fn correctness_any_k_subset_decrypts() {
    // S1: n=5, t=3, id "cardiology", (k, m) = (2, 4); members {1, 3}
    // combine; the plaintext comes back exactly, and |F| == 24.
    let (mpk, master_shares) = setup(5, 3);
    let shares = derive(&master_shares, "cardiology", 2, 4, 3);
    let message = b"Test medical record data";
    assert_eq!(message.len(), 24);
    let ciphertext = DIBTDEncryption::encrypt(message, "cardiology", &mpk).unwrap();
    assert_eq!(ciphertext.f.len(), 24);
    let s1 = DIBTDEncryption::share_decrypt(&ciphertext, &shares[0]).unwrap();
    let s3 = DIBTDEncryption::share_decrypt(&ciphertext, &shares[2]).unwrap();
    let decrypted = DIBTDEncryption::decrypt(&ciphertext, &[s1, s3], 2).unwrap();
    assert_eq!(message.to_vec(), decrypted);
    // Another pair works too.
    let s2 = DIBTDEncryption::share_decrypt(&ciphertext, &shares[1]).unwrap();
    let s4 = DIBTDEncryption::share_decrypt(&ciphertext, &shares[3]).unwrap();
    let again = DIBTDEncryption::decrypt(&ciphertext, &[s4, s2], 2).unwrap();
    assert_eq!(message.to_vec(), again);
}

#[test]
fn threshold_necessity_one_share_short() {
    // S2: (k, m) = (3, 4) but only 2 shares presented.
    let (mpk, master_shares) = setup(5, 3);
    let shares = derive(&master_shares, "cardiology", 3, 4, 3);
    let ciphertext = DIBTDEncryption::encrypt(b"Test data", "cardiology", &mpk).unwrap();
    let s1 = DIBTDEncryption::share_decrypt(&ciphertext, &shares[0]).unwrap();
    let s2 = DIBTDEncryption::share_decrypt(&ciphertext, &shares[1]).unwrap();
    let result = DIBTDEncryption::decrypt(&ciphertext, &[s1, s2], 3);
    assert!(matches!(
        result,
        Err(DIBTDError::InsufficientShares(2, 3))
    ));
}

#[test]
fn envelope_sized_round_trip() {
    // S3: n=3, t=2, id "g", (k, m) = (2, 3), a 60-byte message of the
    // AEAD parameter shape.
    let (mpk, master_shares) = setup(3, 2);
    let shares = derive(&master_shares, "g", 2, 3, 2);
    let message: Vec<u8> = (0..60u8).collect();
    let ciphertext = DIBTDEncryption::encrypt(&message, "g", &mpk).unwrap();
    assert_eq!(ciphertext.f.len(), 60);
    let s1 = DIBTDEncryption::share_decrypt(&ciphertext, &shares[0]).unwrap();
    let s2 = DIBTDEncryption::share_decrypt(&ciphertext, &shares[1]).unwrap();
    let decrypted = DIBTDEncryption::decrypt(&ciphertext, &[s1, s2], 2).unwrap();
    assert_eq!(message, decrypted);
}

#[test]
fn tampered_body_fails_decrypt_not_share_decrypt() {
    // S4: flip the last byte of F; share decryption still yields a share
    // (F is only bound through H3, which the sanity check re-hashes), but
    // combining fails the consistency check.
    let (mpk, master_shares) = setup(3, 2);
    let shares = derive(&master_shares, "g", 2, 3, 2);
    let message = b"attack at dawn";
    let ciphertext = DIBTDEncryption::encrypt(message, "g", &mpk).unwrap();
    let mut tampered = ciphertext.duplicate();
    let last = tampered.f.len() - 1;
    tampered.f[last] ^= 0x01;
    // The sanity check catches the mismatch between δ and H3(D, E, F).
    let share_result = DIBTDEncryption::share_decrypt(&tampered, &shares[0]);
    assert!(matches!(
        share_result,
        Err(DIBTDError::InvalidCiphertext)
    ));
    // Shares made from the honest ciphertext still fail to decrypt the
    // tampered one consistently.
    let s1 = DIBTDEncryption::share_decrypt(&ciphertext, &shares[0]).unwrap();
    let s2 = DIBTDEncryption::share_decrypt(&ciphertext, &shares[1]).unwrap();
    let mut body_tampered = ciphertext.duplicate();
    body_tampered.f[0] ^= 0xFF;
    let result = DIBTDEncryption::decrypt(&body_tampered, &[s1, s2], 2);
    assert!(matches!(result, Err(DIBTDError::DecryptionFailed)));
}

#[test]
fn tampered_points_and_delta_fail_sanity_check() {
    // Splicing D, E, or δ from another valid ciphertext breaks the
    // equation δ·P == D + H3(D, E, F)·E.
    let (mpk, master_shares) = setup(3, 2);
    let shares = derive(&master_shares, "g", 2, 3, 2);
    let c1 = DIBTDEncryption::encrypt(b"message one", "g", &mpk).unwrap();
    let c2 = DIBTDEncryption::encrypt(b"message two", "g", &mpk).unwrap();

    let mut with_d = c1.duplicate();
    with_d.d = c2.d.duplicate();
    assert!(matches!(
        DIBTDEncryption::share_decrypt(&with_d, &shares[0]),
        Err(DIBTDError::InvalidCiphertext)
    ));

    let mut with_e = c1.duplicate();
    with_e.e = c2.e.duplicate();
    assert!(matches!(
        DIBTDEncryption::share_decrypt(&with_e, &shares[0]),
        Err(DIBTDError::InvalidCiphertext)
    ));

    let mut with_delta = c1.duplicate();
    with_delta.delta = c2.delta.duplicate();
    assert!(matches!(
        DIBTDEncryption::share_decrypt(&with_delta, &shares[0]),
        Err(DIBTDError::InvalidCiphertext)
    ));
}

#[test]
fn encryption_is_randomized() {
    // Two encryptions of the same message under the same key draw fresh
    // randomness, so D and F differ.
    let (mpk, master_shares) = setup(3, 2);
    let _shares = derive(&master_shares, "g", 2, 3, 2);
    let c1 = DIBTDEncryption::encrypt(b"same message", "g", &mpk).unwrap();
    let c2 = DIBTDEncryption::encrypt(b"same message", "g", &mpk).unwrap();
    assert!(!c1.d.eq_point(&c2.d));
    assert_ne!(c1.f, c2.f);
}

#[test]
fn encryption_deterministic_under_fixed_randomness() {
    // With the same caller-supplied scalar, encryption is a function of
    // its arguments.
    let (mpk, _master_shares) = setup(3, 2);
    let u = scalar_from_u32(123456);
    let c1 = DIBTDEncryption::encrypt_with_randomness(b"fixed", "g", &mpk, &u).unwrap();
    let c2 = DIBTDEncryption::encrypt_with_randomness(b"fixed", "g", &mpk, &u).unwrap();
    assert!(c1.d.eq_point(&c2.d));
    assert!(c1.e.eq_point(&c2.e));
    assert_eq!(c1.f, c2.f);
    assert!(c1.delta.eq_scalar(&c2.delta));
}

#[test]
fn schnorr_proof_verifies_and_binds_context() {
    // S5: a valid proof verifies under its context and fails under
    // another context or another key.
    let psi = scalar_from_u32(424242);
    let vk = Point::from_scalar(&psi).unwrap();
    let proof = schnorr_prove(&psi, "ctxA").unwrap();
    assert!(schnorr_verify(&proof, &vk, "ctxA"));
    assert!(!schnorr_verify(&proof, &vk, "ctxB"));
    let other = Point::from_scalar(&scalar_from_u32(5)).unwrap();
    assert!(!schnorr_verify(&proof, &other, "ctxA"));
}

#[test]
fn schnorr_proof_with_fixed_nonce() {
    // The response is nonce + ψ·H(context ‖ R) mod q, so a zero nonce is
    // rejected and a fixed nonce gives a verifying proof.
    let psi = scalar_from_u32(7);
    let vk = Point::from_scalar(&psi).unwrap();
    let nonce = scalar_from_u32(99);
    let proof = schnorr_prove_with_nonce(&psi, &nonce, "ctx").unwrap();
    assert!(schnorr_verify(&proof, &vk, "ctx"));
    let zero = scalar_from_u32(0);
    assert!(matches!(
        schnorr_prove_with_nonce(&psi, &zero, "ctx"),
        Err(DIBTDError::KeyGenerationFailed)
    ));
}

#[test]
fn batch_verify_checks_all_pairs() {
    let psi1 = scalar_from_u32(11);
    let psi2 = scalar_from_u32(22);
    let vk1 = Point::from_scalar(&psi1).unwrap();
    let vk2 = Point::from_scalar(&psi2).unwrap();
    let p1 = schnorr_prove(&psi1, "batch").unwrap();
    let p2 = schnorr_prove(&psi2, "batch").unwrap();
    let proofs = vec![p1.duplicate(), p2.duplicate()];
    let keys = vec![vk1.duplicate(), vk2.duplicate()];
    assert!(ZKProof::batch_verify(&proofs, &keys, "batch"));
    let swapped = vec![vk2.duplicate(), vk1.duplicate()];
    assert!(!ZKProof::batch_verify(&proofs, &swapped, "batch"));
    let short = vec![vk1.duplicate()];
    assert!(!ZKProof::batch_verify(&proofs, &short, "batch"));
}

#[test]
fn private_share_verification() {
    let (_, master_shares) = setup(3, 2);
    let shares = derive(&master_shares, "g", 2, 3, 2);
    for share in &shares {
        assert!(KeyDerivation::verify_private_share(share, &setup(1, 1).0, "g").unwrap());
    }
    // A share whose key belongs to someone else is rejected.
    let forged = PrivateKeyShare {
        index: shares[0].index,
        psi_i: shares[0].psi_i.duplicate(),
        verification_key: shares[1].verification_key.duplicate(),
    };
    assert!(!KeyDerivation::verify_private_share(&forged, &setup(1, 1).0, "g").unwrap());
}

#[test]
fn tampered_dkg_share_fails_verification() {
    // Flipping a received share breaks the commitment check for that
    // recipient.
    let n = 3;
    let t = 2;
    let mut dkg = DKGProtocol::new(n, t).unwrap();
    for i in 1..=n {
        dkg.init_participant(i).unwrap();
    }
    for from in 1..=n {
        let shares = dkg.distribute_shares(from).unwrap();
        for (to, pair) in shares {
            if to == 1 && from == 2 {
                // Deliver a corrupted pair to participant 1.
                let bad = scalar_add(&pair.0, &scalar_from_u32(1));
                dkg.receive_shares(to, from, (bad, pair.1)).unwrap();
            } else {
                dkg.receive_shares(to, from, pair).unwrap();
            }
        }
    }
    assert!(!dkg.verify_shares(1).unwrap());
    assert!(dkg.verify_shares(2).unwrap());
    assert!(dkg.verify_shares(3).unwrap());
}

#[test]
fn aead_envelope_round_trip_and_auth() {
    let key = AEADCipher::generate_key();
    let nonce = AEADCipher::generate_nonce();
    let ct = AEADCipher::encrypt(&key, &nonce, b"record", b"aad").unwrap();
    assert_eq!(ct.len(), 6 + 16);
    assert_eq!(
        AEADCipher::decrypt(&key, &nonce, &ct, b"aad").unwrap(),
        b"record".to_vec()
    );
    // Authentication: a different aad or a flipped byte is rejected.
    assert!(AEADCipher::decrypt(&key, &nonce, &ct, b"other").is_err());
    let mut bad = ct.clone();
    bad[0] ^= 1;
    assert!(AEADCipher::decrypt(&key, &nonce, &bad, b"aad").is_err());
}

#[test]
fn aead_param_packing_round_trip() {
    let key = vec![1u8; 32];
    let nonce = vec![2u8; 12];
    let tag = vec![3u8; 16];
    let packed = AEADCipher::pack_aead_params(&key, &nonce, &tag);
    assert_eq!(packed.len(), 60);
    let (k, n, t) = AEADCipher::unpack_aead_params(&packed).unwrap();
    assert_eq!(k, key);
    assert_eq!(n, nonce);
    assert_eq!(t, tag);
    assert!(matches!(
        AEADCipher::unpack_aead_params(&packed[..59]),
        Err(DIBTDError::AEADError(_))
    ));
}

#[test]
fn minimal_system_works_end_to_end() {
    // S6 tail: new(1, 1) succeeds and the single-center system still
    // encrypts and decrypts.
    let (mpk, master_shares) = setup(1, 1);
    let shares = derive(&master_shares, "solo", 1, 1, 1);
    let ciphertext = DIBTDEncryption::encrypt(b"x", "solo", &mpk).unwrap();
    let s = DIBTDEncryption::share_decrypt(&ciphertext, &shares[0]).unwrap();
    let decrypted = DIBTDEncryption::decrypt(&ciphertext, &[s], 1).unwrap();
    assert_eq!(decrypted, b"x".to_vec());
}

#[test]
fn invalid_threshold_reports_parameters() {
    // S6: the error carries (t, n) as given.
    assert!(matches!(
        DKGProtocol::new(5, 6),
        Err(DIBTDError::InvalidThreshold(6, 5))
    ));
    assert!(matches!(
        DKGProtocol::new(5, 0),
        Err(DIBTDError::InvalidThreshold(0, 5))
    ));
    assert!(DKGProtocol::new(1, 1).is_ok());
}
