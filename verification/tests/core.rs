use dibtd_ephr::aead::AEADCipher;
use dibtd_ephr::crypto::ZKProof;
use dibtd_ephr::dkg::{distributed_keygen, DKGProtocol};
use dibtd_ephr::encryption::DIBTDEncryption;
use dibtd_ephr::errors::DIBTDError;
use dibtd_ephr::threshold::ThresholdOperations;
use dibtd_ephr::types::{GroupIdentity, MasterPublicKey, MasterSecretShare};
use std::time::Instant;

fn setup_test_system(
    n: usize,
    t: usize,
) -> Result<(MasterPublicKey, Vec<MasterSecretShare>), DIBTDError> {
    let mut dkg = DKGProtocol::new(n, t)?;

    for i in 1..=n {
        dkg.init_participant(i)?;
    }

    for from in 1..=n {
        let shares = dkg.distribute_shares(from)?;
        for (to, pair) in shares {
            dkg.receive_shares(to, from, pair)?;
        }
    }

    for i in 1..=n {
        assert!(dkg.verify_shares(i)?);
    }

    dkg.finalize()
}

#[test]
fn test_full_system_flow() {
    let n = 5;
    let t = 3;
    let group_members = 4;
    let group_threshold = 2;

    let (mpk, master_shares) = setup_test_system(n, t).expect("DKG setup failed");

    let group_id = GroupIdentity {
        id: "test_group".to_string(),
        threshold: group_threshold,
        members: group_members,
    };

    let private_shares =
        distributed_keygen(&master_shares, &group_id, t).expect("Distributed keygen failed");
    assert_eq!(private_shares.len(), group_members);

    let message = b"Test medical record data";

    let ciphertext =
        DIBTDEncryption::encrypt(message, &group_id.id, &mpk).expect("Encryption failed");

    let mut decryption_shares = Vec::new();
    for i in 1..=group_threshold {
        let private_share = &private_shares[i - 1];
        let dec_share = DIBTDEncryption::share_decrypt(&ciphertext, private_share)
            .expect("Share decryption failed");
        decryption_shares.push(dec_share);
    }

    let decrypted = DIBTDEncryption::decrypt(&ciphertext, &decryption_shares, group_threshold)
        .expect("Decryption failed");

    assert_eq!(message.to_vec(), decrypted);
}

#[test]
fn test_insufficient_shares_fails() {
    let n = 5;
    let t = 3;
    let group_threshold = 3;

    let (mpk, master_shares) = setup_test_system(n, t).expect("DKG setup failed");

    let group_id = GroupIdentity {
        id: "test_group".to_string(),
        threshold: group_threshold,
        members: 4,
    };

    let private_shares =
        distributed_keygen(&master_shares, &group_id, t).expect("Distributed keygen failed");

    let message = b"Test data";
    let ciphertext =
        DIBTDEncryption::encrypt(message, &group_id.id, &mpk).expect("Encryption failed");

    let mut decryption_shares = Vec::new();
    for i in 1..=2 {
        let private_share = &private_shares[i - 1];
        let dec_share = DIBTDEncryption::share_decrypt(&ciphertext, private_share)
            .expect("Share decryption failed");
        decryption_shares.push(dec_share);
    }

    let result = DIBTDEncryption::decrypt(&ciphertext, &decryption_shares, group_threshold);

    assert!(matches!(result, Err(DIBTDError::InsufficientShares(2, 3))));
}

#[test]
fn test_aead_integration() {
    let n = 3;
    let t = 2;

    let (mpk, master_shares) = setup_test_system(n, t).expect("DKG setup failed");

    let group_id = GroupIdentity {
        id: "test_group".to_string(),
        threshold: 2,
        members: 3,
    };

    let private_shares =
        distributed_keygen(&master_shares, &group_id, t).expect("Distributed keygen failed");

    let ehr_data = b"Patient: Jane Doe\n\
                     Medical Record Number: 123456\n\
                     Date: 2024-01-15\n\
                     Chief Complaint: Annual checkup\n\
                     Vital Signs:\n\
                     - Blood Pressure: 118/76 mmHg\n\
                     - Heart Rate: 68 bpm\n\
                     - Temperature: 98.6\xB0F\n\
                     - Respiratory Rate: 16/min\n\
                     Lab Results:\n\
                     - Glucose: 92 mg/dL\n\
                     - Cholesterol: 180 mg/dL\n\
                     - HDL: 55 mg/dL\n\
                     - LDL: 110 mg/dL\n\
                     Assessment: Patient in good health";

    let aead_key = AEADCipher::generate_key();
    let nonce = AEADCipher::generate_nonce();
    let associated_data = b"Medical Record 2024";

    let encrypted_ehr = AEADCipher::encrypt(&aead_key, &nonce, ehr_data, associated_data)
        .expect("AEAD encryption failed");

    let tag_start = encrypted_ehr.len().saturating_sub(16);
    let tag = encrypted_ehr[tag_start..].to_vec();

    let packed_params = AEADCipher::pack_aead_params(&aead_key, &nonce, &tag);
    let ciphertext = DIBTDEncryption::encrypt(&packed_params, &group_id.id, &mpk)
        .expect("DIBTD encryption failed");

    let mut decryption_shares = Vec::new();
    for i in 1..=2 {
        let private_share = &private_shares[i - 1];
        let dec_share = DIBTDEncryption::share_decrypt(&ciphertext, private_share)
            .expect("Share decryption failed");
        decryption_shares.push(dec_share);
    }

    let decrypted_params = DIBTDEncryption::decrypt(&ciphertext, &decryption_shares, 2)
        .expect("DIBTD decryption failed");

    let (recovered_key, recovered_nonce, _) =
        AEADCipher::unpack_aead_params(&decrypted_params).expect("Parameter unpacking failed");

    let decrypted_ehr = AEADCipher::decrypt(
        &recovered_key,
        &recovered_nonce,
        &encrypted_ehr,
        associated_data,
    )
    .expect("AEAD decryption failed");

    assert_eq!(ehr_data.to_vec(), decrypted_ehr);
}

#[test]
fn test_proof_verification() {
    let n = 3;
    let t = 2;

    let (mpk, master_shares) = setup_test_system(n, t).expect("DKG setup failed");

    let group_id = GroupIdentity {
        id: "test_group".to_string(),
        threshold: 2,
        members: 3,
    };

    let private_shares =
        distributed_keygen(&master_shares, &group_id, t).expect("Distributed keygen failed");

    let message = b"Test";
    let ciphertext =
        DIBTDEncryption::encrypt(message, &group_id.id, &mpk).expect("Encryption failed");

    let private_share = private_shares.first().expect("Private share not found");
    let dec_share = DIBTDEncryption::share_decrypt(&ciphertext, private_share)
        .expect("Share decryption failed");

    let proof = ZKProof::prove_share(private_share, &dec_share, "test_context")
        .expect("Proof generation failed");

    assert!(ZKProof::verify_share(
        &proof,
        &private_share.verification_key,
        "test_context",
    ));

    assert!(!ZKProof::verify_share(
        &proof,
        &private_share.verification_key,
        "wrong_context",
    ));
}

#[test]
fn test_threshold_consistency() {
    let n = 5;
    let t = 3;

    let (mpk, master_shares) = setup_test_system(n, t).expect("DKG setup failed");

    let group_id = GroupIdentity {
        id: "test_group".to_string(),
        threshold: 3,
        members: 5,
    };

    let private_shares =
        distributed_keygen(&master_shares, &group_id, t).expect("Distributed keygen failed");

    let is_consistent = ThresholdOperations::verify_threshold_consistency(
        &private_shares,
        &mpk,
        &group_id.id,
        group_id.threshold,
    )
    .expect("Threshold consistency check failed");

    assert!(is_consistent);
}

#[test]
fn test_different_group_sizes() {
    let n = 5;
    let t = 3;

    let (mpk, master_shares) = setup_test_system(n, t).expect("DKG setup failed");

    let test_groups = vec![(2, 2), (3, 2), (5, 3), (10, 6)];

    for (members, threshold) in test_groups {
        let group_id = GroupIdentity {
            id: format!("test_group_{}", members),
            threshold,
            members,
        };

        let private_shares = distributed_keygen(&master_shares, &group_id, t)
            .expect(&format!("Keygen failed for group size {}", members));

        assert_eq!(private_shares.len(), members);

        let message = b"Test message";
        let ciphertext =
            DIBTDEncryption::encrypt(message, &group_id.id, &mpk).expect("Encryption failed");

        let mut decryption_shares = Vec::new();
        for i in 1..=threshold {
            let private_share = &private_shares[i - 1];
            let dec_share = DIBTDEncryption::share_decrypt(&ciphertext, private_share)
                .expect("Share decryption failed");
            decryption_shares.push(dec_share);
        }

        let decrypted = DIBTDEncryption::decrypt(&ciphertext, &decryption_shares, threshold)
            .expect("Decryption failed");

        assert_eq!(message.to_vec(), decrypted);
    }
}

#[test]
fn test_performance_scalability() {
    let test_sizes = vec![(3, 2), (5, 3), (7, 4)];
    let mut times = Vec::new();

    for (n, t) in test_sizes {
        let start = Instant::now();
        let _system = setup_test_system(n, t).expect("Setup failed");
        let duration = start.elapsed();
        times.push(duration);

        println!("Setup time for n={}, t={}: {:?}", n, t, duration);
    }

    assert!(times.iter().all(|&t| t.as_secs() < 10));
}

#[test]
fn test_error_conditions() {
    let result = DKGProtocol::new(5, 6);
    assert!(result.is_err());

    let result = DKGProtocol::new(5, 0);
    assert!(result.is_err());

    let result = setup_test_system(1, 1);
    assert!(result.is_ok());
}
