use dibtd_ephr::aead::AEADCipher;
use dibtd_ephr::crypto::ZKProof;
use dibtd_ephr::dkg::{distributed_keygen, DKGProtocol};
use dibtd_ephr::encryption::DIBTDEncryption;
use dibtd_ephr::errors::DIBTDError;
use dibtd_ephr::threshold::ThresholdOperations;
use dibtd_ephr::types::GroupIdentity;

#[test]
fn tests_test_full_system_flow() {
    let n = 5;
    let t = 3;
    let group_members = 4;
    let group_threshold = 2;

    let mut dkg = DKGProtocol::new(n, t).unwrap();

    for i in 1..=n {
        dkg.init_participant(i).unwrap();
    }

    let mut all_shares = Vec::new();
    for from in 1..=n {
        let shares = dkg.distribute_shares(from).unwrap();
        all_shares.push((from, shares));
    }

    for (from, shares) in all_shares {
        for (to, pair) in shares {
            dkg.receive_shares(to, from, pair).unwrap();
        }
    }

    for i in 1..=n {
        assert!(dkg.verify_shares(i).unwrap());
    }

    let (mpk, master_shares) = dkg.finalize().unwrap();

    let group_id = GroupIdentity {
        id: "test_group".to_string(),
        threshold: group_threshold,
        members: group_members,
    };

    let private_shares = distributed_keygen(&master_shares, &group_id, t).unwrap();
    assert_eq!(private_shares.len(), group_members);

    let message = b"Test medical record data";

    let ciphertext = DIBTDEncryption::encrypt(message, &group_id.id, &mpk).unwrap();

    let mut decryption_shares = Vec::new();
    for i in 1..=group_threshold {
        let private_share = &private_shares[i - 1];
        let dec_share = DIBTDEncryption::share_decrypt(&ciphertext, private_share).unwrap();
        decryption_shares.push(dec_share);
    }

    let decrypted =
        DIBTDEncryption::decrypt(&ciphertext, &decryption_shares, group_threshold).unwrap();

    assert_eq!(message.to_vec(), decrypted);
}

#[test]
fn tests_test_insufficient_shares_fails() {
    let n = 5;
    let t = 3;
    let group_threshold = 3;

    let mut dkg = DKGProtocol::new(n, t).unwrap();
    for i in 1..=n {
        dkg.init_participant(i).unwrap();
    }

    for from in 1..=n {
        let shares = dkg.distribute_shares(from).unwrap();
        for (to, pair) in shares {
            dkg.receive_shares(to, from, pair).unwrap();
        }
    }

    let (mpk, master_shares) = dkg.finalize().unwrap();

    let group_id = GroupIdentity {
        id: "test_group".to_string(),
        threshold: group_threshold,
        members: 4,
    };

    let private_shares = distributed_keygen(&master_shares, &group_id, t).unwrap();

    let message = b"Test data";
    let ciphertext = DIBTDEncryption::encrypt(message, &group_id.id, &mpk).unwrap();

    let mut decryption_shares = Vec::new();
    for i in 1..=2 {
        let private_share = &private_shares[i - 1];
        let dec_share = DIBTDEncryption::share_decrypt(&ciphertext, private_share).unwrap();
        decryption_shares.push(dec_share);
    }

    let result = DIBTDEncryption::decrypt(&ciphertext, &decryption_shares, group_threshold);

    assert!(matches!(result, Err(DIBTDError::InsufficientShares(2, 3))));
}

#[test]
fn tests_test_aead_integration() {
    let n = 3;
    let t = 2;

    let mut dkg = DKGProtocol::new(n, t).unwrap();
    for i in 1..=n {
        dkg.init_participant(i).unwrap();
    }

    for from in 1..=n {
        let shares = dkg.distribute_shares(from).unwrap();
        for (to, pair) in shares {
            dkg.receive_shares(to, from, pair).unwrap();
        }
    }

    let (mpk, master_shares) = dkg.finalize().unwrap();

    let group_id = GroupIdentity {
        id: "test_group".to_string(),
        threshold: 2,
        members: 3,
    };

    let private_shares = distributed_keygen(&master_shares, &group_id, t).unwrap();

    let ehr_data = b"Patient: Jane Doe\n\
                     Medical Record Number: 123456\n\
                     Date: 2024-01-15\n\
                     Chief Complaint: Annual checkup\n\
                     Vital Signs:\n\
                     - Blood Pressure: 118/76 mmHg\n\
                     - Heart Rate: 68 bpm\n\
                     - Temperature: 98.6\xB0F\n\
                     - Respiratory Rate: 16/min\n\
                     Lab Results:\n\
                     - Glucose: 92 mg/dL\n\
                     - Cholesterol: 180 mg/dL\n\
                     - HDL: 55 mg/dL\n\
                     - LDL: 110 mg/dL\n\
                     Assessment: Patient in good health";

    let aead_key = AEADCipher::generate_key();
    let nonce = AEADCipher::generate_nonce();
    let associated_data = b"Medical Record 2024";

    let encrypted_ehr = AEADCipher::encrypt(&aead_key, &nonce, ehr_data, associated_data).unwrap();

    let tag_start = encrypted_ehr.len().saturating_sub(16);
    let tag = encrypted_ehr[tag_start..].to_vec();

    let packed_params = AEADCipher::pack_aead_params(&aead_key, &nonce, &tag);
    let ciphertext = DIBTDEncryption::encrypt(&packed_params, &group_id.id, &mpk).unwrap();

    let mut decryption_shares = Vec::new();
    for i in 1..=2 {
        let private_share = &private_shares[i - 1];
        let dec_share = DIBTDEncryption::share_decrypt(&ciphertext, private_share).unwrap();
        decryption_shares.push(dec_share);
    }

    let decrypted_params = DIBTDEncryption::decrypt(&ciphertext, &decryption_shares, 2).unwrap();

    let (recovered_key, recovered_nonce, _) =
        AEADCipher::unpack_aead_params(&decrypted_params).unwrap();

    let decrypted_ehr = AEADCipher::decrypt(
        &recovered_key,
        &recovered_nonce,
        &encrypted_ehr,
        associated_data,
    )
    .unwrap();

    assert_eq!(ehr_data.to_vec(), decrypted_ehr);
}

#[test]
fn tests_test_proof_verification() {
    let n = 3;
    let t = 2;

    let mut dkg = DKGProtocol::new(n, t).unwrap();
    for i in 1..=n {
        dkg.init_participant(i).unwrap();
    }

    for from in 1..=n {
        let shares = dkg.distribute_shares(from).unwrap();
        for (to, pair) in shares {
            dkg.receive_shares(to, from, pair).unwrap();
        }
    }

    let (mpk, master_shares) = dkg.finalize().unwrap();

    let group_id = GroupIdentity {
        id: "test_group".to_string(),
        threshold: 2,
        members: 3,
    };

    let private_shares = distributed_keygen(&master_shares, &group_id, t).unwrap();

    let message = b"Test";
    let ciphertext = DIBTDEncryption::encrypt(message, &group_id.id, &mpk).unwrap();

    let private_share = &private_shares[0];
    let dec_share = DIBTDEncryption::share_decrypt(&ciphertext, private_share).unwrap();

    let proof = ZKProof::prove_share(private_share, &dec_share, "test_context").unwrap();

    assert!(ZKProof::verify_share(
        &proof,
        &private_share.verification_key,
        "test_context",
    ));

    assert!(!ZKProof::verify_share(
        &proof,
        &private_share.verification_key,
        "wrong_context",
    ));
}

#[test]
fn tests_test_threshold_consistency() {
    let n = 5;
    let t = 3;

    let mut dkg = DKGProtocol::new(n, t).unwrap();
    for i in 1..=n {
        dkg.init_participant(i).unwrap();
    }

    for from in 1..=n {
        let shares = dkg.distribute_shares(from).unwrap();
        for (to, pair) in shares {
            dkg.receive_shares(to, from, pair).unwrap();
        }
    }

    let (mpk, master_shares) = dkg.finalize().unwrap();

    let group_id = GroupIdentity {
        id: "test_group".to_string(),
        threshold: 3,
        members: 5,
    };

    let private_shares = distributed_keygen(&master_shares, &group_id, t).unwrap();

    let is_consistent = ThresholdOperations::verify_threshold_consistency(
        &private_shares,
        &mpk,
        &group_id.id,
        group_id.threshold,
    )
    .unwrap();

    assert!(is_consistent);
}
