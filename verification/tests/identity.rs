use ongrow_server::attestation::{
    hash_ongrow_device_uuid, issue_ongrow_device_attestation, message_attests,
    ongrow_device_attestation_payload, verify_ongrow_device_attestation,
};
use ongrow_server::identity::{
    is_valid_ongrow_custom_id, message_asks_for_change, message_asks_for_change_v2, message_is,
    ongrow_custom_id_proof_payload, ongrow_custom_id_proof_payload_v2,
    verify_ongrow_custom_id_proof, verify_ongrow_custom_id_proof_v2,
    ONGROW_ATTESTATION_NONCE_BYTES,
};
use ongrow_server::wire::{append_ongrow_field, time_to_bytes};
use sodiumoxide::crypto::sign;

#[test]
fn accepts_only_ongrow_four_digit_ids() {
    assert!(is_valid_ongrow_custom_id("OG-0001"));
    assert!(is_valid_ongrow_custom_id("OG-9999"));
    assert!(!is_valid_ongrow_custom_id("og-0001"));
    assert!(!is_valid_ongrow_custom_id("OG-123"));
    assert!(!is_valid_ongrow_custom_id("OG-12345"));
    assert!(!is_valid_ongrow_custom_id("OG-12A4"));
}

#[test]
fn refuses_ids_outside_ascii() {
    assert!(!is_valid_ongrow_custom_id(""));
    assert!(!is_valid_ongrow_custom_id("OG-12\u{e4}"));
    assert!(!is_valid_ongrow_custom_id("OG-\u{0661}\u{0662}"));
    assert!(!is_valid_ongrow_custom_id("OG\u{2013}1234"));
    assert!(!is_valid_ongrow_custom_id("OG-1/:4"));
}

#[test]
fn verifies_proof_for_exact_change_only() {
    sodiumoxide::init().unwrap();
    let (public_key, secret_key) = sign::gen_keypair();
    let uuid = b"test-machine-uuid";
    let proof = sign::sign(
        &ongrow_custom_id_proof_payload("123456789", "OG-0001", uuid),
        &secret_key,
    );

    assert!(verify_ongrow_custom_id_proof(
        "123456789",
        "OG-0001",
        uuid,
        &proof,
        &public_key.0,
    ));
    assert!(!verify_ongrow_custom_id_proof(
        "123456789",
        "OG-0002",
        uuid,
        &proof,
        &public_key.0,
    ));
    assert!(!verify_ongrow_custom_id_proof(
        "987654321",
        "OG-0001",
        uuid,
        &proof,
        &public_key.0,
    ));
}

#[test]
fn refuses_proof_of_other_key_or_length() {
    sodiumoxide::init().unwrap();
    let (public_key, secret_key) = sign::keypair_from_seed(&sign::Seed([7; 32]));
    let (other_key, _) = sign::keypair_from_seed(&sign::Seed([8; 32]));
    let uuid = b"test-machine-uuid";
    let proof = sign::sign(
        &ongrow_custom_id_proof_payload("123456789", "OG-0001", uuid),
        &secret_key,
    );
    let check = |proof: &[u8], key: &[u8]| {
        verify_ongrow_custom_id_proof("123456789", "OG-0001", uuid, proof, key)
    };
    assert!(check(&proof, &public_key.0));
    assert!(!check(&proof, &other_key.0));
    assert!(!check(&proof, &public_key.0[..31]));
    assert!(!check(&proof[..63], &public_key.0));
    assert!(!check(&[], &public_key.0));
    for i in 0..proof.len() {
        let mut changed = proof.clone();
        changed[i] ^= 0x20;
        assert!(!check(&changed, &public_key.0));
    }
}

#[test]
fn verifies_nonce_bound_v2_proof() {
    sodiumoxide::init().unwrap();
    let (public_key, secret_key) = sign::keypair_from_seed(&sign::Seed([7; 32]));
    let uuid = b"test-machine-uuid";
    let nonce = [9; ONGROW_ATTESTATION_NONCE_BYTES];
    let payload = ongrow_custom_id_proof_payload_v2("OG-0001", "OG-0001", uuid, &nonce).unwrap();
    let proof = sign::sign(&payload, &secret_key);

    assert!(verify_ongrow_custom_id_proof_v2(
        "OG-0001",
        "OG-0001",
        uuid,
        &nonce,
        &proof,
        &public_key.0,
    ));
    let mut changed_nonce = nonce;
    changed_nonce[0] ^= 1;
    assert!(!verify_ongrow_custom_id_proof_v2(
        "OG-0001",
        "OG-0001",
        uuid,
        &changed_nonce,
        &proof,
        &public_key.0,
    ));
    assert!(!verify_ongrow_custom_id_proof_v2(
        "OG-0001",
        "OG-0002",
        uuid,
        &nonce,
        &proof,
        &public_key.0,
    ));
    assert!(!verify_ongrow_custom_id_proof_v2(
        "OG-0001",
        "OG-0001",
        b"different-machine-uuid",
        &nonce,
        &proof,
        &public_key.0,
    ));
    let (different_public_key, _) = sign::keypair_from_seed(&sign::Seed([8; 32]));
    assert!(!verify_ongrow_custom_id_proof_v2(
        "OG-0001",
        "OG-0001",
        uuid,
        &nonce,
        &proof,
        &different_public_key.0,
    ));
    assert!(!verify_ongrow_custom_id_proof_v2(
        "OG-0001",
        "OG-0001",
        uuid,
        &nonce[..31],
        &proof,
        &public_key.0,
    ));
}

#[test]
fn forms_of_proof_are_not_exchanged() {
    sodiumoxide::init().unwrap();
    let (public_key, secret_key) = sign::keypair_from_seed(&sign::Seed([7; 32]));
    let uuid = b"uuid";
    let nonce = [9; ONGROW_ATTESTATION_NONCE_BYTES];
    let v1 = sign::sign(
        &ongrow_custom_id_proof_payload("OG-0001", "OG-0002", uuid),
        &secret_key,
    );
    let v2 = sign::sign(
        &ongrow_custom_id_proof_payload_v2("OG-0001", "OG-0002", uuid, &nonce).unwrap(),
        &secret_key,
    );
    assert!(!verify_ongrow_custom_id_proof_v2(
        "OG-0001", "OG-0002", uuid, &nonce, &v1, &public_key.0,
    ));
    assert!(!verify_ongrow_custom_id_proof(
        "OG-0001", "OG-0002", uuid, &v2, &public_key.0,
    ));
    let attestation = issue_ongrow_device_attestation(
        "OG-0001", &public_key.0, uuid, &nonce, 0, &secret_key.0,
    )
    .unwrap();
    assert!(!verify_ongrow_custom_id_proof(
        "OG-0001", "OG-0002", uuid, &attestation.signed_payload, &public_key.0,
    ));
    assert!(!verify_ongrow_custom_id_proof_v2(
        "OG-0001", "OG-0002", uuid, &nonce, &attestation.signed_payload, &public_key.0,
    ));
    let mut forged = attestation.clone();
    forged.signed_payload = v2;
    assert!(!verify_ongrow_device_attestation(&forged, &public_key.0));
}

#[test]
fn payload_of_first_form() {
    let payload = ongrow_custom_id_proof_payload("ab", "c", &[1, 2, 3]);
    let mut expected = b"ongrow-rustdesk-custom-id-v1".to_vec();
    expected.extend_from_slice(&[0, 0, 0, 2, b'a', b'b']);
    expected.extend_from_slice(&[0, 0, 0, 1, b'c']);
    expected.extend_from_slice(&[0, 0, 0, 3, 1, 2, 3]);
    assert_eq!(payload, expected);
}

#[test]
fn payload_of_second_form() {
    let nonce = [5; 32];
    let payload = ongrow_custom_id_proof_payload_v2("", "\u{e4}", &[], &nonce).unwrap();
    let mut expected = b"ongrow-rustdesk-custom-id-v2".to_vec();
    expected.extend_from_slice(&[0, 0, 0, 0]);
    expected.extend_from_slice(&[0, 0, 0, 2, 0xc3, 0xa4]);
    expected.extend_from_slice(&[0, 0, 0, 0]);
    expected.extend_from_slice(&[0, 0, 0, 32]);
    expected.extend_from_slice(&nonce);
    assert_eq!(payload, expected);
    assert!(ongrow_custom_id_proof_payload_v2("", "", &[], &[5; 31]).is_none());
    assert!(ongrow_custom_id_proof_payload_v2("", "", &[], &[5; 33]).is_none());
}

#[test]
fn fields_that_run_together_are_told_apart() {
    assert_ne!(
        ongrow_custom_id_proof_payload("ab", "c", b"d"),
        ongrow_custom_id_proof_payload("a", "bc", b"d")
    );
    assert_ne!(
        ongrow_custom_id_proof_payload("a", "b", b"cd"),
        ongrow_custom_id_proof_payload("a", "bc", b"d")
    );
}

#[test]
fn field_has_length_in_front() {
    let mut payload = vec![0xff];
    append_ongrow_field(&mut payload, &[7; 0x1_0203]);
    assert_eq!(payload[..5], [0xff, 0, 1, 2, 3]);
    assert_eq!(payload.len(), 5 + 0x1_0203);
}

#[test]
fn times_are_big_endian() {
    assert_eq!(time_to_bytes(0), vec![0; 8]);
    assert_eq!(time_to_bytes(0x0102_0304_0506_0708), vec![1, 2, 3, 4, 5, 6, 7, 8]);
    for time in [-1, -2, i64::MIN, i64::MAX, 1_722_345_600, -1_722_345_600] {
        assert_eq!(time_to_bytes(time), time.to_be_bytes().to_vec());
    }
}

#[test]
fn messages_are_compared() {
    assert!(message_is(&Some(vec![1, 2]), &[1, 2]));
    assert!(!message_is(&Some(vec![1, 2]), &[1, 3]));
    assert!(!message_is(&Some(vec![1, 2]), &[1]));
    assert!(!message_is(&None, &[]));
    assert!(message_is(&Some(vec![]), &[]));

    let message = Some(ongrow_custom_id_proof_payload("1", "OG-0001", b"u"));
    assert!(message_asks_for_change(&message, "1", "OG-0001", b"u"));
    assert!(!message_asks_for_change(&message, "2", "OG-0001", b"u"));
    assert!(!message_asks_for_change(&None, "1", "OG-0001", b"u"));

    let nonce = [3; 32];
    let message = ongrow_custom_id_proof_payload_v2("1", "OG-0001", b"u", &nonce);
    assert!(message_asks_for_change_v2(&message, "1", "OG-0001", b"u", &nonce));
    assert!(!message_asks_for_change_v2(&message, "1", "OG-0001", b"v", &nonce));
    assert!(!message_asks_for_change_v2(&None, "1", "OG-0001", b"u", &nonce[..2]));
}

#[test]
fn issues_and_verifies_short_lived_device_attestation() {
    sodiumoxide::init().unwrap();
    let (server_public_key, server_secret_key) = sign::keypair_from_seed(&sign::Seed([11; 32]));
    let (device_public_key, _) = sign::keypair_from_seed(&sign::Seed([7; 32]));
    let uuid = b"raw-test-machine-uuid";
    let nonce = [9; ONGROW_ATTESTATION_NONCE_BYTES];
    let attestation = issue_ongrow_device_attestation(
        "OG-0001",
        &device_public_key.0,
        uuid,
        &nonce,
        1_722_345_600,
        &server_secret_key.0,
    )
    .unwrap();

    assert_eq!(attestation.expires_at - attestation.issued_at, 300);
    assert_eq!(attestation.uuid_sha256, hash_ongrow_device_uuid(uuid));
    assert_ne!(attestation.uuid_sha256.as_slice(), uuid.as_slice());
    assert!(verify_ongrow_device_attestation(
        &attestation,
        &server_public_key.0,
    ));

    let mut changed = attestation.clone();
    changed.id = "OG-0002".to_owned();
    assert!(!verify_ongrow_device_attestation(
        &changed,
        &server_public_key.0,
    ));
}

#[test]
fn refuses_changed_attestations() {
    sodiumoxide::init().unwrap();
    let (public_key, secret_key) = sign::keypair_from_seed(&sign::Seed([11; 32]));
    let nonce = [9; ONGROW_ATTESTATION_NONCE_BYTES];
    let attestation =
        issue_ongrow_device_attestation("OG-0001", &[1; 32], b"uuid", &nonce, -5, &secret_key.0)
            .unwrap();
    assert_eq!(attestation.id, "OG-0001");
    assert_eq!(attestation.device_pk, vec![1; 32]);
    assert_eq!(attestation.nonce, nonce.to_vec());
    assert_eq!((attestation.issued_at, attestation.expires_at), (-5, 295));
    assert!(verify_ongrow_device_attestation(&attestation, &public_key.0));
    assert!(!verify_ongrow_device_attestation(&attestation, &public_key.0[1..]));
    assert!(!verify_ongrow_device_attestation(&attestation, &[2; 32]));

    let mut changed = attestation.clone();
    changed.device_pk[0] ^= 1;
    assert!(!verify_ongrow_device_attestation(&changed, &public_key.0));
    let mut changed = attestation.clone();
    changed.uuid_sha256[31] ^= 1;
    assert!(!verify_ongrow_device_attestation(&changed, &public_key.0));
    let mut changed = attestation.clone();
    changed.nonce[5] ^= 1;
    assert!(!verify_ongrow_device_attestation(&changed, &public_key.0));
    let mut changed = attestation.clone();
    changed.issued_at += 1;
    changed.expires_at += 1;
    assert!(!verify_ongrow_device_attestation(&changed, &public_key.0));
    let mut changed = attestation.clone();
    changed.issued_at = i64::MIN;
    changed.expires_at = i64::MAX;
    assert!(!verify_ongrow_device_attestation(&changed, &public_key.0));
    let mut changed = attestation.clone();
    changed.expires_at += 1;
    assert!(!verify_ongrow_device_attestation(&changed, &public_key.0));
}

#[test]
fn attestation_with_longer_validity_is_refused_though_signed() {
    sodiumoxide::init().unwrap();
    let (public_key, secret_key) = sign::keypair_from_seed(&sign::Seed([11; 32]));
    let nonce = [9; ONGROW_ATTESTATION_NONCE_BYTES];
    let mut attestation =
        issue_ongrow_device_attestation("OG-0001", &[1; 32], b"uuid", &nonce, 0, &secret_key.0)
            .unwrap();
    attestation.expires_at = 301;
    let payload = ongrow_device_attestation_payload(
        "OG-0001",
        &attestation.device_pk,
        &attestation.uuid_sha256,
        0,
        301,
        &nonce,
    );
    attestation.signed_payload = sign::sign(payload.as_ref().unwrap(), &secret_key);
    assert!(!verify_ongrow_device_attestation(&attestation, &public_key.0));
    assert!(!message_attests(&payload, &attestation));
}

#[test]
fn opened_message_attests() {
    sodiumoxide::init().unwrap();
    let (_, secret_key) = sign::keypair_from_seed(&sign::Seed([11; 32]));
    let nonce = [9; ONGROW_ATTESTATION_NONCE_BYTES];
    let attestation =
        issue_ongrow_device_attestation("OG-0001", &[1; 32], b"uuid", &nonce, 7, &secret_key.0)
            .unwrap();
    let payload = ongrow_device_attestation_payload(
        "OG-0001",
        &[1; 32],
        &hash_ongrow_device_uuid(b"uuid"),
        7,
        307,
        &nonce,
    );
    assert!(message_attests(&payload, &attestation));
    assert!(!message_attests(&None, &attestation));
    assert!(!message_attests(&Some(vec![]), &attestation));
    assert_eq!(
        attestation.signed_payload,
        sign::sign(&payload.unwrap(), &secret_key)
    );
}

#[test]
fn issues_nothing_for_parts_of_the_wrong_form() {
    sodiumoxide::init().unwrap();
    let (_, secret_key) = sign::keypair_from_seed(&sign::Seed([11; 32]));
    let issue = |id: &str, pk: &[u8], nonce: &[u8], time: i64| {
        issue_ongrow_device_attestation(id, pk, b"uuid", nonce, time, &secret_key.0).is_some()
    };
    assert!(issue("OG-0001", &[1; 32], &[2; 32], 0));
    assert!(!issue("123456789", &[1; 32], &[2; 32], 0));
    assert!(!issue("OG-0001", &[1; 31], &[2; 32], 0));
    assert!(!issue("OG-0001", &[1; 32], &[2; 33], 0));
    assert!(!issue("OG-0001", &[1; 32], &[2; 32], i64::MAX - 299));
    assert!(issue("OG-0001", &[1; 32], &[2; 32], i64::MAX - 300));
    assert!(issue("OG-0001", &[1; 32], &[2; 32], i64::MIN));
    assert!(
        ongrow_device_attestation_payload("OG-0001", &[1; 32], &[3; 31], 0, 0, &[2; 32]).is_none()
    );
}

#[test]
fn attestation_payload_matches_cross_fork_test_vector() {
    let device_pk: Vec<u8> = (0..32).collect();
    let uuid_sha256 = hash_ongrow_device_uuid(b"raw-test-machine-uuid");
    let payload = ongrow_device_attestation_payload(
        "OG-0001",
        &device_pk,
        &uuid_sha256,
        1_722_345_600,
        1_722_345_900,
        &[9; ONGROW_ATTESTATION_NONCE_BYTES],
    )
    .unwrap();
    let actual: String = payload.iter().map(|byte| format!("{byte:02x}")).collect();

    assert_eq!(
        actual,
        "6f6e67726f772d727573746465736b2d6465766963652d6174746573746174696f6e2d7631000000074f472d3030303100000020000102030405060708090a0b0c0d0e0f101112131415161718191a1b1c1d1e1f00000020c0d751187c93edea0572d744031fe1cf82b9a18fd8c9bd414bcdd0c1ea266116000000080000000066a8e880000000080000000066a8e9ac000000200909090909090909090909090909090909090909090909090909090909090909"
    );
}

#[test]
fn digest_is_sha256() {
    let digest = hash_ongrow_device_uuid(b"abc");
    let actual: String = digest.iter().map(|byte| format!("{byte:02x}")).collect();
    assert_eq!(
        actual,
        "ba7816bf8f01cfea414140de5dae2223b00361a396177a9cb410ff61f20015ad"
    );
}
