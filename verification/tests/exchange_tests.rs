use p2p_liveness::exchange::{agree, generate_agreement, KeyAgreement, KeyAgreementError};

#[test]
fn key_agreement_round_trip_p256() {
    round_trip(KeyAgreement::EcdhP256, 65, 32);
}

#[test]
fn key_agreement_round_trip_p384() {
    round_trip(KeyAgreement::EcdhP384, 97, 48);
}

fn round_trip(algorithm: KeyAgreement, public_key_len: usize, secret_len: usize) {
    let (key_a, public_a) = generate_agreement(algorithm).expect("key generation");
    let (key_b, public_b) = generate_agreement(algorithm).expect("key generation");
    assert_eq!(key_a.algorithm(), algorithm);
    assert_eq!(public_a.len(), public_key_len);
    assert_eq!(public_b.len(), public_key_len);
    // two independently generated pairs agree on the same secret either way
    let secret_ab = agree(algorithm, key_a, &public_b, secret_len).expect("agreement");
    let secret_ba = agree(algorithm, key_b, &public_a, secret_len).expect("agreement");
    assert_eq!(secret_ab, secret_ba);
    assert!(!secret_ab.is_empty());
    assert_eq!(secret_ab.len(), secret_len);
}

#[test]
fn fresh_pairs_differ() {
    let (_, public_1) = generate_agreement(KeyAgreement::EcdhP256).expect("key generation");
    let (_, public_2) = generate_agreement(KeyAgreement::EcdhP256).expect("key generation");
    assert_ne!(public_1, public_2);
}

#[test]
fn malformed_peer_key_fails_derivation() {
    let (key, _) = generate_agreement(KeyAgreement::EcdhP256).expect("key generation");
    let garbage = vec![0u8; 65];
    assert_eq!(agree(KeyAgreement::EcdhP256, key, &garbage, 32), Err(KeyAgreementError::SecretDerivationFailed));
}

#[test]
fn truncated_peer_key_fails_derivation() {
    let (key, public_key) = generate_agreement(KeyAgreement::EcdhP384).expect("key generation");
    assert_eq!(
        agree(KeyAgreement::EcdhP384, key, &public_key[..40], 48),
        Err(KeyAgreementError::SecretDerivationFailed)
    );
}

#[test]
fn mismatched_curve_fails_derivation() {
    let (key_256, _) = generate_agreement(KeyAgreement::EcdhP256).expect("key generation");
    let (_, public_384) = generate_agreement(KeyAgreement::EcdhP384).expect("key generation");
    assert_eq!(
        agree(KeyAgreement::EcdhP384, key_256, &public_384, 48),
        Err(KeyAgreementError::SecretDerivationFailed)
    );
}
