use vstd::prelude::*;

verus! {

/// Possible key agreement algorithms.
#[derive(Copy, Clone, PartialEq, Eq, Structural, Debug)]
pub enum KeyAgreement {
    EcdhP256,
    EcdhP384,
}

/// Errors of the key-agreement primitive. No key or secret material ever
/// accompanies an error.
#[derive(Copy, Clone, PartialEq, Eq, Structural, Debug)]
pub enum KeyAgreementError {
    /// The random source or the curve operation failed while producing an
    /// ephemeral key pair.
    KeyGenerationFailed,
    /// The peer's public key was malformed for the curve, or the agreement
    /// computation failed.
    SecretDerivationFailed,
}

/// The length in bytes of an encoded public key for each curve: one format
/// byte and two coordinates.
pub open spec fn spec_public_key_len(algorithm: KeyAgreement) -> nat {
    match algorithm {
        KeyAgreement::EcdhP256 => 65,
        KeyAgreement::EcdhP384 => 97,
    }
}

/// The length in bytes of a derived shared secret for each curve: one field
/// element.
pub open spec fn spec_secret_len(algorithm: KeyAgreement) -> nat {
    match algorithm {
        KeyAgreement::EcdhP256 => 32,
        KeyAgreement::EcdhP384 => 48,
    }
}

#[verifier::external_type_specification]
#[verifier::external_body]
pub struct ExEphemeralPrivateKey(ring::agreement::EphemeralPrivateKey);

#[verifier::external_type_specification]
#[verifier::external_body]
pub struct ExSystemRandom(ring::rand::SystemRandom);

/// An ephemeral private key, generated for one key agreement and consumed by
/// it. The key itself is opaque; the algorithm it was generated for is kept
/// beside it so that a mismatched agreement attempt can be rejected up front.
pub struct EphemeralKey {
    key: ring::agreement::EphemeralPrivateKey,
    algorithm: KeyAgreement,
}

impl EphemeralKey {
    /// The curve this key was generated for.
    pub closed spec fn spec_algorithm(&self) -> KeyAgreement {
        self.algorithm
    }

    /// The curve this key was generated for.
    pub fn algorithm(&self) -> (a: KeyAgreement)
        ensures
            a == self.spec_algorithm(),
    {
        self.algorithm
    }
}

/// Relies on ring::rand::SystemRandom::new: a handle on the system's secure
/// random source.
#[verifier::external_body]
fn fresh_system_random() -> (rng: ring::rand::SystemRandom)
{
    ring::rand::SystemRandom::new()
}

/// Relies on ring::agreement::EphemeralPrivateKey::generate: it draws a
/// private key for the requested curve from the given secure random source,
/// or fails. Nothing is promised of the random result.
#[verifier::external_body]
fn ring_generate_private_key(algorithm: KeyAgreement, rng: &ring::rand::SystemRandom) -> (r: Result<
    ring::agreement::EphemeralPrivateKey,
    (),
>)
{
    let alg: &'static ring::agreement::Algorithm = match algorithm {
        KeyAgreement::EcdhP256 => &ring::agreement::ECDH_P256,
        KeyAgreement::EcdhP384 => &ring::agreement::ECDH_P384,
    };
    ring::agreement::EphemeralPrivateKey::generate(alg, rng).map_err(|_| ())
}

/// Relies on ring::agreement::EphemeralPrivateKey::compute_public_key: it
/// returns the public key of the given private key in the curve's encoded
/// form, or fails. The length of the encoding is checked by the caller, not
/// promised here.
#[verifier::external_body]
fn ring_compute_public_key(key: &ring::agreement::EphemeralPrivateKey) -> (r: Result<Vec<u8>, ()>)
{
    key.compute_public_key().map(|p| p.as_ref().to_vec()).map_err(|_| ())
}

/// Whether the bytes are a valid encoded public key of the curve: the form
/// the curve's standard encoding prescribes, naming a point that is actually
/// on the curve. A function of the bytes and the curve alone.
pub uninterp spec fn spec_valid_public_key(algorithm: KeyAgreement, bytes: Seq<u8>) -> bool;

/// Relies on ring::agreement::agree_ephemeral: it consumes the private key,
/// checks the peer's bytes as an encoded public point of the named curve, and
/// on success hands the raw shared key material, one field element of that
/// curve, to the closure. It fails exactly when the peer key's declared curve
/// differs from the private key's or the peer bytes are not a valid encoded
/// public point of that curve; so with matching curves, success depends on
/// the peer bytes alone, here named `spec_valid_public_key`.
#[verifier::external_body]
fn ring_agree(
    algorithm: KeyAgreement,
    my_private_key: EphemeralKey,
    other_public_key: &[u8],
) -> (r: Result<Vec<u8>, ()>)
    ensures
        my_private_key.spec_algorithm() == algorithm ==> (r is Ok <==> spec_valid_public_key(
            algorithm,
            other_public_key@,
        )),
        my_private_key.spec_algorithm() != algorithm ==> r is Err,
        r is Ok ==> r.unwrap()@.len() == spec_secret_len(algorithm),
{
    let alg: &'static ring::agreement::Algorithm = match algorithm {
        KeyAgreement::EcdhP256 => &ring::agreement::ECDH_P256,
        KeyAgreement::EcdhP384 => &ring::agreement::ECDH_P384,
    };
    let peer = ring::agreement::UnparsedPublicKey::new(alg, other_public_key);
    ring::agreement::agree_ephemeral(my_private_key.key, &peer, |material| material.to_vec())
        .map_err(|_| ())
}

/// Generates a new ephemeral key pair as part of the exchange.
///
/// Returns the opaque private key and the corresponding public key bytes in
/// the curve's encoded form. The only error is `KeyGenerationFailed`.
pub fn generate_agreement(algorithm: KeyAgreement) -> (r: Result<
    (EphemeralKey, Vec<u8>),
    KeyAgreementError,
>)
    ensures
        r matches Ok((key, public_key)) ==> key.spec_algorithm() == algorithm && public_key@.len()
            == spec_public_key_len(algorithm),
        r is Err ==> r == Err::<(EphemeralKey, Vec<u8>), KeyAgreementError>(
            KeyAgreementError::KeyGenerationFailed,
        ),
{
    let expected_len: usize = match algorithm {
        KeyAgreement::EcdhP256 => 65,
        KeyAgreement::EcdhP384 => 97,
    };
    let rng = fresh_system_random();
    match ring_generate_private_key(algorithm, &rng) {
        Ok(key) => {
            match ring_compute_public_key(&key) {
                Ok(public_key) => {
                    if public_key.len() == expected_len {
                        Ok((EphemeralKey { key, algorithm }, public_key))
                    } else {
                        Err(KeyAgreementError::KeyGenerationFailed)
                    }
                },
                Err(_) => Err(KeyAgreementError::KeyGenerationFailed),
            }
        },
        Err(_) => Err(KeyAgreementError::KeyGenerationFailed),
    }
}

/// Finish the agreement. On success, returns the shared key material that
/// both parties agree upon: one field element of the curve, never empty and
/// never truncated.
///
/// The private key is consumed, so it can serve in at most one agreement. It
/// succeeds exactly when the key was generated for `algorithm` and the peer's
/// bytes are a valid encoded public key of that curve. The only error is
/// `SecretDerivationFailed`. The requested output size is not used: the
/// secret is always the curve's full field element.
pub fn agree(
    algorithm: KeyAgreement,
    my_private_key: EphemeralKey,
    other_public_key: &[u8],
    _out_size: usize,
) -> (r: Result<Vec<u8>, KeyAgreementError>)
    ensures
        r is Ok <==> my_private_key.spec_algorithm() == algorithm && spec_valid_public_key(
            algorithm,
            other_public_key@,
        ),
        r matches Ok(secret) ==> secret@.len() == spec_secret_len(algorithm) && secret@.len() > 0,
        r is Err ==> r == Err::<Vec<u8>, KeyAgreementError>(
            KeyAgreementError::SecretDerivationFailed,
        ),
{
    let matching = match (my_private_key.algorithm(), algorithm) {
        (KeyAgreement::EcdhP256, KeyAgreement::EcdhP256) => true,
        (KeyAgreement::EcdhP384, KeyAgreement::EcdhP384) => true,
        _ => false,
    };
    if !matching {
        return Err(KeyAgreementError::SecretDerivationFailed);
    }
    match ring_agree(algorithm, my_private_key, other_public_key) {
        Ok(secret) => Ok(secret),
        Err(_) => Err(KeyAgreementError::SecretDerivationFailed),
    }
}

} // verus!
