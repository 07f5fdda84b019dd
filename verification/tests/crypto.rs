//! Algorithm dispatch and the AEAD backends.

use kappa_store::crypto::aead_backend::{AeadError, AesGcmKey};
use kappa_store::crypto::disabled;
use kappa_store::crypto::{verifier_for, CryptoError, VerifierKind};

#[test]
fn verifier_dispatch_ed25519() {
    assert!(verifier_for("ed25519").is_ok());
    assert_eq!(verifier_for("ed25519").unwrap(), VerifierKind::Ed25519);
}

#[test]
fn verifier_dispatch_frost_ed25519() {
    assert!(verifier_for("frost-ed25519").is_ok());
    assert_eq!(verifier_for("frost-ed25519").unwrap(), VerifierKind::Ed25519);
}

#[test]
fn verifier_dispatch_p256() {
    assert!(verifier_for("p256").is_ok());
    assert_eq!(verifier_for("p256").unwrap(), VerifierKind::P256Ecdsa);
}

#[test]
fn verifier_dispatch_k256() {
    assert!(verifier_for("k256").is_ok());
    assert_eq!(verifier_for("k256").unwrap(), VerifierKind::K256Ecdsa);
}

#[test]
fn verifier_dispatch_frost_p256() {
    assert!(verifier_for("frost-p256").is_ok());
    assert_eq!(verifier_for("frost-p256").unwrap(), VerifierKind::P256Schnorr);
}

#[test]
fn verifier_dispatch_frost_secp256k1() {
    assert!(verifier_for("frost-secp256k1").is_ok());
    assert_eq!(verifier_for("frost-secp256k1").unwrap(), VerifierKind::K256Schnorr);
}

#[test]
fn verifier_dispatch_unknown_fails() {
    assert!(verifier_for("rsa-4096").is_err());
    let error = verifier_for("rsa-4096").unwrap_err();
    assert!(matches!(&error, CryptoError::UnsupportedAlgorithm(a) if a == "rsa-4096"));
    assert_eq!(error.message(), "unsupported algorithm: rsa-4096");
}

#[test]
fn error_messages() {
    let text = || "x".to_string();
    assert_eq!(CryptoError::InvalidKey.message(), "invalid key");
    assert_eq!(CryptoError::InvalidSignature.message(), "invalid signature");
    assert_eq!(CryptoError::SigningFailed(text()).message(), "signing failed: x");
    assert_eq!(CryptoError::Serialization(text()).message(), "serialization failed: x");
    assert_eq!(CryptoError::Deserialization(text()).message(), "deserialization failed: x");
    assert_eq!(CryptoError::KeyGeneration(text()).message(), "key generation failed: x");
    assert_eq!(CryptoError::IntegrityFailure(text()).message(), "integrity check failed: x");
    assert_eq!(CryptoError::Io(text()).message(), "io error: x");
}

#[test]
fn sealing_matches_published_vectors() {
    let key = AesGcmKey::new(&[0u8; 32]).unwrap();
    let nonce = [0u8; 12];
    let mut tag = [0u8; 16];
    key.seal_detached(&nonce, b"", b"", &mut [], &mut tag).unwrap();
    assert_eq!(hex::encode(tag), "530f8afbc74536b9a963b4f1c4cb738b");

    let mut ciphertext = [0u8; 16];
    key.seal_detached(&nonce, b"", &[0u8; 16], &mut ciphertext, &mut tag).unwrap();
    assert_eq!(hex::encode(ciphertext), "cea7403d4d606b6e074ec5d3baf39d18");
    assert_eq!(hex::encode(tag), "d0d1c8a799996bf0265b98b5d48ab919");

    let mut plaintext = [1u8; 16];
    key.open_detached(&nonce, b"", &ciphertext, &tag, &mut plaintext).unwrap();
    assert_eq!(plaintext, [0u8; 16]);
}

#[test]
fn refused_operations_leave_the_buffers_alone() {
    let key = AesGcmKey::new(&[7u8; 32]).unwrap();
    assert_eq!(key.nonce_len(), 12);
    let mut ciphertext = [3u8; 4];
    let mut tag = [4u8; 16];
    let short_nonce = key.seal_detached(&[0u8; 11], b"", b"data", &mut ciphertext, &mut tag);
    assert_eq!(short_nonce, Err(AeadError::InvalidLength));
    let long_out = key.seal_detached(&[0u8; 12], b"", b"dat", &mut ciphertext, &mut tag);
    assert_eq!(long_out, Err(AeadError::InvalidLength));
    assert_eq!(ciphertext, [3u8; 4]);
    assert_eq!(tag, [4u8; 16]);

    let mut plaintext = [9u8; 4];
    let forged = key.open_detached(&[0u8; 12], b"", &ciphertext, &tag, &mut plaintext);
    assert_eq!(forged, Err(AeadError::AuthFailed));
    let short_tag = key.open_detached(&[0u8; 12], b"", &ciphertext, &tag[..15], &mut plaintext);
    assert_eq!(short_tag, Err(AeadError::InvalidLength));
    assert_eq!(plaintext, [9u8; 4]);
    assert_eq!(AeadError::AuthFailed.message(), "authentication failed");
    assert_eq!(AeadError::InvalidLength.message(), "invalid length");
    assert_eq!(AeadError::TooLong.message(), "input too long");
}

#[test]
fn the_backend_without_a_cipher_makes_no_key() {
    let refused = disabled::AesGcmKey::new(&[0u8; 32]);
    assert!(matches!(refused, Err(disabled::Unavailable)));
    assert_eq!(
        disabled::Unavailable.message(),
        "encryption is not compiled in (feature `encryption` is off)"
    );
}
