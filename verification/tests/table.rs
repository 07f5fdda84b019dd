//! Table key and value encryption.

use kappa_store::crypto::aead_backend::AesGcmKey;
use kappa_store::encrypted::{EncryptionError, TableEncryptor};

#[test]
fn roundtrip() {
    let enc = TableEncryptor::new(&[0x42u8; 32]).unwrap();
    let key = "test-ns\x00latest";
    let value = b"sha256:aabbccdd\x001";
    let encrypted = enc.encrypt_value(key, value).unwrap();
    assert_ne!(&encrypted[16..], value); // ciphertext differs from plaintext
    let decrypted = enc.decrypt_value(key, &encrypted).unwrap();
    assert_eq!(decrypted, value);
}

#[test]
fn wrong_key_fails() {
    let enc = TableEncryptor::new(&[0x42u8; 32]).unwrap();
    let encrypted = enc.encrypt_value("key-a", b"data").unwrap();
    assert!(enc.decrypt_value("key-b", &encrypted).is_err());
}

#[test]
fn wrong_namespace_key_fails() {
    let enc_a = TableEncryptor::new(&[0x42u8; 32]).unwrap();
    let enc_b = TableEncryptor::new(&[0x43u8; 32]).unwrap();
    let encrypted = enc_a.encrypt_value("same-key", b"data").unwrap();
    assert!(enc_b.decrypt_value("same-key", &encrypted).is_err());
}

#[test]
fn tampered_ciphertext_fails() {
    let enc = TableEncryptor::new(&[0x42u8; 32]).unwrap();
    let mut encrypted = enc.encrypt_value("key", b"data").unwrap();
    encrypted[16] ^= 0xFF; // tamper the ciphertext (first byte after tag)
    assert!(enc.decrypt_value("key", &encrypted).is_err());
}

#[test]
fn tampered_tag_fails() {
    let enc = TableEncryptor::new(&[0x42u8; 32]).unwrap();
    let mut encrypted = enc.encrypt_value("key", b"data").unwrap();
    encrypted[0] ^= 0xFF; // tamper the tag
    assert!(enc.decrypt_value("key", &encrypted).is_err());
}

#[test]
fn hmac_key_deterministic() {
    let enc = TableEncryptor::new(&[0x42u8; 32]).unwrap();
    assert_eq!(enc.hmac_key("test"), enc.hmac_key("test"));
}

#[test]
fn hmac_key_differs_for_different_inputs() {
    let enc = TableEncryptor::new(&[0x42u8; 32]).unwrap();
    assert_ne!(enc.hmac_key("a"), enc.hmac_key("b"));
}

#[test]
fn empty_value_roundtrip() {
    let enc = TableEncryptor::new(&[0x42u8; 32]).unwrap();
    let encrypted = enc.encrypt_value("key", b"").unwrap();
    assert_eq!(encrypted.len(), 16); // tag only, no ciphertext
    let decrypted = enc.decrypt_value("key", &encrypted).unwrap();
    assert!(decrypted.is_empty());
}

#[test]
fn truncated_value_rejected() {
    let enc = TableEncryptor::new(&[0x42u8; 32]).unwrap();
    assert!(enc.decrypt_value("key", &[0u8; 10]).is_err());
    assert_eq!(enc.decrypt_value("key", &[0u8; 15]), Err(EncryptionError::TruncatedValue));
    assert_eq!(enc.decrypt_value("key", &[0u8; 16]), Err(EncryptionError::AuthFailed));
}

#[test]
fn stored_key_is_the_keyed_hash_in_hexadecimal() {
    let enc = TableEncryptor::new(&[0x42u8; 32]).unwrap();
    let hash = blake3::keyed_hash(&[0x42u8; 32], b"tag");
    assert_eq!(enc.hmac_key("tag"), hash.to_hex().to_string());
    assert_eq!(enc.hmac_key("").len(), 64);
}

#[test]
fn sealing_is_deterministic_and_bound_to_the_key() {
    let enc = TableEncryptor::new(&[0x42u8; 32]).unwrap();
    let a = enc.encrypt_value("key", b"data").unwrap();
    assert_eq!(a, enc.encrypt_value("key", b"data").unwrap());
    assert_ne!(a, enc.encrypt_value("yek", b"data").unwrap());
}

#[test]
fn value_nonce_comes_from_the_key() {
    let enc = TableEncryptor::new(&[0x42u8; 32]).unwrap();
    let stored = enc.encrypt_value("key", b"data").unwrap();
    let hash = blake3::keyed_hash(&[0x42u8; 32], b"key");
    let aes = AesGcmKey::new(&[0x42u8; 32]).unwrap();
    let mut value = [0u8; 4];
    let nonce = &hash.as_bytes()[..12];
    aes.open_detached(nonce, b"key", &stored[16..], &stored[..16], &mut value).unwrap();
    assert_eq!(&value, b"data");
}

#[test]
fn encryption_error_messages() {
    assert_eq!(EncryptionError::KeyInit.message(), "AEAD key initialization failed");
    assert_eq!(EncryptionError::SealFailed.message(), "AEAD seal failed");
    assert_eq!(EncryptionError::AuthFailed.message(), "AEAD authentication failed");
    assert_eq!(EncryptionError::TruncatedValue.message(), "stored value too short for tag");
}

#[test]
fn a_value_with_an_altered_tag_is_refused() {
    let enc = TableEncryptor::new(&[0x42u8; 32]).unwrap();
    let stored = enc.encrypt_value("key", b"data").unwrap();
    for at in 0..16 {
        let mut altered = stored.clone();
        altered[at] ^= 0x80;
        assert_eq!(enc.decrypt_value("key", &altered), Err(EncryptionError::AuthFailed));
    }
}
