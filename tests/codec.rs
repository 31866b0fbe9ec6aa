use base64::engine::general_purpose::STANDARD;
use base64::Engine;
use clienv::{decrypt, encrypt, encrypt_with_nonce, CipherError};

const KEY: &str = "0123456789abcdef0123456789abcdef";
const ZERO_KEY: &str = "\0\0\0\0\0\0\0\0\0\0\0\0\0\0\0\0\0\0\0\0\0\0\0\0\0\0\0\0\0\0\0\0";

#[test]
fn test_encrypt_decrypt() {
    // This key is 34 bytes long: a key of any length but 32 is refused.
    let key = "test_encryption_key_32_bytes_long!";
    let plaintext = "secret value";

    let encrypted = encrypt(plaintext, key);
    assert_eq!(encrypted, Err(CipherError::KeyLength));
    assert_eq!(decrypt("AAAA:AAAA", key), Err(CipherError::KeyLength));
}

#[test]
fn encrypt_decrypt_round_trip() {
    let plaintext = "secret value";
    let encrypted = encrypt(plaintext, KEY).unwrap();
    assert_ne!(encrypted, plaintext);
    let decrypted = decrypt(&encrypted, KEY).unwrap();
    assert_eq!(decrypted, plaintext);
}

#[test]
fn round_trip_of_empty_and_unicode_text() {
    for p in ["", "a", "héllo wörld ✓", "with:colons:inside", "line\nbreak"] {
        let e = encrypt(p, KEY).unwrap();
        assert_ne!(e, p);
        assert_eq!(decrypt(&e, KEY).unwrap(), p);
    }
}

#[test]
fn two_encryptions_differ_and_both_open() {
    let a = encrypt("same text", KEY).unwrap();
    let b = encrypt("same text", KEY).unwrap();
    assert_ne!(a, b);
    assert_ne!(a.split(':').next(), b.split(':').next());
    assert_eq!(decrypt(&a, KEY).unwrap(), "same text");
    assert_eq!(decrypt(&b, KEY).unwrap(), "same text");
}

#[test]
fn known_vector_empty_plaintext() {
    let nonce = [0u8; 12];
    let e = encrypt_with_nonce("", ZERO_KEY, &nonce).unwrap();
    assert_eq!(e, "AAAAAAAAAAAAAAAA:Uw+K+8dFNrmpY7TxxMtziw==");
    assert_eq!(decrypt(&e, ZERO_KEY).unwrap(), "");
}

#[test]
fn known_vector_one_block() {
    let nonce = [0u8; 12];
    let plaintext = "\0\0\0\0\0\0\0\0\0\0\0\0\0\0\0\0";
    let e = encrypt_with_nonce(plaintext, ZERO_KEY, &nonce).unwrap();
    assert_eq!(e, "AAAAAAAAAAAAAAAA:zqdAPU1ga24HTsXTuvOdGNDRyKeZmWvwJluYtdSKuRk=");
    assert_eq!(decrypt(&e, ZERO_KEY).unwrap(), plaintext);
}

#[test]
fn encrypt_with_nonce_is_deterministic() {
    let nonce = [7u8; 12];
    let a = encrypt_with_nonce("value", KEY, &nonce).unwrap();
    let b = encrypt_with_nonce("value", KEY, &nonce).unwrap();
    assert_eq!(a, b);
    assert!(a.starts_with("BwcHBwcHBwcHBwcH:"));
    assert_eq!(encrypt_with_nonce("value", "short", &nonce), Err(CipherError::KeyLength));
}

fn flip(envelope: &str, segment: usize, byte: usize) -> String {
    let parts: Vec<&str> = envelope.split(':').collect();
    let mut bytes = STANDARD.decode(parts[segment]).unwrap();
    bytes[byte] ^= 0x01;
    let changed = STANDARD.encode(bytes);
    if segment == 0 {
        format!("{}:{}", changed, parts[1])
    } else {
        format!("{}:{}", parts[0], changed)
    }
}

#[test]
fn tampering_is_detected() {
    let e = encrypt("tamper me", KEY).unwrap();
    // 9 bytes of ciphertext, then 16 bytes of tag.
    for i in 0..25 {
        assert_eq!(decrypt(&flip(&e, 1, i), KEY), Err(CipherError::Authentication));
    }
    for i in 0..12 {
        assert_eq!(decrypt(&flip(&e, 0, i), KEY), Err(CipherError::Authentication));
    }
}

#[test]
fn wrong_key_is_an_authentication_error() {
    let e = encrypt("value", KEY).unwrap();
    let other = "fedcba9876543210fedcba9876543210";
    assert_eq!(decrypt(&e, other), Err(CipherError::Authentication));
}

#[test]
fn malformed_envelopes() {
    let e = encrypt("value", KEY).unwrap();
    assert_eq!(decrypt("no colon here", KEY), Err(CipherError::MalformedEnvelope));
    assert_eq!(decrypt(&format!("{}:extra", e), KEY), Err(CipherError::MalformedEnvelope));
    assert_eq!(decrypt("!!!!:AAAA", KEY), Err(CipherError::MalformedEnvelope));
    assert_eq!(decrypt("AAAAAAAAAAAAAAAA:@@", KEY), Err(CipherError::MalformedEnvelope));
    // A nonce of 3 bytes.
    assert_eq!(decrypt("AAAA:AAAAAAAAAAAAAAAAAAAAAA==", KEY), Err(CipherError::MalformedEnvelope));
}

#[test]
fn error_messages() {
    assert_eq!(CipherError::Authentication.message(), "cannot decrypt value");
    assert_eq!(CipherError::KeyLength.message(), "encryption key must be exactly 32 bytes");
    assert_eq!(CipherError::MalformedEnvelope.message(), "stored value is malformed");
    assert_eq!(CipherError::Encryption.message(), "encryption failed");
}
