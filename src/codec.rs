//! Sealing of one value into a text envelope, and opening it again.
//!
//! An envelope is `base64(nonce) ':' base64(ciphertext || tag)`, where the
//! ciphertext and tag come from AES-256-GCM under a 32-byte key and a fresh
//! 12-byte nonce.
use aes_gcm::aead::generic_array::GenericArray;
use aes_gcm::aead::{Aead, KeyInit, OsRng};
use aes_gcm::{AeadCore, Aes256Gcm, Nonce};
use base64::engine::general_purpose::STANDARD;
use base64::Engine;
use crate::text::split_once_char;
use vstd::prelude::*;
use vstd::string::*;
use vstd::utf8::*;

verus! {

broadcast use {encode_utf8_valid_utf8, encode_utf8_decode_utf8};

/// Length in bytes of a secret key.
pub const KEY_LEN: usize = 32;

/// Length in bytes of a nonce.
pub const NONCE_LEN: usize = 12;

/// Length in bytes of the authentication tag appended to a ciphertext.
pub const TAG_LEN: usize = 16;

/// Largest plaintext, in bytes, that AES-GCM accepts (2^36).
pub const PLAINTEXT_MAX: u64 = 68_719_476_736;

/// The ways sealing or opening a value can fail.
#[derive(Clone, Copy, Debug, PartialEq, Eq, Structural)]
pub enum CipherError {
    /// The secret key is not exactly `KEY_LEN` bytes long.
    KeyLength,
    /// The cipher refused to seal the plaintext.
    Encryption,
    /// The tag did not verify: wrong key, corrupted or altered data.
    Authentication,
    /// The envelope is not two base64 segments around one ':', the nonce has
    /// the wrong length, or the opened bytes are not UTF-8 text.
    MalformedEnvelope,
}

impl CipherError {
    /// A human-readable description of the error.
    pub fn message(&self) -> (r: String)
        ensures
            r@ == cipher_error_message(*self),
    {
        match self {
            CipherError::KeyLength => String::from_str("encryption key must be exactly 32 bytes"),
            CipherError::Encryption => String::from_str("encryption failed"),
            CipherError::Authentication => String::from_str("cannot decrypt value"),
            CipherError::MalformedEnvelope => String::from_str("stored value is malformed"),
        }
    }
}

pub open spec fn cipher_error_message(e: CipherError) -> Seq<char> {
    match e {
        CipherError::KeyLength => "encryption key must be exactly 32 bytes"@,
        CipherError::Encryption => "encryption failed"@,
        CipherError::Authentication => "cannot decrypt value"@,
        CipherError::MalformedEnvelope => "stored value is malformed"@,
    }
}

/// The standard-alphabet, padded base64 text of `bytes`.
pub uninterp spec fn base64_of(bytes: Seq<u8>) -> Seq<char>;

/// The bytes that standard padded base64 `text` decodes to, if it decodes.
pub uninterp spec fn base64_decoded(text: Seq<char>) -> Option<Seq<u8>>;

/// AES-256-GCM ciphertext followed by its tag, with no associated data.
pub uninterp spec fn aes_gcm_seal(key: Seq<u8>, nonce: Seq<u8>, plaintext: Seq<u8>) -> Seq<u8>;

/// AES-256-GCM opening of ciphertext-and-tag: the plaintext if the tag verifies.
pub uninterp spec fn aes_gcm_open(key: Seq<u8>, nonce: Seq<u8>, sealed: Seq<u8>) -> Option<Seq<u8>>;

/// Relies on base64's `Engine::encode` with the `STANDARD` engine: padded
/// output of 4 characters per started 3-byte group, drawn from `A-Z a-z 0-9 + / =`,
/// which `Engine::decode` maps back to the input. It panics only when the
/// output length overflows `usize`.
#[verifier::external_body]
fn base64_encode(bytes: &[u8]) -> (r: String)
    requires
        4 * ((bytes@.len() + 2) / 3) <= usize::MAX,
    ensures
        r@ == base64_of(bytes@),
        r@.len() == 4 * ((bytes@.len() + 2) / 3),
        forall|i: int| 0 <= i < r@.len() ==> #[trigger] r@[i] != ':',
        base64_decoded(r@) == Some(bytes@),
{
    STANDARD.encode(bytes)
}

/// Relies on base64's `Engine::decode` with the `STANDARD` engine.
#[verifier::external_body]
fn base64_decode(text: &str) -> (r: Option<Vec<u8>>)
    ensures
        match r {
            Some(v) => base64_decoded(text@) == Some(v@),
            None => base64_decoded(text@) is None,
        },
{
    STANDARD.decode(text).ok()
}

/// Relies on aes_gcm's `Aes256Gcm` (`KeyInit::new`, then `Aead::encrypt`):
/// it fails only on a plaintext over 2^36 bytes, appends a 16-byte tag, and
/// `Aead::decrypt` under the same key and nonce gives the plaintext back.
#[verifier::external_body]
fn aes_gcm_encrypt(key: &[u8], nonce: &[u8], plaintext: &[u8]) -> (r: Option<Vec<u8>>)
    requires
        key@.len() == KEY_LEN,
        nonce@.len() == NONCE_LEN,
    ensures
        r is Some <==> plaintext@.len() <= PLAINTEXT_MAX,
        r matches Some(c) ==> c@ == aes_gcm_seal(key@, nonce@, plaintext@),
        r matches Some(c) ==> c@.len() == plaintext@.len() + TAG_LEN,
        r matches Some(c) ==> aes_gcm_open(key@, nonce@, c@) == Some(plaintext@),
{
    let cipher = Aes256Gcm::new(GenericArray::from_slice(key));
    cipher.encrypt(Nonce::from_slice(nonce), plaintext).ok()
}

/// Relies on aes_gcm's `Aes256Gcm` (`KeyInit::new`, then `Aead::decrypt`).
#[verifier::external_body]
fn aes_gcm_decrypt(key: &[u8], nonce: &[u8], sealed: &[u8]) -> (r: Option<Vec<u8>>)
    requires
        key@.len() == KEY_LEN,
        nonce@.len() == NONCE_LEN,
    ensures
        match r {
            Some(p) => aes_gcm_open(key@, nonce@, sealed@) == Some(p@),
            None => aes_gcm_open(key@, nonce@, sealed@) is None,
        },
{
    let cipher = Aes256Gcm::new(GenericArray::from_slice(key));
    cipher.decrypt(Nonce::from_slice(nonce), sealed).ok()
}

/// Relies on aes_gcm's `AeadCore::generate_nonce` over `OsRng`: a random
/// nonce of the cipher's length.
#[verifier::external_body]
fn fresh_nonce() -> (r: Vec<u8>)
    ensures
        r@.len() == NONCE_LEN,
{
    Aes256Gcm::generate_nonce(&mut OsRng).to_vec()
}

/// Relies on `String::from_utf8`: it succeeds exactly on valid UTF-8 and
/// keeps the characters the bytes encode.
#[verifier::external_body]
fn utf8_to_string(bytes: Vec<u8>) -> (r: Option<String>)
    ensures
        r is Some <==> valid_utf8(bytes@),
        r matches Some(s) ==> s@ == decode_utf8(bytes@),
{
    String::from_utf8(bytes).ok()
}

/// The envelope text for a nonce and a sealed body.
pub open spec fn envelope_text(nonce: Seq<u8>, sealed: Seq<u8>) -> Seq<char> {
    base64_of(nonce) + seq![':'] + base64_of(sealed)
}

/// `i` is the position of the one and only ':' in `text`.
pub open spec fn sole_colon_at(text: Seq<char>, i: int) -> bool {
    &&& 0 <= i < text.len()
    &&& text[i] == ':'
    &&& forall|j: int| 0 <= j < text.len() && j != i ==> text[j] != ':'
}

/// What sealing `plaintext` under `key` with `nonce` gives. Besides the
/// cipher's own limit, the sealed body must leave room in a `usize` for its
/// base64 text, which only matters on targets narrower than 64 bits.
pub open spec fn sealed_envelope(plaintext: Seq<char>, key: Seq<u8>, nonce: Seq<u8>) -> Result<
    Seq<char>,
    CipherError,
> {
    if key.len() != KEY_LEN {
        Err(CipherError::KeyLength)
    } else if encode_utf8(plaintext).len() > PLAINTEXT_MAX || encode_utf8(plaintext).len()
        + TAG_LEN > usize::MAX / 2 {
        Err(CipherError::Encryption)
    } else {
        Ok(envelope_text(nonce, aes_gcm_seal(key, nonce, encode_utf8(plaintext))))
    }
}

/// What opening the bytes of a sealed body under `key` and `nonce` gives.
pub open spec fn opened_body(key: Seq<u8>, nonce: Seq<u8>, sealed: Seq<u8>) -> Result<
    Seq<char>,
    CipherError,
> {
    match aes_gcm_open(key, nonce, sealed) {
        None => Err(CipherError::Authentication),
        Some(p) => if valid_utf8(p) {
            Ok(decode_utf8(p))
        } else {
            Err(CipherError::MalformedEnvelope)
        },
    }
}

/// What opening `envelope` under `key` gives.
pub open spec fn opened_envelope(envelope: Seq<char>, key: Seq<u8>) -> Result<
    Seq<char>,
    CipherError,
> {
    if key.len() != KEY_LEN {
        Err(CipherError::KeyLength)
    } else if !(exists|i: int| sole_colon_at(envelope, i)) {
        Err(CipherError::MalformedEnvelope)
    } else {
        let i = choose|i: int| sole_colon_at(envelope, i);
        let nonce = base64_decoded(envelope.subrange(0, i));
        let sealed = base64_decoded(envelope.subrange(i + 1, envelope.len() as int));
        if nonce is None || sealed is None {
            Err(CipherError::MalformedEnvelope)
        } else if nonce->0.len() != NONCE_LEN {
            Err(CipherError::MalformedEnvelope)
        } else {
            opened_body(key, nonce->0, sealed->0)
        }
    }
}

/// The view of a text result.
pub open spec fn text_result(r: Result<String, CipherError>) -> Result<Seq<char>, CipherError> {
    match r {
        Ok(s) => Ok(s@),
        Err(e) => Err(e),
    }
}

/// A UTF-8 encoding is never shorter than its characters.
pub proof fn lemma_utf8_len(chars: Seq<char>)
    ensures
        encode_utf8(chars).len() >= chars.len(),
    decreases chars.len(),
{
    if chars.len() > 0 {
        lemma_utf8_len(chars.drop_first());
    }
}

/// Seals `plaintext` under `key` with the given nonce and returns the
/// envelope text. The envelope opens back to `plaintext` under the same key,
/// and it never equals the plaintext.
pub fn encrypt_with_nonce(plaintext: &str, key: &str, nonce: &[u8]) -> (r: Result<
    String,
    CipherError,
>)
    requires
        nonce@.len() == NONCE_LEN,
    ensures
        text_result(r) == sealed_envelope(plaintext@, key.spec_bytes(), nonce@),
        r matches Ok(e) ==> opened_envelope(e@, key.spec_bytes()) == Ok::<Seq<char>, CipherError>(plaintext@),
        r matches Ok(e) ==> e@ != plaintext@,
{
    let k = key.as_bytes();
    if k.len() != KEY_LEN {
        return Err(CipherError::KeyLength);
    }
    let p = plaintext.as_bytes();
    let sealed = match aes_gcm_encrypt(k, nonce, p) {
        None => return Err(CipherError::Encryption),
        Some(c) => c,
    };
    if sealed.len() > usize::MAX / 2 {
        return Err(CipherError::Encryption);
    }
    let mut envelope = base64_encode(nonce);
    let tail = base64_encode(sealed.as_slice());
    proof {
        reveal_strlit(":");
    }
    let ghost head = envelope@;
    envelope.append(":");
    envelope.append(tail.as_str());
    proof {
        let e = envelope@;
        let i = head.len() as int;
        assert(e == head + seq![':'] + tail@);
        assert(e[i] == ':');
        assert forall|j: int| 0 <= j < e.len() && j != i implies e[j] != ':' by {
            if j < i {
                assert(e[j] == head[j]);
            } else {
                assert(e[j] == tail@[j - i - 1]);
            }
        }
        assert(sole_colon_at(e, i));
        assert forall|i2: int| sole_colon_at(e, i2) implies i2 == i by {}
        let ci = choose|i2: int| sole_colon_at(e, i2);
        assert(ci == i);
        assert(e.subrange(0, i) =~= head);
        assert(e.subrange(i + 1, e.len() as int) =~= tail@);
        lemma_utf8_len(plaintext@);
    }
    Ok(envelope)
}

/// Seals `plaintext` under `key` with a fresh random nonce and returns the
/// envelope text. Succeeds whenever the key is `KEY_LEN` bytes and the
/// plaintext is within the cipher's limit; the envelope opens back to
/// `plaintext` under the same key and never equals it.
pub fn encrypt(plaintext: &str, key: &str) -> (r: Result<String, CipherError>)
    ensures
        exists|nonce: Seq<u8>|
            nonce.len() == NONCE_LEN && text_result(r) == #[trigger] sealed_envelope(
                plaintext@,
                key.spec_bytes(),
                nonce,
            ),
        r matches Ok(e) ==> opened_envelope(e@, key.spec_bytes()) == Ok::<Seq<char>, CipherError>(plaintext@),
        r matches Ok(e) ==> e@ != plaintext@,
{
    let nonce = fresh_nonce();
    encrypt_with_nonce(plaintext, key, nonce.as_slice())
}

/// Opens an envelope produced by `encrypt` under `key` and returns the
/// plaintext; fails with the error that `opened_envelope` names.
pub fn decrypt(cipher_text: &str, key: &str) -> (r: Result<String, CipherError>)
    ensures
        text_result(r) == opened_envelope(cipher_text@, key.spec_bytes()),
{
    let k = key.as_bytes();
    if k.len() != KEY_LEN {
        return Err(CipherError::KeyLength);
    }
    let (head, tail) = match split_once_char(cipher_text, ':') {
        None => {
            proof {
                assert forall|i: int| !sole_colon_at(cipher_text@, i) by {
                    if sole_colon_at(cipher_text@, i) {
                        assert(cipher_text@.contains(':'));
                    }
                }
            }
            return Err(CipherError::MalformedEnvelope);
        },
        Some(parts) => parts,
    };
    let ghost e = cipher_text@;
    let ghost i = head@.len() as int;
    proof {
        assert(e[i] == ':');
    }
    if split_once_char(tail, ':').is_some() {
        proof {
            let j = choose|j: int| 0 <= j < tail@.len() && tail@[j] == ':';
            assert(e[i + 1 + j] == ':');
            assert forall|i2: int| !sole_colon_at(e, i2) by {
                if sole_colon_at(e, i2) {
                    if i2 != i {
                        assert(e[i] == ':');
                    } else {
                        assert(e[i + 1 + j] == ':');
                    }
                }
            }
        }
        return Err(CipherError::MalformedEnvelope);
    }
    proof {
        assert forall|j: int| 0 <= j < e.len() && j != i implies e[j] != ':' by {
            if j < i {
                assert(e[j] == head@[j]);
                if e[j] == ':' {
                    assert(head@.contains(':'));
                }
            } else {
                assert(e[j] == tail@[j - i - 1]);
                if e[j] == ':' {
                    assert(tail@.contains(':'));
                }
            }
        }
        assert(sole_colon_at(e, i));
        assert forall|i2: int| sole_colon_at(e, i2) implies i2 == i by {}
        let ci = choose|i2: int| sole_colon_at(e, i2);
        assert(ci == i);
        assert(e.subrange(0, i) =~= head@);
        assert(e.subrange(i + 1, e.len() as int) =~= tail@);
    }
    let nonce = match base64_decode(head) {
        None => return Err(CipherError::MalformedEnvelope),
        Some(n) => n,
    };
    let sealed = match base64_decode(tail) {
        None => return Err(CipherError::MalformedEnvelope),
        Some(c) => c,
    };
    if nonce.len() != NONCE_LEN {
        return Err(CipherError::MalformedEnvelope);
    }
    let opened = match aes_gcm_decrypt(k, nonce.as_slice(), sealed.as_slice()) {
        None => return Err(CipherError::Authentication),
        Some(p) => p,
    };
    match utf8_to_string(opened) {
        None => Err(CipherError::MalformedEnvelope),
        Some(s) => Ok(s),
    }
}

} // verus!
