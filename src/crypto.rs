//! Key material, key derivation and authenticated encryption of documents.
//!
//! Every persisted document is sealed with AES-256-GCM under the 32-byte key
//! that the authorization key text encodes. The nonce is the first 12 bytes of
//! that key, so sealing is deterministic: the same plaintext under the same key
//! always gives the same text.

use vstd::prelude::*;
use vstd::utf8::*;

use aes_gcm::aead::Aead;
use aes_gcm::{Aes256Gcm, KeyInit, Nonce};
use base64::Engine as _;
use rand_core::TryRngCore;
use zeroize::Zeroize;

verus! {

/// The longest plaintext that AES-GCM accepts, in bytes (2^36).
pub const MAX_PLAINTEXT: u64 = 68719476736;

/// What `base64`'s standard engine (padded alphabet) turns a byte string into.
pub uninterp spec fn base64_of(b: Seq<u8>) -> Seq<char>;

/// The 32-byte BLAKE3 digest of a byte string.
pub uninterp spec fn blake3_of(b: Seq<u8>) -> Seq<u8>;

/// The ciphertext, tag included, that AES-256-GCM gives for a key, a nonce
/// and a plaintext, with no associated data.
pub uninterp spec fn aes_gcm_seal(key: Seq<u8>, nonce: Seq<u8>, plaintext: Seq<u8>) -> Seq<u8>;

/// The nonce used under a key: its first 12 bytes.
pub open spec fn nonce_of(key: Seq<u8>) -> Seq<u8> {
    key.take(12)
}

/// The text that sealing `plaintext` under `key` produces.
pub open spec fn sealed_text(key: Seq<u8>, plaintext: Seq<u8>) -> Seq<char> {
    base64_of(aes_gcm_seal(key, nonce_of(key), plaintext))
}

/// The authorization key text derived from some key material.
pub open spec fn authorization_key_from(material: Seq<u8>) -> Seq<char> {
    base64_of(blake3_of(material))
}

/// Whether `text` is the base64 text of some byte string.
pub open spec fn is_base64_text(text: Seq<char>) -> bool {
    exists|b: Seq<u8>| base64_of(b) == text
}

/// Whether `text` is the base64 text of a 32-byte key.
pub open spec fn is_key_text(text: Seq<char>) -> bool {
    exists|b: Seq<u8>| b.len() == 32 && base64_of(b) == text
}

/// Why a cryptographic operation failed.
#[derive(Debug, Clone, Copy, PartialEq, Eq, Structural)]
pub enum CryptoError {
    /// A text that should be base64 is not.
    InvalidEncoding,
    /// The authorization key does not decode to 32 bytes.
    InvalidKeyLength,
    /// The tag did not verify: the data was altered or sealed under another key.
    AuthenticationFailed,
    /// The plaintext is longer than AES-GCM allows.
    PayloadTooLarge,
    /// The opened document is not UTF-8.
    InvalidUtf8,
}

/// Relies on `base64::engine::general_purpose::STANDARD.encode`: the padded
/// standard encoding of the bytes.
#[verifier::external_body]
fn b64_encode(b: &[u8]) -> (r: String)
    ensures
        r@ == base64_of(b@),
{
    base64::engine::general_purpose::STANDARD.encode(b)
}

/// Relies on `base64::engine::general_purpose::STANDARD.decode`: with canonical
/// padding required and no trailing bits allowed, it accepts exactly the texts
/// that `encode` produces, and returns the bytes they encode.
#[verifier::external_body]
fn b64_decode(s: &str) -> (r: Option<Vec<u8>>)
    ensures
        r matches Some(v) ==> base64_of(v@) == s@,
        r is None ==> forall|b: Seq<u8>| base64_of(b) != s@,
        forall|b: Seq<u8>| base64_of(b) == s@ ==> (r is Some && r->0@ == b),
{
    base64::engine::general_purpose::STANDARD.decode(s).ok()
}

/// Relies on `blake3::hash`: the 32-byte digest of the input.
#[verifier::external_body]
fn blake3_digest(b: &[u8]) -> (r: [u8; 32])
    ensures
        r@ == blake3_of(b@),
{
    *blake3::hash(b).as_bytes()
}

/// Relies on `rand_core::OsRng::try_fill_bytes`: 32 bytes from the operating
/// system's generator, or nothing when the generator fails.
#[verifier::external_body]
fn os_random_32() -> (r: Option<[u8; 32]>) {
    let mut b = [0u8; 32];
    match rand_core::OsRng.try_fill_bytes(&mut b) {
        Ok(()) => Some(b),
        Err(_) => None,
    }
}

/// Relies on `zeroize::Zeroize::zeroize` for byte arrays: every byte becomes 0.
#[verifier::external_body]
fn wipe(b: &mut [u8; 32])
    ensures
        final(b)@ == Seq::new(32, |i: int| 0u8),
{
    b.zeroize();
}

/// Relies on `aes_gcm::Aes256Gcm::encrypt` (through `aead::Aead`, no associated
/// data): it fails only on a plaintext longer than `P_MAX` (2^36 bytes), and
/// its output depends on key, nonce and plaintext alone.
#[verifier::external_body]
fn aes_seal(key: &[u8], nonce: &[u8], plaintext: &[u8]) -> (r: Option<Vec<u8>>)
    requires
        key@.len() == 32,
        nonce@.len() == 12,
    ensures
        r is Some <==> plaintext@.len() <= MAX_PLAINTEXT,
        r matches Some(c) ==> c@ == aes_gcm_seal(key@, nonce@, plaintext@),
{
    let cipher = Aes256Gcm::new(aes_gcm::Key::<Aes256Gcm>::from_slice(key));
    cipher.encrypt(Nonce::from_slice(nonce), plaintext).ok()
}

/// Relies on `aes_gcm::Aes256Gcm::decrypt` (through `aead::Aead`, no associated
/// data): it succeeds exactly when the trailing tag authenticates the rest, and
/// then returns the plaintext that the counter-mode keystream recovers, whose
/// encryption under the same key and nonce is the input again.
#[verifier::external_body]
fn aes_open(key: &[u8], nonce: &[u8], ciphertext: &[u8]) -> (r: Option<Vec<u8>>)
    requires
        key@.len() == 32,
        nonce@.len() == 12,
    ensures
        r matches Some(p) ==> (p@.len() <= MAX_PLAINTEXT ==> aes_gcm_seal(key@, nonce@, p@)
            == ciphertext@),
        forall|p: Seq<u8>|
            p.len() <= MAX_PLAINTEXT && aes_gcm_seal(key@, nonce@, p) == ciphertext@ ==> (r is Some
                && r->0@ == p),
{
    let cipher = Aes256Gcm::new(aes_gcm::Key::<Aes256Gcm>::from_slice(key));
    cipher.decrypt(Nonce::from_slice(nonce), ciphertext).ok()
}

/// Relies on `String::from_utf8`: it accepts exactly the valid UTF-8 byte
/// strings, and the text is what they decode to.
#[verifier::external_body]
pub(crate) fn utf8_text(b: Vec<u8>) -> (r: Option<String>)
    ensures
        r is Some <==> valid_utf8(b@),
        r matches Some(s) ==> s@ == decode_utf8(b@),
{
    String::from_utf8(b).ok()
}

/// Sealing is deterministic: the same plaintext under the same key always
/// gives the same text.
pub proof fn lemma_sealing_deterministic(key1: Seq<u8>, key2: Seq<u8>, p1: Seq<u8>, p2: Seq<u8>)
    requires
        key1 == key2,
        p1 == p2,
    ensures
        sealed_text(key1, p1) == sealed_text(key2, p2),
{
}

pub struct AegCrypto;

impl AegCrypto {
    /// The standard padded base64 text of `input`.
    pub fn encode_base64(input: &[u8]) -> (r: String)
        ensures
            r@ == base64_of(input@),
    {
        b64_encode(input)
    }

    /// 32 bytes from the operating system's secure generator; `None` when the
    /// generator is unavailable.
    pub fn generate_random_bytes() -> (r: Option<[u8; 32]>) {
        os_random_32()
    }

    /// The authorization key text for some key material: the base64 text of
    /// its BLAKE3 digest. It decodes to exactly 32 bytes.
    pub fn derive_authorization_key(material: &[u8]) -> (r: String)
        ensures
            r@ == authorization_key_from(material@),
            is_key_text(r@),
    {
        let digest = blake3_digest(material);
        let r = b64_encode(&digest);
        assert(digest@.len() == 32);
        r
    }

    /// A fresh authorization key: the key text derived from 32 random bytes,
    /// which are wiped afterwards. `None` when no random bytes could be had.
    pub fn create_authorization_key() -> (r: Option<String>)
        ensures
            r matches Some(k) ==> exists|m: Seq<u8>| m.len() == 32 && k@ == authorization_key_from(m),
            r matches Some(k) ==> is_key_text(k@),
    {
        match os_random_32() {
            Some(bytes) => {
                let mut bytes = bytes;
                let ghost material = bytes@;
                let k = Self::derive_authorization_key(&bytes);
                wipe(&mut bytes);
                assert(material.len() == 32 && k@ == authorization_key_from(material));
                Some(k)
            },
            None => None,
        }
    }

    /// The 32 cipher key bytes that an authorization key text encodes.
    pub fn decode_authorization_key(key_text: &str) -> (r: Result<Vec<u8>, CryptoError>)
        ensures
            r matches Ok(k) ==> k@.len() == 32 && base64_of(k@) == key_text@,
            r is Ok <==> is_key_text(key_text@),
            r == Err::<Vec<u8>, CryptoError>(CryptoError::InvalidEncoding) <==> !is_base64_text(
                key_text@,
            ),
            r == Err::<Vec<u8>, CryptoError>(CryptoError::InvalidKeyLength) <==> (is_base64_text(
                key_text@,
            ) && !is_key_text(key_text@)),
            r is Err ==> r->Err_0 == CryptoError::InvalidEncoding || r->Err_0
                == CryptoError::InvalidKeyLength,
            forall|b: Seq<u8>|
                b.len() == 32 && base64_of(b) == key_text@ ==> (r is Ok && r->Ok_0@ == b),
    {
        match b64_decode(key_text) {
            Some(k) => {
                if k.len() == 32 {
                    Ok(k)
                } else {
                    assert(is_base64_text(key_text@));
                    Err(CryptoError::InvalidKeyLength)
                }
            },
            None => Err(CryptoError::InvalidEncoding),
        }
    }

    /// Seals `plaintext` under a 32-byte key, with the key's first 12 bytes as
    /// nonce, and returns the base64 text of the ciphertext.
    pub fn encrypt(plaintext: &[u8], key: &[u8]) -> (r: Result<String, CryptoError>)
        requires
            key@.len() == 32,
        ensures
            r is Ok <==> plaintext@.len() <= MAX_PLAINTEXT,
            r matches Ok(t) ==> t@ == sealed_text(key@, plaintext@),
            r is Err ==> r->Err_0 == CryptoError::PayloadTooLarge,
    {
        let nonce = slice_prefix(key, 12);
        match aes_seal(key, nonce.as_slice(), plaintext) {
            Some(c) => Ok(b64_encode(c.as_slice())),
            None => Err(CryptoError::PayloadTooLarge),
        }
    }

    /// Opens a text that `encrypt` produced under the same key.
    pub fn decrypt(ciphertext: &str, key: &[u8]) -> (r: Result<Vec<u8>, CryptoError>)
        requires
            key@.len() == 32,
        ensures
            r matches Ok(p) ==> (p@.len() <= MAX_PLAINTEXT ==> ciphertext@ == sealed_text(
                key@,
                p@,
            )),
            r == Err::<Vec<u8>, CryptoError>(CryptoError::InvalidEncoding) <==> !is_base64_text(
                ciphertext@,
            ),
            r is Err ==> r->Err_0 == CryptoError::InvalidEncoding || r->Err_0
                == CryptoError::AuthenticationFailed,
            forall|p: Seq<u8>|
                p.len() <= MAX_PLAINTEXT && sealed_text(key@, p) == ciphertext@ ==> (r is Ok
                    && r->Ok_0@ == p),
    {
        let nonce = slice_prefix(key, 12);
        match b64_decode(ciphertext) {
            Some(c) => {
                let opened = aes_open(key, nonce.as_slice(), c.as_slice());
                assert(nonce@ == nonce_of(key@));
                match opened {
                    Some(p) => Ok(p),
                    None => {
                        assert(is_base64_text(ciphertext@));
                        Err(CryptoError::AuthenticationFailed)
                    },
                }
            },
            None => Err(CryptoError::InvalidEncoding),
        }
    }
}

/// The first `n` bytes of `s`, copied.
fn slice_prefix(s: &[u8], n: usize) -> (r: Vec<u8>)
    requires
        n <= s@.len(),
    ensures
        r@ == s@.take(n as int),
{
    let mut r: Vec<u8> = Vec::new();
    let mut i: usize = 0;
    while i < n
        invariant
            i <= n <= s@.len(),
            r@ == s@.take(i as int),
        decreases n - i,
    {
        r.push(s[i]);
        i = i + 1;
        assert(r@ =~= s@.take(i as int));
    }
    r
}

} // verus!
