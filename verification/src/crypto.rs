//! The trusted boundary around the crypto primitives.
//!
//! Key derivation is HKDF-SHA256 and the cipher is XChaCha20-Poly1305, both
//! called through the outside crates. Their outputs are functions of their
//! arguments alone, far too large to state, so each gets a name
//! ([`key_of`], [`sealed_of`]) and the wrappers state the library's use of
//! them: lengths, determinism, and that decryption inverts encryption.

use vstd::prelude::*;

use crate::KEY_LEN;

use aead::{Aead, KeyInit};
use chacha20poly1305::{Key, XChaCha20Poly1305, XNonce};
use hkdf::Hkdf;
use sha2::Sha256;

verus! {

/// The 32-byte key that HKDF-SHA256 derives from a passphrase and a 32-byte
/// salt, with empty `info`.
pub uninterp spec fn key_of(passphrase: Seq<u8>, salt: Seq<u8>) -> Seq<u8>;

/// The XChaCha20-Poly1305 sealing of `plaintext` under a 32-byte key and a
/// 24-byte nonce, with no associated data: the ciphertext followed by the
/// 16-byte Poly1305 tag.
pub uninterp spec fn sealed_of(key: Seq<u8>, nonce: Seq<u8>, plaintext: Seq<u8>) -> Seq<u8>;

/// Largest plaintext a single sealing accepts; far below the cipher's own
/// limit, so sealing never fails.
pub const SEAL_MAX: usize = 0x4000_0000;

/// Relies on `hkdf::Hkdf::<Sha256>::new` and `expand`: HKDF-SHA256 with the
/// given salt, empty `info`, and a 32-byte output. The output is a function
/// of the passphrase and salt alone; `expand` cannot fail for a 32-byte
/// request (32 is at most 255 hash lengths).
#[verifier::external_body]
pub(crate) fn derive_key(passphrase: &[u8], salt: &[u8]) -> (key: Vec<u8>)
    requires
        salt@.len() == 32,
    ensures
        key@ == key_of(passphrase@, salt@),
        key@.len() == KEY_LEN,
{
    let h = Hkdf::<Sha256>::new(Some(salt), passphrase);
    let mut okm = [0u8; 32];
    h.expand(&[], &mut okm).unwrap();
    okm.to_vec()
}

/// Relies on `chacha20poly1305::XChaCha20Poly1305::encrypt`: deterministic
/// in key, nonce, and plaintext; the output is the ciphertext plus a 16-byte
/// tag; it cannot fail for plaintexts under the cipher's length limit.
#[verifier::external_body]
pub(crate) fn aead_seal(key: &[u8], nonce: &[u8], plaintext: &[u8]) -> (ct: Vec<u8>)
    requires
        key@.len() == KEY_LEN,
        nonce@.len() == 24,
        plaintext@.len() <= SEAL_MAX,
    ensures
        ct@ == sealed_of(key@, nonce@, plaintext@),
        ct@.len() == plaintext@.len() + 16,
{
    let cipher = XChaCha20Poly1305::new(Key::from_slice(key));
    cipher.encrypt(XNonce::from_slice(nonce), plaintext).unwrap()
}

/// Relies on `chacha20poly1305::XChaCha20Poly1305::decrypt`: it succeeds
/// on every output of `encrypt` under the same key and nonce — sealings of
/// plaintexts within the length bound — and then returns the plaintext
/// that was sealed (the cipher decrypts by inverting the keystream, so
/// re-encrypting its output reproduces the input, and two plaintexts
/// cannot seal to one ciphertext).
#[verifier::external_body]
pub(crate) fn aead_open(key: &[u8], nonce: &[u8], ciphertext: &[u8]) -> (r: Option<Vec<u8>>)
    requires
        key@.len() == KEY_LEN,
        nonce@.len() == 24,
    ensures
        r matches Some(pt) ==> ciphertext@ == sealed_of(key@, nonce@, pt@) && pt@.len() + 16
            == ciphertext@.len(),
        forall|q: Seq<u8>|
            q.len() <= SEAL_MAX && ciphertext@ == sealed_of(key@, nonce@, q) ==> r is Some && r->0@
                == q,
{
    let cipher = XChaCha20Poly1305::new(Key::from_slice(key));
    match cipher.decrypt(XNonce::from_slice(nonce), ciphertext) {
        Ok(pt) => Some(pt),
        Err(_) => None,
    }
}

/// Relies on `getrandom::getrandom`: on success the buffer of the requested
/// length is filled; nothing is assumed about the values drawn.
#[verifier::external_body]
pub(crate) fn random_bytes(len: usize) -> (r: Option<Vec<u8>>)
    ensures
        r matches Some(v) ==> v@.len() == len,
{
    let mut buf = vec![0u8; len];
    match getrandom::getrandom(&mut buf) {
        Ok(()) => Some(buf),
        Err(_) => None,
    }
}

} // verus!
