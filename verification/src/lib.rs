//! Core of an end-to-end encrypted ephemeral file and text sharing service.
//!
//! A sender derives a key from a passphrase, encrypts a payload entirely on
//! the client, and uploads the ciphertext in fixed-size chunks to an opaque
//! store; the recipient downloads the chunks and decrypts them with the same
//! passphrase. The store never sees the passphrase, a derived key, or any
//! plaintext.
//!
//! The crate covers the client-side streaming pipeline (key derivation, block
//! framing, chunked encryption and decryption) and the server-side chunked
//! object store (two-phase upload, per-object chunk table, expiry), together
//! with the wire-level validation that binds the two.

use vstd::prelude::*;

pub mod bytes;
pub mod client;
pub mod config;
pub mod crypto;
pub mod routes;
pub mod server;
pub mod store;
pub mod stream;
pub mod uri;
pub mod wire;

verus! {

/// Plaintext bytes carried by one streaming AEAD block.
pub const BLOCK_SIZE: usize = 10 * 1024 * 1024;

/// Bytes the AEAD adds to each block (the Poly1305 tag).
pub const BLOCK_OVERHEAD: usize = 16;

/// Length in bytes of the HKDF salt.
pub const SALT_LEN: usize = 32;

/// Length in bytes of a derived key.
pub const KEY_LEN: usize = 32;

/// Length in bytes of the streaming-mode nonce prefix.
pub const STREAM_NONCE_LEN: usize = 19;

/// Length in bytes of a one-shot XChaCha20-Poly1305 nonce.
pub const ONESHOT_NONCE_LEN: usize = 24;

/// Body limit for a `prepare_upload` request.
pub const PREPARE_LENGTH_LIMIT: usize = 10 * 1024 * 1024;

/// Body limit for an `upload` request; also the largest payload the client
/// pipeline accepts, so that every chunk fits in one request.
pub const UPLOAD_LENGTH_LIMIT: usize = 100 * 1024 * 1024;

} // verus!
