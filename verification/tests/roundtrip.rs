//! The crypto pipeline end to end: round trips, the reference stream
//! construction, and the failure modes a damaged ciphertext must show.

use aead::stream::{DecryptorBE32, EncryptorBE32};
use aead::{Aead, KeyInit};
use chacha20poly1305::{Key, XChaCha20Poly1305, XNonce};
use hkdf::Hkdf;
use sha2::Sha256;

use hako::client::{decrypt_file, decrypt_text, encrypt_file_with, encrypt_text_with};
use hako::{BLOCK_OVERHEAD, BLOCK_SIZE};

const PASS: &[u8] = b"correct horse battery staple";

fn salt() -> Vec<u8> {
    (0u8..32).collect()
}

fn stream_nonce() -> Vec<u8> {
    (100u8..119).collect()
}

fn filename_nonce() -> Vec<u8> {
    (50u8..74).collect()
}

fn oneshot_nonce() -> Vec<u8> {
    (200u8..224).collect()
}

fn reference_key(passphrase: &[u8], salt: &[u8]) -> [u8; 32] {
    let h = Hkdf::<Sha256>::new(Some(salt), passphrase);
    let mut key = [0u8; 32];
    h.expand(&[], &mut key).unwrap();
    key
}

#[test]
fn file_round_trip_small() {
    let content = vec![0x61u8; 5000];
    let name = b"hello.txt";
    let job = encrypt_file_with(
        PASS,
        salt(),
        stream_nonce(),
        filename_nonce(),
        name,
        &content,
    );
    assert_eq!(job.chunks.len(), 1);
    assert_eq!(job.chunks[0].seq, 1);
    assert!(job.chunks[0].is_last);
    assert_eq!(job.chunks[0].content.len(), 5000 + BLOCK_OVERHEAD);

    let body: Vec<u8> = job.chunks.iter().flat_map(|c| c.content.clone()).collect();
    let out = decrypt_file(
        PASS,
        &job.salt,
        &job.stream_nonce,
        &job.filename_nonce,
        &job.encrypted_filename,
        &body,
    )
    .expect("round trip must succeed");
    assert_eq!(out.0, name);
    assert_eq!(out.1, content);
}

#[test]
fn stream_matches_reference_construction() {
    // One full block plus a residue, so both the non-last and the last
    // path are compared against the reference STREAM implementation.
    let mut content = vec![0u8; BLOCK_SIZE];
    content.extend_from_slice(b"tail");
    let job = encrypt_file_with(
        PASS,
        salt(),
        stream_nonce(),
        filename_nonce(),
        b"a.bin",
        &content,
    );
    assert_eq!(job.chunks.len(), 2);

    let key = reference_key(PASS, &salt());
    let cipher = XChaCha20Poly1305::new(Key::from_slice(&key));
    let nonce = stream_nonce();
    let mut encryptor = EncryptorBE32::from_aead(cipher, nonce.as_slice().into());
    let first = encryptor.encrypt_next(&content[..BLOCK_SIZE]).unwrap();
    let last = encryptor.encrypt_last(&content[BLOCK_SIZE..]).unwrap();
    assert_eq!(job.chunks[0].content, first);
    assert_eq!(job.chunks[1].content, last);

    // The filename sealing must equal the one-shot cipher's output.
    let cipher = XChaCha20Poly1305::new(Key::from_slice(&key));
    let sealed_name = cipher
        .encrypt(XNonce::from_slice(&filename_nonce()), &b"a.bin"[..])
        .unwrap();
    assert_eq!(job.encrypted_filename, sealed_name);

    // And the reference decryptor must accept our stream.
    let cipher = XChaCha20Poly1305::new(Key::from_slice(&key));
    let mut decryptor = DecryptorBE32::from_aead(cipher, nonce.as_slice().into());
    let a = decryptor
        .decrypt_next(job.chunks[0].content.as_slice())
        .unwrap();
    let b = decryptor
        .decrypt_last(job.chunks[1].content.as_slice())
        .unwrap();
    assert_eq!(a, &content[..BLOCK_SIZE]);
    assert_eq!(b, &content[BLOCK_SIZE..]);
}

#[test]
fn file_one_full_block() {
    let content = vec![0u8; BLOCK_SIZE];
    let job = encrypt_file_with(
        PASS,
        salt(),
        stream_nonce(),
        filename_nonce(),
        b"zeros.bin",
        &content,
    );
    assert_eq!(job.chunks.len(), 2);
    assert_eq!(job.chunks[0].content.len(), BLOCK_SIZE + BLOCK_OVERHEAD);
    assert!(!job.chunks[0].is_last);
    assert_eq!(job.chunks[1].content.len(), BLOCK_OVERHEAD);
    assert!(job.chunks[1].is_last);

    let body: Vec<u8> = job.chunks.iter().flat_map(|c| c.content.clone()).collect();
    let out = decrypt_file(
        PASS,
        &job.salt,
        &job.stream_nonce,
        &job.filename_nonce,
        &job.encrypted_filename,
        &body,
    )
    .expect("round trip must succeed");
    assert_eq!(out.1, content);
}

#[test]
fn file_two_blocks_plus_one_byte() {
    let content = vec![7u8; 2 * BLOCK_SIZE + 1];
    let job = encrypt_file_with(
        PASS,
        salt(),
        stream_nonce(),
        filename_nonce(),
        b"big.bin",
        &content,
    );
    assert_eq!(job.chunks.len(), 3);
    assert_eq!(job.chunks[2].content.len(), 1 + BLOCK_OVERHEAD);
    assert!(job.chunks[2].is_last);

    let body: Vec<u8> = job.chunks.iter().flat_map(|c| c.content.clone()).collect();
    let out = decrypt_file(
        PASS,
        &job.salt,
        &job.stream_nonce,
        &job.filename_nonce,
        &job.encrypted_filename,
        &body,
    )
    .expect("round trip must succeed");
    assert_eq!(out.1, content);
}

#[test]
fn text_round_trip() {
    let text = "The quick brown fox";
    let ct = encrypt_text_with(PASS, salt(), oneshot_nonce(), text.as_bytes());
    assert_eq!(ct.len(), text.len() + BLOCK_OVERHEAD);
    let out = decrypt_text(PASS, &salt(), &oneshot_nonce(), &ct).expect("round trip");
    assert_eq!(String::from_utf8(out).unwrap(), text);
}

#[test]
fn wrong_passphrase_fails() {
    let content = vec![0x61u8; 5000];
    let job = encrypt_file_with(
        PASS,
        salt(),
        stream_nonce(),
        filename_nonce(),
        b"hello.txt",
        &content,
    );
    let body: Vec<u8> = job.chunks.iter().flat_map(|c| c.content.clone()).collect();
    let out = decrypt_file(
        b"wrong",
        &job.salt,
        &job.stream_nonce,
        &job.filename_nonce,
        &job.encrypted_filename,
        &body,
    );
    assert!(out.is_none());

    let ct = encrypt_text_with(PASS, salt(), oneshot_nonce(), b"hi");
    assert!(decrypt_text(b"wrong", &salt(), &oneshot_nonce(), &ct).is_none());
}

#[test]
fn key_isolation_single_bit() {
    let content = vec![9u8; 100];
    let job = encrypt_file_with(
        PASS,
        salt(),
        stream_nonce(),
        filename_nonce(),
        b"n",
        &content,
    );
    let body: Vec<u8> = job.chunks.iter().flat_map(|c| c.content.clone()).collect();

    // One flipped bit in the passphrase.
    let mut pass = PASS.to_vec();
    pass[0] ^= 1;
    assert!(decrypt_file(
        &pass,
        &job.salt,
        &job.stream_nonce,
        &job.filename_nonce,
        &job.encrypted_filename,
        &body,
    )
    .is_none());

    // One flipped bit in the salt.
    let mut bad_salt = job.salt.clone();
    bad_salt[31] ^= 0x80;
    assert!(decrypt_file(
        PASS,
        &bad_salt,
        &job.stream_nonce,
        &job.filename_nonce,
        &job.encrypted_filename,
        &body,
    )
    .is_none());
}

#[test]
fn chunk_integrity_bit_flip_fails() {
    let content = vec![3u8; 1000];
    let job = encrypt_file_with(
        PASS,
        salt(),
        stream_nonce(),
        filename_nonce(),
        b"n",
        &content,
    );
    let mut body: Vec<u8> = job.chunks.iter().flat_map(|c| c.content.clone()).collect();
    body[500] ^= 0x10;
    assert!(decrypt_file(
        PASS,
        &job.salt,
        &job.stream_nonce,
        &job.filename_nonce,
        &job.encrypted_filename,
        &body,
    )
    .is_none());
}

#[test]
fn truncation_and_flag_confusion_fail() {
    let mut content = vec![5u8; BLOCK_SIZE];
    content.extend_from_slice(b"rest");
    let job = encrypt_file_with(
        PASS,
        salt(),
        stream_nonce(),
        filename_nonce(),
        b"n",
        &content,
    );
    assert_eq!(job.chunks.len(), 2);

    // Stream cut off before the last chunk: the non-terminal block ends up
    // facing the last-block check and must fail.
    let truncated: Vec<u8> = job.chunks[0].content.clone();
    assert!(decrypt_file(
        PASS,
        &job.salt,
        &job.stream_nonce,
        &job.filename_nonce,
        &job.encrypted_filename,
        &truncated,
    )
    .is_none());

    // The terminal block alone, shifted into first position, must fail
    // too: its nonce carries the last flag and counter one.
    let swapped: Vec<u8> = job.chunks[1].content.clone();
    assert!(decrypt_file(
        PASS,
        &job.salt,
        &job.stream_nonce,
        &job.filename_nonce,
        &job.encrypted_filename,
        &swapped,
    )
    .is_none());
}

#[test]
fn empty_file_round_trip() {
    let job = encrypt_file_with(PASS, salt(), stream_nonce(), filename_nonce(), b"e", &[]);
    assert_eq!(job.chunks.len(), 1);
    assert_eq!(job.chunks[0].content.len(), BLOCK_OVERHEAD);
    let body: Vec<u8> = job.chunks[0].content.clone();
    let out = decrypt_file(
        PASS,
        &job.salt,
        &job.stream_nonce,
        &job.filename_nonce,
        &job.encrypted_filename,
        &body,
    )
    .expect("empty payload round trip");
    assert_eq!(out.1, Vec::<u8>::new());
}

#[test]
fn garbage_streams_fail_cleanly() {
    // Not even one tag's worth of bytes.
    assert!(hako::client::decrypt_file(
        PASS,
        &salt(),
        &stream_nonce(),
        &filename_nonce(),
        &[1, 2, 3],
        &[4, 5, 6],
    )
    .is_none());
    // An empty body cannot carry the empty payload's tag either.
    assert!(hako::client::decrypt_text(PASS, &salt(), &oneshot_nonce(), &[]).is_none());
    // Parameters of the wrong shape are refused without touching the data.
    assert!(hako::client::decrypt_text(PASS, &salt()[..31], &oneshot_nonce(), &[0; 16]).is_none());
}
