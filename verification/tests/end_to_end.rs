//! The whole exchange without a network: the sender's pipeline feeds the
//! wire builders and the store through the handler cores, and the
//! recipient decrypts what the download handler serves.

use hako::bytes::be_encode;
use hako::stream::concat_chunks;
use hako::client::{decrypt_file, decrypt_text, encrypt_file_with, encrypt_text_with};
use hako::server::{handle_download, handle_metadata, handle_prepare, handle_upload};
use hako::store::Store;
use hako::wire::{ApiError, PrepareBuilder, UploadBuilder};
use hako::BLOCK_OVERHEAD;

const PASS: &[u8] = b"correct horse battery staple";
const LIMIT: u64 = 128;

fn upload_chunk(
    store: &mut Store,
    id: i64,
    seq: u64,
    is_last: bool,
    content: &[u8],
) -> Result<(), ApiError> {
    let mut b = UploadBuilder::new();
    b.apply_field(b"id", be_encode(id as u64, 8), LIMIT)?;
    b.apply_field(b"seq", be_encode(seq, 8), LIMIT)?;
    b.apply_field(b"is_last", vec![if is_last { 1 } else { 0 }], LIMIT)?;
    b.apply_field(b"content", content.to_vec(), LIMIT)?;
    let req = b.finish(LIMIT)?;
    handle_upload(store, req)
}

#[test]
fn file_exchange() {
    let mut store = Store::new(LIMIT);

    // Sender side: derive, seal, prepare, upload chunk by chunk.
    let content = vec![0x61u8; 5000];
    let job = encrypt_file_with(
        PASS,
        vec![7u8; 32],
        vec![8u8; 19],
        vec![9u8; 24],
        b"hello.txt",
        &content,
    );
    let mut pb = PrepareBuilder::new();
    pb.apply_field(b"salt", job.salt.clone()).unwrap();
    pb.apply_field(b"nonce", job.stream_nonce.clone()).unwrap();
    pb.apply_field(b"filename_nonce", job.filename_nonce.clone())
        .unwrap();
    pb.apply_field(b"filename", job.encrypted_filename.clone())
        .unwrap();
    let resp = handle_prepare(&mut store, pb.finish().unwrap(), 0).unwrap();
    assert_eq!(resp.id, 1);

    for c in &job.chunks {
        upload_chunk(&mut store, resp.id, c.seq, c.is_last, &c.content).unwrap();
    }

    // Recipient side: metadata, download, decrypt.
    let meta = handle_metadata(&store, b"1").unwrap();
    assert!(!meta.is_text);
    assert_eq!(meta.size, 5000 + BLOCK_OVERHEAD as i64);
    let chunks = handle_download(&store, b"1").unwrap();
    let body = concat_chunks(&chunks);
    let (name, data) = decrypt_file(
        PASS,
        &meta.salt,
        &meta.nonce,
        &meta.filename_nonce,
        &meta.filename,
        &body,
    )
    .expect("the exchange must round-trip");
    assert_eq!(name, b"hello.txt".to_vec());
    assert_eq!(data, content);
}

#[test]
fn text_exchange() {
    let mut store = Store::new(LIMIT);

    let text = "The quick brown fox";
    let ct = encrypt_text_with(PASS, vec![7u8; 32], vec![8u8; 24], text.as_bytes());
    let mut pb = PrepareBuilder::new();
    pb.apply_field(b"salt", vec![7u8; 32]).unwrap();
    pb.apply_field(b"nonce", vec![8u8; 24]).unwrap();
    pb.apply_field(b"is_text", vec![1]).unwrap();
    let resp = handle_prepare(&mut store, pb.finish().unwrap(), 0).unwrap();

    upload_chunk(&mut store, resp.id, 1, true, &ct).unwrap();

    let meta = handle_metadata(&store, b"1").unwrap();
    assert!(meta.is_text);
    assert_eq!(meta.size, text.len() as i64 + BLOCK_OVERHEAD as i64);
    let chunks = handle_download(&store, b"1").unwrap();
    let body = concat_chunks(&chunks);
    let out = decrypt_text(PASS, &meta.salt, &meta.nonce, &body).expect("round trip");
    assert_eq!(String::from_utf8(out).unwrap(), text);
}

#[test]
fn bad_ids_and_missing_objects() {
    let mut store = Store::new(LIMIT);
    assert_eq!(handle_metadata(&store, b"zero").unwrap_err(), ApiError::BadRequest);
    assert_eq!(handle_metadata(&store, b"0").unwrap_err(), ApiError::BadRequest);
    assert_eq!(handle_metadata(&store, b"1").unwrap_err(), ApiError::NotFound);
    assert_eq!(handle_download(&store, b"-9").unwrap_err(), ApiError::BadRequest);
    assert_eq!(handle_download(&store, b"3").unwrap_err(), ApiError::NotFound);

    // An upload for an id never prepared is a store failure.
    assert_eq!(
        upload_chunk(&mut store, 5, 1, true, b"x").unwrap_err(),
        ApiError::Internal
    );
}

#[test]
fn out_of_order_upload_is_a_store_failure() {
    let mut store = Store::new(LIMIT);
    let ct = encrypt_text_with(PASS, vec![7u8; 32], vec![8u8; 24], b"hi");
    let mut pb = PrepareBuilder::new();
    pb.apply_field(b"salt", vec![7u8; 32]).unwrap();
    pb.apply_field(b"nonce", vec![8u8; 24]).unwrap();
    pb.apply_field(b"is_text", vec![1]).unwrap();
    let resp = handle_prepare(&mut store, pb.finish().unwrap(), 0).unwrap();

    upload_chunk(&mut store, resp.id, 2, false, &ct).unwrap();
    assert_eq!(
        upload_chunk(&mut store, resp.id, 2, false, &ct).unwrap_err(),
        ApiError::Internal
    );
    assert_eq!(
        upload_chunk(&mut store, resp.id, 1, false, &ct).unwrap_err(),
        ApiError::Internal
    );
}

#[test]
fn expiry_through_handlers() {
    let mut store = Store::new(LIMIT);
    let ct = encrypt_text_with(PASS, vec![7u8; 32], vec![8u8; 24], b"soon gone");
    let mut pb = PrepareBuilder::new();
    pb.apply_field(b"salt", vec![7u8; 32]).unwrap();
    pb.apply_field(b"nonce", vec![8u8; 24]).unwrap();
    pb.apply_field(b"is_text", vec![1]).unwrap();
    let resp = handle_prepare(&mut store, pb.finish().unwrap(), 0).unwrap();
    upload_chunk(&mut store, resp.id, 1, true, &ct).unwrap();
    assert!(handle_metadata(&store, b"1").is_ok());

    let removed = store.gc_expired(2, 1);
    assert_eq!(removed, vec![1]);
    assert_eq!(handle_metadata(&store, b"1").unwrap_err(), ApiError::NotFound);
    assert_eq!(handle_download(&store, b"1").unwrap_err(), ApiError::NotFound);
}
