//! Wire validation: field recognition, length checks, the big-endian and
//! decimal readings of identifiers.

use hako::bytes::{be_decode8, be_encode, parse_i64};
use hako::wire::{
    classify_prepare_field, classify_upload_field, parse_object_id, ApiError, PrepareBuilder,
    PrepareField, UploadBuilder, UploadField,
};

#[test]
fn field_names_are_recognized() {
    assert_eq!(classify_prepare_field(b"salt"), PrepareField::Salt);
    assert_eq!(classify_prepare_field(b"nonce"), PrepareField::Nonce);
    assert_eq!(
        classify_prepare_field(b"filename_nonce"),
        PrepareField::FilenameNonce
    );
    assert_eq!(classify_prepare_field(b"filename"), PrepareField::Filename);
    assert_eq!(classify_prepare_field(b"is_text"), PrepareField::IsText);
    assert_eq!(classify_prepare_field(b"salting"), PrepareField::Other);
    assert_eq!(classify_prepare_field(b""), PrepareField::Other);

    assert_eq!(classify_upload_field(b"id"), UploadField::Id);
    assert_eq!(classify_upload_field(b"seq"), UploadField::SeqNo);
    assert_eq!(classify_upload_field(b"is_last"), UploadField::IsLast);
    assert_eq!(classify_upload_field(b"content"), UploadField::Content);
    assert_eq!(classify_upload_field(b"contents"), UploadField::Other);
}

#[test]
fn prepare_file_mode() {
    let mut b = PrepareBuilder::new();
    b.apply_field(b"salt", vec![1u8; 32]).unwrap();
    b.apply_field(b"nonce", vec![2u8; 19]).unwrap();
    b.apply_field(b"filename_nonce", vec![3u8; 24]).unwrap();
    b.apply_field(b"filename", vec![4u8; 10]).unwrap();
    // An unrecognized field changes nothing.
    b.apply_field(b"color", vec![9u8; 3]).unwrap();
    let req = b.finish().unwrap();
    assert!(!req.is_text);
    assert_eq!(req.salt, vec![1u8; 32]);
    assert_eq!(req.nonce, vec![2u8; 19]);
}

#[test]
fn prepare_text_mode() {
    let mut b = PrepareBuilder::new();
    b.apply_field(b"salt", vec![1u8; 32]).unwrap();
    b.apply_field(b"nonce", vec![2u8; 24]).unwrap();
    b.apply_field(b"is_text", vec![1u8]).unwrap();
    let req = b.finish().unwrap();
    assert!(req.is_text);
    assert_eq!(req.filename, Vec::<u8>::new());
    assert_eq!(req.filename_nonce, Vec::<u8>::new());
}

#[test]
fn prepare_field_lengths_are_enforced() {
    let mut b = PrepareBuilder::new();
    assert_eq!(
        b.apply_field(b"salt", vec![1u8; 31]),
        Err(ApiError::BadRequest)
    );
    assert_eq!(
        b.apply_field(b"nonce", vec![2u8; 20]),
        Err(ApiError::BadRequest)
    );
    assert_eq!(
        b.apply_field(b"filename_nonce", vec![3u8; 23]),
        Err(ApiError::BadRequest)
    );
    assert_eq!(
        b.apply_field(b"is_text", vec![1u8, 0u8]),
        Err(ApiError::BadRequest)
    );
}

#[test]
fn prepare_missing_fields_are_refused() {
    // File mode without a filename nonce.
    let mut b = PrepareBuilder::new();
    b.apply_field(b"salt", vec![1u8; 32]).unwrap();
    b.apply_field(b"nonce", vec![2u8; 19]).unwrap();
    b.apply_field(b"filename", vec![4u8; 10]).unwrap();
    assert!(b.finish().is_err());

    // Text mode without a salt.
    let mut b = PrepareBuilder::new();
    b.apply_field(b"nonce", vec![2u8; 24]).unwrap();
    b.apply_field(b"is_text", vec![1u8]).unwrap();
    assert!(b.finish().is_err());
}

#[test]
fn prepare_nonce_must_match_mode() {
    // A 24-byte nonce in file mode is refused at the end.
    let mut b = PrepareBuilder::new();
    b.apply_field(b"salt", vec![1u8; 32]).unwrap();
    b.apply_field(b"nonce", vec![2u8; 24]).unwrap();
    b.apply_field(b"filename_nonce", vec![3u8; 24]).unwrap();
    b.apply_field(b"filename", vec![4u8; 10]).unwrap();
    assert!(b.finish().is_err());

    // A 19-byte nonce in text mode likewise.
    let mut b = PrepareBuilder::new();
    b.apply_field(b"salt", vec![1u8; 32]).unwrap();
    b.apply_field(b"nonce", vec![2u8; 19]).unwrap();
    b.apply_field(b"is_text", vec![1u8]).unwrap();
    assert!(b.finish().is_err());
}

#[test]
fn upload_fields_decode_big_endian() {
    let mut b = UploadBuilder::new();
    b.apply_field(b"id", 7i64.to_be_bytes().to_vec(), 128).unwrap();
    b.apply_field(b"seq", 2i64.to_be_bytes().to_vec(), 128).unwrap();
    b.apply_field(b"is_last", vec![1u8], 128).unwrap();
    b.apply_field(b"content", vec![5u8; 9], 128).unwrap();
    let req = b.finish(128).unwrap();
    assert_eq!(req.id, 7);
    assert_eq!(req.seq, 2);
    assert!(req.is_last);
    assert_eq!(req.content, vec![5u8; 9]);
}

#[test]
fn upload_seq_above_limit_is_refused() {
    let mut b = UploadBuilder::new();
    assert_eq!(
        b.apply_field(b"seq", 129i64.to_be_bytes().to_vec(), 128),
        Err(ApiError::BadRequest)
    );
    // A negative wire sequence number reads as a huge unsigned one.
    assert_eq!(
        b.apply_field(b"seq", (-1i64).to_be_bytes().to_vec(), 128),
        Err(ApiError::BadRequest)
    );
}

#[test]
fn upload_short_id_is_refused() {
    let mut b = UploadBuilder::new();
    assert_eq!(
        b.apply_field(b"id", vec![0u8; 7], 128),
        Err(ApiError::BadRequest)
    );
    assert_eq!(
        b.apply_field(b"is_last", vec![], 128),
        Err(ApiError::BadRequest)
    );
}

#[test]
fn upload_missing_field_is_refused() {
    let mut b = UploadBuilder::new();
    b.apply_field(b"id", 7i64.to_be_bytes().to_vec(), 128).unwrap();
    b.apply_field(b"seq", 1i64.to_be_bytes().to_vec(), 128).unwrap();
    b.apply_field(b"is_last", vec![0u8], 128).unwrap();
    assert!(b.finish(128).is_err());
}

#[test]
fn be_encoding_matches_std() {
    for v in [0u64, 1, 255, 256, 0x0102_0304_0506_0708, u64::MAX] {
        let enc = be_encode(v, 8);
        assert_eq!(enc, v.to_be_bytes().to_vec());
        assert_eq!(be_decode8(&enc), v);
    }
    assert_eq!(be_encode(0x01_0203, 4), vec![0u8, 1, 2, 3]);
}

#[test]
fn decimal_parsing_matches_std() {
    for s in [
        "0",
        "1",
        "-1",
        "+5",
        "9223372036854775807",
        "-9223372036854775808",
        "007",
    ] {
        assert_eq!(parse_i64(s.as_bytes()), Some(s.parse::<i64>().unwrap()));
    }
    for s in [
        "",
        "-",
        "+",
        "12a",
        " 1",
        "9223372036854775808",
        "-9223372036854775809",
        "1.5",
        "--2",
    ] {
        assert!(s.parse::<i64>().is_err());
        assert_eq!(parse_i64(s.as_bytes()), None);
    }
}

#[test]
fn object_id_must_be_positive() {
    assert_eq!(parse_object_id(b"12"), Ok(12));
    assert_eq!(parse_object_id(b"0"), Err(ApiError::BadRequest));
    assert_eq!(parse_object_id(b"-4"), Err(ApiError::BadRequest));
    assert_eq!(parse_object_id(b"x"), Err(ApiError::BadRequest));
    assert_eq!(parse_object_id(b""), Err(ApiError::BadRequest));
}
