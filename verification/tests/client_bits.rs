//! The client's smaller pieces: parameter drawing, metadata
//! classification, progress accounting.

use hako::client::{
    classify_metadata_response, generate_file_params, generate_text_params, progress_after,
    MetadataError,
};
use hako::wire::MetadataResp;

fn meta() -> MetadataResp {
    MetadataResp {
        filename: vec![1],
        salt: vec![2; 32],
        nonce: vec![3; 19],
        filename_nonce: vec![4; 24],
        is_text: false,
        size: 99,
    }
}

#[test]
fn drawn_parameters_have_their_lengths() {
    let (salt, stream_nonce, filename_nonce) =
        generate_file_params().expect("system randomness");
    assert_eq!(salt.len(), 32);
    assert_eq!(stream_nonce.len(), 19);
    assert_eq!(filename_nonce.len(), 24);

    let (salt2, nonce) = generate_text_params().expect("system randomness");
    assert_eq!(salt2.len(), 32);
    assert_eq!(nonce.len(), 24);
    // Two independent draws of 32 bytes never coincide in practice.
    assert_ne!(salt, salt2);
}

#[test]
fn metadata_responses_are_classified() {
    assert!(matches!(
        classify_metadata_response(404, Some(meta())),
        Err(MetadataError::FileNotFound)
    ));
    assert!(matches!(
        classify_metadata_response(500, Some(meta())),
        Err(MetadataError::NotAvailable)
    ));
    assert!(matches!(
        classify_metadata_response(200, None),
        Err(MetadataError::Deserialize)
    ));
    let ok = classify_metadata_response(200, Some(meta())).expect("parsed body");
    assert_eq!(ok.size, 99);
}

#[test]
fn progress_is_clamped_to_the_total() {
    assert_eq!(progress_after(0, 10, 100), 10);
    assert_eq!(progress_after(95, 10, 100), 100);
    assert_eq!(progress_after(0, 0, 0), 0);
}
