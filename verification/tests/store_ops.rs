//! The object store: lifecycle, chunk discipline, sizes, and expiry.

use hako::store::{Store, StoreError};

fn params_file() -> (Vec<u8>, Vec<u8>, Vec<u8>, Vec<u8>) {
    let salt = vec![1u8; 32];
    let nonce = vec![2u8; 19];
    let filename_nonce = vec![3u8; 24];
    let filename = vec![4u8; 40];
    (salt, nonce, filename_nonce, filename)
}

fn new_file(store: &mut Store, now: u64) -> u64 {
    let (salt, nonce, filename_nonce, filename) = params_file();
    store.create_file(salt, nonce, filename_nonce, filename, false, now)
}

#[test]
fn ids_are_monotonic() {
    let mut store = Store::new(128);
    assert_eq!(new_file(&mut store, 0), 1);
    assert_eq!(new_file(&mut store, 0), 2);
    assert_eq!(new_file(&mut store, 5), 3);
}

#[test]
fn incomplete_file_is_hidden() {
    let mut store = Store::new(128);
    let id = new_file(&mut store, 0);
    assert!(store.get_metadata(id).is_none());
    store.append_chunk(id, 1, vec![9u8; 10], false).unwrap();
    assert!(store.get_metadata(id).is_none());
    assert!(matches!(
        store.read_file_content(id),
        Err(StoreError::NotFound)
    ));
}

#[test]
fn complete_file_metadata_and_content() {
    let mut store = Store::new(128);
    let id = new_file(&mut store, 0);
    store.append_chunk(id, 1, vec![9u8; 10], false).unwrap();
    store.append_chunk(id, 2, vec![8u8; 6], true).unwrap();
    let m = store.get_metadata(id).expect("complete file is served");
    assert_eq!(m.size, 16);
    assert!(!m.is_text);
    assert_eq!(m.salt, vec![1u8; 32]);
    assert_eq!(m.nonce, vec![2u8; 19]);
    assert_eq!(m.filename_nonce, vec![3u8; 24]);
    assert_eq!(m.filename, vec![4u8; 40]);
    let content = store.read_file_content(id).unwrap();
    assert_eq!(content, vec![vec![9u8; 10], vec![8u8; 6]]);
    assert_eq!(store.get_last_seq(id), Some(2));
    assert_eq!(store.read_chunk(id, 2), Some(vec![8u8; 6]));
    assert_eq!(store.read_chunk(id, 3), None);
}

#[test]
fn seq_must_increase() {
    let mut store = Store::new(128);
    let id = new_file(&mut store, 0);
    store.append_chunk(id, 2, vec![1], false).unwrap();
    // At or below the greatest accepted sequence number: refused.
    assert_eq!(
        store.append_chunk(id, 2, vec![2], false),
        Err(StoreError::Conflict)
    );
    assert_eq!(
        store.append_chunk(id, 1, vec![3], false),
        Err(StoreError::Conflict)
    );
    // Above it: accepted, gaps and all.
    store.append_chunk(id, 5, vec![4], false).unwrap();
}

#[test]
fn seq_zero_and_above_limit_are_refused() {
    let mut store = Store::new(3);
    let id = new_file(&mut store, 0);
    assert_eq!(
        store.append_chunk(id, 0, vec![1], false),
        Err(StoreError::Conflict)
    );
    assert_eq!(
        store.append_chunk(id, 4, vec![1], false),
        Err(StoreError::Conflict)
    );
    store.append_chunk(id, 3, vec![1], false).unwrap();
}

#[test]
fn unknown_id_is_not_found() {
    let mut store = Store::new(128);
    assert_eq!(
        store.append_chunk(7, 1, vec![1], false),
        Err(StoreError::NotFound)
    );
    assert!(store.get_metadata(7).is_none());
    assert_eq!(store.get_last_seq(7), None);
}

#[test]
fn complete_file_takes_no_more_chunks() {
    let mut store = Store::new(128);
    let id = new_file(&mut store, 0);
    store.append_chunk(id, 1, vec![1], true).unwrap();
    assert_eq!(
        store.append_chunk(id, 2, vec![2], false),
        Err(StoreError::Conflict)
    );
}

#[test]
fn gap_in_chunks_is_corrupt_on_download() {
    let mut store = Store::new(128);
    let id = new_file(&mut store, 0);
    store.append_chunk(id, 1, vec![1], false).unwrap();
    store.append_chunk(id, 3, vec![3], true).unwrap();
    assert!(store.get_metadata(id).is_some());
    assert!(matches!(
        store.read_file_content(id),
        Err(StoreError::Corrupt)
    ));
}

#[test]
fn expiry_hides_object() {
    let mut store = Store::new(128);
    let id = new_file(&mut store, 0);
    store.append_chunk(id, 1, vec![1u8; 100], true).unwrap();
    assert!(store.get_metadata(id).is_some());

    // Uploaded at time zero, reclaimed two seconds later with a one-second
    // expiry: gone.
    let removed = store.gc_expired(2, 1);
    assert_eq!(removed, vec![id]);
    assert!(store.get_metadata(id).is_none());
    assert!(matches!(
        store.read_file_content(id),
        Err(StoreError::NotFound)
    ));

    // A second pass retires nothing new.
    assert_eq!(store.gc_expired(3, 1), Vec::<u64>::new());
}

#[test]
fn gc_spares_fresh_objects() {
    let mut store = Store::new(128);
    let old_id = new_file(&mut store, 0);
    store.append_chunk(old_id, 1, vec![1], true).unwrap();
    let fresh_id = new_file(&mut store, 100);
    store.append_chunk(fresh_id, 1, vec![2], true).unwrap();

    let removed = store.gc_expired(100, 60);
    assert_eq!(removed, vec![old_id]);
    assert!(store.get_metadata(old_id).is_none());
    assert!(store.get_metadata(fresh_id).is_some());

    // Unset or zero expiry would be a disabled worker; with a large `now`
    // and zero expiry every object would qualify, so the worker is only
    // ever ticked when enabled.
    assert_eq!(store.gc_expired(100, 60), Vec::<u64>::new());
}

#[test]
fn text_mode_record() {
    let mut store = Store::new(128);
    let id = store.create_file(vec![1u8; 32], vec![2u8; 24], Vec::new(), Vec::new(), true, 0);
    store.append_chunk(id, 1, vec![5u8; 35], true).unwrap();
    let m = store.get_metadata(id).unwrap();
    assert!(m.is_text);
    assert_eq!(m.size, 35);
    assert_eq!(m.filename, Vec::<u8>::new());
    assert_eq!(m.filename_nonce, Vec::<u8>::new());
}

#[test]
fn limit_of_one_chunk() {
    let mut store = Store::new(1);
    let id = new_file(&mut store, 0);
    store.append_chunk(id, 1, vec![1], true).unwrap();
    assert_eq!(store.get_metadata(id).unwrap().size, 1);
}
