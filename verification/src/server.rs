//! The server handlers' decision cores.
//!
//! Each function takes a validated request and the store, performs the
//! operation, and says exactly which requests succeed and which error each
//! failure maps to; the surrounding process turns [`ApiError`] values into
//! status codes and bodies.

use vstd::prelude::*;

use crate::bytes::dec_i64_val;
use crate::bytes::parses_as_i64;
use crate::store::accepts_seq;
use crate::store::appended;
use crate::store::contents_of;
use crate::store::contiguous;
use crate::store::file_of;
use crate::store::file_visible;
use crate::store::has_id;
use crate::store::params_wf;
use crate::store::store_wf;
use crate::store::Store;
use crate::store::StoreError;
use crate::store::total_size;
use crate::wire::ApiError;
use crate::wire::MetadataResp;
use crate::wire::parse_object_id;
use crate::wire::PrepareRequest;
use crate::wire::PrepareUploadResp;
use crate::wire::UploadRequest;
use crate::UPLOAD_LENGTH_LIMIT;

verus! {

/// Creates the object of a prepare request and answers with its id.
/// The request must already be validated — the builder's product always
/// is. Fails only when the store cannot hold another id.
pub fn handle_prepare(store: &mut Store, req: PrepareRequest, now: u64) -> (r: Result<
    PrepareUploadResp,
    ApiError,
>)
    requires
        store_wf(*old(store)),
        params_wf(req.salt@, req.nonce@, req.filename_nonce@, req.filename@, req.is_text),
    ensures
        store_wf(*final(store)),
        final(store).chunk_count_limit == old(store).chunk_count_limit,
        r is Ok <==> old(store).files@.len() + 1 < 0x8000_0000_0000_0000,
        r is Err ==> r == Err::<PrepareUploadResp, ApiError>(ApiError::Internal) && *final(store)
            == *old(store),
        r matches Ok(resp) ==> {
            &&& resp.id == old(store).files@.len() + 1
            &&& resp.id >= 1
            &&& final(store).files@.len() == old(store).files@.len() + 1
            &&& forall|i: int|
                0 <= i < old(store).files@.len() ==> final(store).files@[i] == old(
                    store,
                ).files@[i]
            &&& ({
                let f = file_of(final(store).files@, resp.id as u64);
                &&& f.salt@ == req.salt@
                &&& f.nonce@ == req.nonce@
                &&& f.filename_nonce@ == req.filename_nonce@
                &&& f.filename@ == req.filename@
                &&& f.is_text == req.is_text
                &&& !f.upload_complete
                &&& f.available
                &&& f.created_at == now
                &&& f.chunks@.len() == 0
            })
        },
{
    if store.files.len() as u64 >= 0x7fff_ffff_ffff_ffff {
        return Err(ApiError::Internal);
    }
    let PrepareRequest { salt, nonce, filename_nonce, filename, is_text } = req;
    let id = store.create_file(salt, nonce, filename_nonce, filename, is_text, now);
    Ok(PrepareUploadResp { id: id as i64 })
}

/// Appends the chunk of an upload request. A chunk the store refuses —
/// unknown id, sequence number not above every accepted one, object
/// complete or retired — is a store failure, as it is when a constraint
/// rejects the row.
pub fn handle_upload(store: &mut Store, req: UploadRequest) -> (r: Result<(), ApiError>)
    requires
        store_wf(*old(store)),
        req.content@.len() <= UPLOAD_LENGTH_LIMIT,
    ensures
        store_wf(*final(store)),
        final(store).chunk_count_limit == old(store).chunk_count_limit,
        r is Ok <==> has_id(old(store).files@, req.id) && accepts_seq(
            file_of(old(store).files@, req.id),
            req.seq,
            old(store).chunk_count_limit,
        ),
        r is Ok ==> appended(
            old(store).files@,
            final(store).files@,
            req.id,
            req.seq,
            req.content@,
            req.is_last,
        ),
        r is Err ==> r == Err::<(), ApiError>(ApiError::Internal) && final(store).files@ == old(
            store,
        ).files@,
{
    let UploadRequest { id, seq, is_last, content } = req;
    match store.append_chunk(id, seq, content, is_last) {
        Ok(()) => Ok(()),
        Err(_) => Err(ApiError::Internal),
    }
}

/// Answers a metadata query. The id must be a positive decimal integer,
/// else bad request; it must name a served object, else not found.
pub fn handle_metadata(store: &Store, id_param: &[u8]) -> (r: Result<MetadataResp, ApiError>)
    requires
        store_wf(*store),
    ensures
        r is Ok <==> parses_as_i64(id_param@) && dec_i64_val(id_param@) > 0 && file_visible(
            store.files@,
            dec_i64_val(id_param@) as u64,
        ),
        r == Err::<MetadataResp, ApiError>(ApiError::BadRequest) <==> !(parses_as_i64(id_param@)
            && dec_i64_val(id_param@) > 0),
        r matches Ok(m) ==> {
            let f = file_of(store.files@, dec_i64_val(id_param@) as u64);
            &&& m.filename@ == f.filename@
            &&& m.salt@ == f.salt@
            &&& m.nonce@ == f.nonce@
            &&& m.filename_nonce@ == f.filename_nonce@
            &&& m.is_text == f.is_text
            &&& m.size == total_size(f.chunks@)
        },
{
    let id = match parse_object_id(id_param) {
        Ok(id) => id,
        Err(e) => {
            return Err(e);
        },
    };
    match store.get_metadata(id) {
        Some(m) => Ok(m),
        None => Err(ApiError::NotFound),
    }
}

/// Answers a download query with the object's chunks in sequence order.
/// The id must be a positive decimal integer, else bad request; it must
/// name a served object, else not found; a served object whose chunks do
/// not cover `1 ..= n` is a store failure.
pub fn handle_download(store: &Store, id_param: &[u8]) -> (r: Result<Vec<Vec<u8>>, ApiError>)
    requires
        store_wf(*store),
    ensures
        r is Ok <==> parses_as_i64(id_param@) && dec_i64_val(id_param@) > 0 && file_visible(
            store.files@,
            dec_i64_val(id_param@) as u64,
        ) && contiguous(file_of(store.files@, dec_i64_val(id_param@) as u64).chunks@),
        r == Err::<Vec<Vec<u8>>, ApiError>(ApiError::BadRequest) <==> !(parses_as_i64(id_param@)
            && dec_i64_val(id_param@) > 0),
        r matches Ok(v) ==> crate::stream::chunk_views(v@) == contents_of(
            file_of(store.files@, dec_i64_val(id_param@) as u64),
        ),
        r == Err::<Vec<Vec<u8>>, ApiError>(ApiError::NotFound) <==> parses_as_i64(id_param@)
            && dec_i64_val(id_param@) > 0 && !file_visible(
            store.files@,
            dec_i64_val(id_param@) as u64,
        ),
{
    let id = match parse_object_id(id_param) {
        Ok(id) => id,
        Err(e) => {
            return Err(e);
        },
    };
    match store.read_file_content(id) {
        Ok(v) => Ok(v),
        Err(StoreError::NotFound) => Err(ApiError::NotFound),
        Err(_) => Err(ApiError::Internal),
    }
}

} // verus!
