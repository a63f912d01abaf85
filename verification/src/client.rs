//! The client pipelines: everything a sender or recipient computes.
//!
//! The sender derives a key from passphrase and salt, seals the filename
//! with its own nonce, cuts the payload into blocks and seals each one,
//! and numbers the chunks from one with the last chunk marked. The
//! recipient runs the same derivation backwards. All randomness — salt and
//! nonces — enters as arguments; drawing them is a separate step, so that
//! everything after the draw is a function of its inputs.

use vstd::prelude::*;

use crate::crypto::aead_open;
use crate::crypto::aead_seal;
use crate::crypto::derive_key;
use crate::crypto::key_of;
use crate::crypto::random_bytes;
use crate::crypto::sealed_of;
use crate::crypto::SEAL_MAX;
use crate::stream::chunks_of;
use crate::stream::decrypt_stream;
use crate::stream::encrypt_stream;
use crate::stream::is_sealed_stream;
use crate::stream::seal_lengths_ok;
use crate::stream::stream_seal;
use crate::stream::MAX_STREAM_PLAINTEXT;
use crate::wire::MetadataResp;
use crate::{BLOCK_SIZE, ONESHOT_NONCE_LEN, SALT_LEN, STREAM_NONCE_LEN};

verus! {

/// What kind of payload an upload carries.
#[derive(PartialEq, Eq, Structural, Debug, Clone, Copy)]
pub enum UploadType {
    File,
    Text,
}

/// Why fetched metadata is unusable.
#[derive(PartialEq, Eq, Structural, Debug, Clone, Copy)]
pub enum MetadataError {
    /// The server answered not-found.
    FileNotFound,
    /// The server could not be reached or answered with another failure.
    NotAvailable,
    /// The body did not parse as a metadata response.
    Deserialize,
}

/// One chunk of an encrypted upload, ready to send: its sequence number —
/// counting from one — the last-chunk mark, and the block's ciphertext.
pub struct UploadChunk {
    pub seq: u64,
    pub is_last: bool,
    pub content: Vec<u8>,
}

/// A fully encrypted file upload: the public parameters to prepare with
/// and the chunks to send, in order.
pub struct FileUploadJob {
    pub salt: Vec<u8>,
    pub stream_nonce: Vec<u8>,
    pub filename_nonce: Vec<u8>,
    pub encrypted_filename: Vec<u8>,
    pub chunks: Vec<UploadChunk>,
}

/// Draws the random parameters of a file upload: a 32-byte salt, a
/// 19-byte stream nonce and a 24-byte filename nonce. Fails only if the
/// system's randomness does.
pub fn generate_file_params() -> (r: Option<(Vec<u8>, Vec<u8>, Vec<u8>)>)
    ensures
        r matches Some(p) ==> p.0@.len() == SALT_LEN && p.1@.len() == STREAM_NONCE_LEN && p.2@.len()
            == ONESHOT_NONCE_LEN,
{
    let salt = match random_bytes(SALT_LEN) {
        Some(v) => v,
        None => {
            return None;
        },
    };
    let stream_nonce = match random_bytes(STREAM_NONCE_LEN) {
        Some(v) => v,
        None => {
            return None;
        },
    };
    let filename_nonce = match random_bytes(ONESHOT_NONCE_LEN) {
        Some(v) => v,
        None => {
            return None;
        },
    };
    Some((salt, stream_nonce, filename_nonce))
}

/// Draws the random parameters of a text upload: a 32-byte salt and a
/// 24-byte one-shot nonce.
pub fn generate_text_params() -> (r: Option<(Vec<u8>, Vec<u8>)>)
    ensures
        r matches Some(p) ==> p.0@.len() == SALT_LEN && p.1@.len() == ONESHOT_NONCE_LEN,
{
    let salt = match random_bytes(SALT_LEN) {
        Some(v) => v,
        None => {
            return None;
        },
    };
    let nonce = match random_bytes(ONESHOT_NONCE_LEN) {
        Some(v) => v,
        None => {
            return None;
        },
    };
    Some((salt, nonce))
}

/// Encrypts a file upload under the given parameters: the filename sealed
/// with its own nonce, the payload cut into blocks and sealed as a
/// stream, chunk `i` carrying block `i` under sequence number `i + 1`,
/// and only the last chunk marked last.
pub fn encrypt_file_with(
    passphrase: &[u8],
    salt: Vec<u8>,
    stream_nonce: Vec<u8>,
    filename_nonce: Vec<u8>,
    filename: &[u8],
    content: &[u8],
) -> (job: FileUploadJob)
    requires
        salt@.len() == SALT_LEN,
        stream_nonce@.len() == STREAM_NONCE_LEN,
        filename_nonce@.len() == ONESHOT_NONCE_LEN,
        filename@.len() <= SEAL_MAX,
        content@.len() <= MAX_STREAM_PLAINTEXT,
    ensures
        ({
            let key = key_of(passphrase@, salt@);
            &&& job.salt@ == salt@
            &&& job.stream_nonce@ == stream_nonce@
            &&& job.filename_nonce@ == filename_nonce@
            &&& job.encrypted_filename@ == sealed_of(key, filename_nonce@, filename@)
            &&& job.chunks@.len() == (content@.len() as int) / (BLOCK_SIZE as int) + 1
            &&& job.chunks@.map_values(|c: UploadChunk| c.content@) == chunks_of(
                key,
                stream_nonce@,
                content@,
                0,
            )
            &&& forall|i: int|
                0 <= i < job.chunks@.len() ==> (#[trigger] job.chunks@[i]).seq == i + 1
                    && job.chunks@[i].is_last == (i == job.chunks@.len() - 1)
            &&& seal_lengths_ok(key, stream_nonce@, content@, 0)
            &&& is_sealed_stream(
                key,
                stream_nonce@,
                stream_seal(key, stream_nonce@, content@),
                content@,
            )
        }),
{
    let key = derive_key(passphrase, salt.as_slice());
    let encrypted_filename = aead_seal(key.as_slice(), filename_nonce.as_slice(), filename);
    let blocks = encrypt_stream(key.as_slice(), stream_nonce.as_slice(), content);
    let n = blocks.len();
    let mut blocks = blocks;
    let mut chunks: Vec<UploadChunk> = Vec::new();
    let mut i: usize = 0;
    proof {
        assert(crate::stream::chunk_views(blocks@) == chunks_of(
            key_of(passphrase@, salt@),
            stream_nonce@,
            content@,
            0,
        ));
    }
    let ghost all_blocks = blocks@;
    while i < n
        invariant
            n == all_blocks.len(),
            blocks@.len() == n - i,
            forall|j: int| 0 <= j < n - i ==> blocks@[j] == all_blocks[j + i],
            chunks@.len() == i,
            i <= n,
            n >= 1,
            forall|j: int|
                0 <= j < i ==> (#[trigger] chunks@[j]).seq == j + 1 && chunks@[j].is_last == (j == n
                    - 1) && chunks@[j].content@ == all_blocks[j]@,
        decreases n - i,
    {
        let block = blocks.remove(0);
        let is_last = i == n - 1;
        chunks.push(UploadChunk { seq: (i as u64) + 1, is_last, content: block });
        i = i + 1;
    }
    proof {
        assert(chunks@.map_values(|c: UploadChunk| c.content@) =~= crate::stream::chunk_views(
            all_blocks,
        ));
    }
    FileUploadJob { salt, stream_nonce, filename_nonce, encrypted_filename, chunks }
}

/// Decrypts a downloaded file: the filename from its sealed form, the
/// body from its ciphertext stream. Succeeds exactly on what
/// [`encrypt_file_with`] produced under the same passphrase and
/// parameters; a wrong passphrase, a damaged parameter or a damaged
/// stream fails, and no partial plaintext is surfaced.
pub fn decrypt_file(
    passphrase: &[u8],
    salt: &[u8],
    stream_nonce: &[u8],
    filename_nonce: &[u8],
    encrypted_filename: &[u8],
    body: &[u8],
) -> (r: Option<(Vec<u8>, Vec<u8>)>)
    ensures
        r matches Some(p) ==> {
            let key = key_of(passphrase@, salt@);
            &&& salt@.len() == SALT_LEN
            &&& stream_nonce@.len() == STREAM_NONCE_LEN
            &&& filename_nonce@.len() == ONESHOT_NONCE_LEN
            &&& encrypted_filename@ == sealed_of(key, filename_nonce@, p.0@)
            &&& body@ == stream_seal(key, stream_nonce@, p.1@)
        },
        forall|name: Seq<u8>, data: Seq<u8>|
            #![trigger sealed_of(key_of(passphrase@, salt@), filename_nonce@, name), is_sealed_stream(key_of(passphrase@, salt@), stream_nonce@, body@, data)]
            {
                let key = key_of(passphrase@, salt@);
                name.len() <= SEAL_MAX && salt@.len() == SALT_LEN && stream_nonce@.len()
                    == STREAM_NONCE_LEN && filename_nonce@.len() == ONESHOT_NONCE_LEN
                    && encrypted_filename@ == sealed_of(key, filename_nonce@, name)
                    && is_sealed_stream(key, stream_nonce@, body@, data)
            } ==> r is Some && (r->0).0@ == name && (r->0).1@ == data,
{
    if salt.len() != SALT_LEN || stream_nonce.len() != STREAM_NONCE_LEN || filename_nonce.len()
        != ONESHOT_NONCE_LEN {
        return None;
    }
    let key = derive_key(passphrase, salt);
    let name = match aead_open(key.as_slice(), filename_nonce, encrypted_filename) {
        Some(v) => v,
        None => {
            return None;
        },
    };
    let data = match decrypt_stream(key.as_slice(), stream_nonce, body) {
        Some(v) => v,
        None => {
            return None;
        },
    };
    Some((name, data))
}

/// Encrypts a text upload: one sealed block under the one-shot nonce,
/// sent as a single chunk.
pub fn encrypt_text_with(passphrase: &[u8], salt: Vec<u8>, nonce: Vec<u8>, text: &[u8]) -> (ct:
    Vec<u8>)
    requires
        salt@.len() == SALT_LEN,
        nonce@.len() == ONESHOT_NONCE_LEN,
        text@.len() <= SEAL_MAX,
    ensures
        ct@ == sealed_of(key_of(passphrase@, salt@), nonce@, text@),
        ct@.len() == text@.len() + 16,
{
    let key = derive_key(passphrase, salt.as_slice());
    aead_seal(key.as_slice(), nonce.as_slice(), text)
}

/// Decrypts a downloaded text. Succeeds exactly on what
/// [`encrypt_text_with`] produced under the same passphrase and
/// parameters, and then returns the text that was sealed.
pub fn decrypt_text(passphrase: &[u8], salt: &[u8], nonce: &[u8], ct: &[u8]) -> (r: Option<
    Vec<u8>,
>)
    ensures
        r matches Some(t) ==> salt@.len() == SALT_LEN && nonce@.len() == ONESHOT_NONCE_LEN && ct@
            == sealed_of(key_of(passphrase@, salt@), nonce@, t@),
        forall|text: Seq<u8>|
            text.len() <= SEAL_MAX && salt@.len() == SALT_LEN && nonce@.len() == ONESHOT_NONCE_LEN
                && ct@ == sealed_of(key_of(passphrase@, salt@), nonce@, text) ==> r is Some && r->0@
                == text,
{
    if salt.len() != SALT_LEN || nonce.len() != ONESHOT_NONCE_LEN {
        return None;
    }
    let key = derive_key(passphrase, salt);
    aead_open(key.as_slice(), nonce, ct)
}

/// Sorts a fetched metadata response: not-found and other failures are
/// told apart, and a body that did not parse is its own failure.
pub fn classify_metadata_response(status: u16, parsed: Option<MetadataResp>) -> (r: Result<
    MetadataResp,
    MetadataError,
>)
    ensures
        status == 404 ==> r == Err::<MetadataResp, MetadataError>(MetadataError::FileNotFound),
        status != 404 && status != 200 ==> r == Err::<MetadataResp, MetadataError>(
            MetadataError::NotAvailable,
        ),
        status == 200 && parsed is None ==> r == Err::<MetadataResp, MetadataError>(
            MetadataError::Deserialize,
        ),
        status == 200 && parsed is Some ==> r is Ok && r->Ok_0 == parsed->0,
{
    if status == 404 {
        return Err(MetadataError::FileNotFound);
    }
    if status != 200 {
        return Err(MetadataError::NotAvailable);
    }
    match parsed {
        Some(m) => Ok(m),
        None => Err(MetadataError::Deserialize),
    }
}

/// Advances a transfer's progress display: the running total grows by the
/// chunk just moved but never passes the payload size.
pub fn progress_after(done: usize, moved: usize, total: usize) -> (r: usize)
    requires
        done + moved <= usize::MAX,
    ensures
        r == if done + moved > total {
            total as int
        } else {
            done + moved
        },
{
    if done + moved > total {
        total
    } else {
        done + moved
    }
}

} // verus!
