//! The server-side chunked object store.
//!
//! One record per upload, holding the public parameters and an append-only
//! chunk table keyed by a strictly increasing sequence number. A record is
//! created by the prepare step, completed by the chunk that carries the
//! last-block mark, served only while complete and available, and retired —
//! chunks deleted, `available` cleared — once it outlives the expiry.
//!
//! Identifiers are positive and assigned in insertion order; record `id`
//! lives at index `id - 1`, so ids are monotonically unique for the life of
//! the store.

use vstd::pervasive::VecAdditionalExecFns;
use vstd::prelude::*;

use crate::{ONESHOT_NONCE_LEN, SALT_LEN, STREAM_NONCE_LEN, UPLOAD_LENGTH_LIMIT};

verus! {

/// One stored ciphertext chunk.
pub struct StoredChunk {
    pub seq: u64,
    pub content: Vec<u8>,
}

/// One uploaded object: its public parameters and its chunks.
pub struct FileRecord {
    pub salt: Vec<u8>,
    pub nonce: Vec<u8>,
    pub filename_nonce: Vec<u8>,
    pub filename: Vec<u8>,
    pub is_text: bool,
    pub upload_complete: bool,
    pub available: bool,
    pub created_at: u64,
    pub chunks: Vec<StoredChunk>,
}

/// The chunked object store.
pub struct Store {
    pub files: Vec<FileRecord>,
    pub chunk_count_limit: u64,
}

/// Errors a store operation reports.
#[derive(PartialEq, Eq, Structural, Debug, Clone, Copy)]
pub enum StoreError {
    /// No such object, or it is not being served.
    NotFound,
    /// The chunk is refused: sequence number out of range or not above
    /// every sequence already accepted, or the object takes no more chunks.
    Conflict,
    /// The stored chunks do not form the contiguous range a complete
    /// object must have.
    Corrupt,
}

/// Largest chunk-count limit a store accepts; keeps every size sum within
/// a signed 64-bit count.
pub const CHUNK_COUNT_LIMIT_MAX: u64 = 0x1_0000_0000;

/// Whether the public parameters of a record fit its mode: a text object
/// carries a 24-byte one-shot nonce and no filename; a file object carries
/// a 19-byte stream nonce, a 24-byte filename nonce, and a sealed filename.
pub open spec fn params_wf(
    salt: Seq<u8>,
    nonce: Seq<u8>,
    filename_nonce: Seq<u8>,
    filename: Seq<u8>,
    is_text: bool,
) -> bool {
    &&& salt.len() == SALT_LEN
    &&& if is_text {
        nonce.len() == ONESHOT_NONCE_LEN && filename_nonce.len() == 0 && filename.len() == 0
    } else {
        nonce.len() == STREAM_NONCE_LEN && filename_nonce.len() == ONESHOT_NONCE_LEN
    }
}

/// Well-formedness of one record under the store's chunk-count limit.
pub open spec fn file_wf(f: FileRecord, limit: u64) -> bool {
    &&& params_wf(f.salt@, f.nonce@, f.filename_nonce@, f.filename@, f.is_text)
    &&& forall|i: int, j: int|
        0 <= i < j < f.chunks@.len() ==> #[trigger] f.chunks@[i].seq < #[trigger] f.chunks@[j].seq
    &&& forall|i: int|
        0 <= i < f.chunks@.len() ==> 1 <= (#[trigger] f.chunks@[i]).seq <= limit
            && f.chunks@[i].content@.len() <= UPLOAD_LENGTH_LIMIT
    &&& f.upload_complete && f.available ==> f.chunks@.len() >= 1
    &&& !f.available ==> f.chunks@.len() == 0
}

/// Well-formedness of the whole store.
pub open spec fn store_wf(s: Store) -> bool {
    &&& 1 <= s.chunk_count_limit <= CHUNK_COUNT_LIMIT_MAX
    &&& s.files@.len() < 0x8000_0000_0000_0000
    &&& forall|i: int| 0 <= i < s.files@.len() ==> file_wf(#[trigger] s.files@[i], s.chunk_count_limit)
}

/// Whether `id` names a record.
pub open spec fn has_id(files: Seq<FileRecord>, id: u64) -> bool {
    1 <= id <= files.len()
}

/// The record that `id` names.
pub open spec fn file_of(files: Seq<FileRecord>, id: u64) -> FileRecord
    recommends
        has_id(files, id),
{
    files[id - 1]
}

/// Whether `id` is served: it names a completed, not yet retired object.
pub open spec fn file_visible(files: Seq<FileRecord>, id: u64) -> bool {
    has_id(files, id) && file_of(files, id).upload_complete && file_of(files, id).available
}

/// The greatest sequence number accepted so far, `0` before any.
pub open spec fn max_seq(f: FileRecord) -> u64 {
    if f.chunks@.len() == 0 {
        0
    } else {
        f.chunks@.last().seq
    }
}

/// Whether a record accepts a chunk numbered `seq`.
pub open spec fn accepts_seq(f: FileRecord, seq: u64, limit: u64) -> bool {
    &&& 1 <= seq <= limit
    &&& seq > max_seq(f)
    &&& !f.upload_complete
    &&& f.available
}

/// The contents of a record's chunks, in sequence order.
pub open spec fn contents_of(f: FileRecord) -> Seq<Seq<u8>> {
    f.chunks@.map_values(|c: StoredChunk| c.content@)
}

/// The total stored size of a record: the sum of its chunk lengths.
pub open spec fn total_size(chunks: Seq<StoredChunk>) -> int
    decreases chunks.len(),
{
    if chunks.len() == 0 {
        0
    } else {
        total_size(chunks.drop_last()) + chunks.last().content@.len()
    }
}

/// Whether the chunks cover exactly the sequence numbers `1 ..= len`.
pub open spec fn contiguous(chunks: Seq<StoredChunk>) -> bool {
    forall|i: int| 0 <= i < chunks.len() ==> (#[trigger] chunks[i]).seq == i + 1
}

/// What accepting chunk `(seq, content)` does to the files: the addressed
/// record gains the chunk at the end of its table and is complete exactly
/// when the chunk carried the last mark; every other record is untouched.
pub open spec fn appended(
    before: Seq<FileRecord>,
    after: Seq<FileRecord>,
    id: u64,
    seq: u64,
    content: Seq<u8>,
    is_last: bool,
) -> bool {
    let f = file_of(before, id);
    let g = file_of(after, id);
    &&& after.len() == before.len()
    &&& forall|i: int| 0 <= i < before.len() && i != id - 1 ==> after[i] == before[i]
    &&& g.chunks@.len() == f.chunks@.len() + 1
    &&& g.chunks@.drop_last() == f.chunks@
    &&& g.chunks@.last().seq == seq
    &&& g.chunks@.last().content@ == content
    &&& g.upload_complete == is_last
    &&& g.salt == f.salt
    &&& g.nonce == f.nonce
    &&& g.filename_nonce == f.filename_nonce
    &&& g.filename == f.filename
    &&& g.is_text == f.is_text
    &&& g.available
    &&& g.created_at == f.created_at
}

/// Whether a record has outlived the expiry at time `now`.
pub open spec fn is_expired(f: FileRecord, now: u64, expiry: u64) -> bool {
    now > f.created_at + expiry
}

/// What one reclamation pass does to one record: an expired record loses
/// its chunks and stops being served, any other is untouched.
pub open spec fn gc_file_rel(f: FileRecord, g: FileRecord, now: u64, expiry: u64) -> bool {
    if is_expired(f, now, expiry) {
        &&& g.salt == f.salt
        &&& g.nonce == f.nonce
        &&& g.filename_nonce == f.filename_nonce
        &&& g.filename == f.filename
        &&& g.is_text == f.is_text
        &&& g.upload_complete == f.upload_complete
        &&& g.created_at == f.created_at
        &&& !g.available
        &&& g.chunks@.len() == 0
    } else {
        g == f
    }
}

/// What one reclamation pass leaves behind: every expired record loses its
/// chunks and stops being served; every other record is untouched.
pub open spec fn gc_rel(before: Seq<FileRecord>, after: Seq<FileRecord>, now: u64, expiry: u64) -> bool {
    &&& after.len() == before.len()
    &&& forall|i: int|
        0 <= i < before.len() ==> gc_file_rel(
            #[trigger] before[i],
            #[trigger] after[i],
            now,
            expiry,
        )
}

/// Every sequence number sits at or above its position, so a record can
/// never hold more chunks than its limit allows.
proof fn lemma_chunk_position_bound(chunks: Seq<StoredChunk>, limit: u64, i: int)
    requires
        forall|a: int, b: int|
            0 <= a < b < chunks.len() ==> #[trigger] chunks[a].seq < #[trigger] chunks[b].seq,
        forall|a: int| 0 <= a < chunks.len() ==> 1 <= (#[trigger] chunks[a]).seq <= limit,
        0 <= i < chunks.len(),
    ensures
        chunks[i].seq >= i + 1,
    decreases i,
{
    if i > 0 {
        lemma_chunk_position_bound(chunks, limit, i - 1);
    }
}

/// A record's chunk count never exceeds its limit.
proof fn lemma_chunk_count_bound(chunks: Seq<StoredChunk>, limit: u64)
    requires
        forall|a: int, b: int|
            0 <= a < b < chunks.len() ==> #[trigger] chunks[a].seq < #[trigger] chunks[b].seq,
        forall|a: int| 0 <= a < chunks.len() ==> 1 <= (#[trigger] chunks[a]).seq <= limit,
    ensures
        chunks.len() <= limit,
{
    if chunks.len() > 0 {
        lemma_chunk_position_bound(chunks, limit, chunks.len() - 1);
    }
}

/// The total size is at most one upload limit per chunk.
proof fn lemma_total_size_bound(chunks: Seq<StoredChunk>)
    requires
        forall|a: int|
            0 <= a < chunks.len() ==> (#[trigger] chunks[a]).content@.len()
                <= UPLOAD_LENGTH_LIMIT,
    ensures
        0 <= total_size(chunks) <= chunks.len() * (UPLOAD_LENGTH_LIMIT as int),
    decreases chunks.len(),
{
    if chunks.len() > 0 {
        assert(forall|a: int|
            0 <= a < chunks.drop_last().len() ==> (#[trigger] chunks.drop_last()[a]).content@.len()
                <= UPLOAD_LENGTH_LIMIT);
        lemma_total_size_bound(chunks.drop_last());
        crate::stream::lemma_mul_step(chunks.len() - 1, UPLOAD_LENGTH_LIMIT as int);
    }
}

impl Store {
    /// A fresh, empty store.
    pub fn new(chunk_count_limit: u64) -> (s: Store)
        requires
            1 <= chunk_count_limit <= CHUNK_COUNT_LIMIT_MAX,
        ensures
            store_wf(s),
            s.files@.len() == 0,
            s.chunk_count_limit == chunk_count_limit,
    {
        Store { files: Vec::new(), chunk_count_limit }
    }

    /// Creates the record of a new upload: parameters as given, no chunks,
    /// not complete, served, stamped with `now`. Returns the new id — one
    /// above every id assigned before, so ids are monotonically unique.
    pub fn create_file(
        &mut self,
        salt: Vec<u8>,
        nonce: Vec<u8>,
        filename_nonce: Vec<u8>,
        filename: Vec<u8>,
        is_text: bool,
        now: u64,
    ) -> (id: u64)
        requires
            store_wf(*old(self)),
            params_wf(salt@, nonce@, filename_nonce@, filename@, is_text),
            old(self).files@.len() + 1 < 0x8000_0000_0000_0000,
        ensures
            store_wf(*final(self)),
            final(self).chunk_count_limit == old(self).chunk_count_limit,
            id == old(self).files@.len() + 1,
            final(self).files@.len() == old(self).files@.len() + 1,
            forall|i: int|
                0 <= i < old(self).files@.len() ==> final(self).files@[i] == old(self).files@[i],
            ({
                let f = file_of(final(self).files@, id);
                &&& f.salt@ == salt@
                &&& f.nonce@ == nonce@
                &&& f.filename_nonce@ == filename_nonce@
                &&& f.filename@ == filename@
                &&& f.is_text == is_text
                &&& !f.upload_complete
                &&& f.available
                &&& f.created_at == now
                &&& f.chunks@.len() == 0
            }),
    {
        let record = FileRecord {
            salt,
            nonce,
            filename_nonce,
            filename,
            is_text,
            upload_complete: false,
            available: true,
            created_at: now,
            chunks: Vec::new(),
        };
        self.files.push(record);
        self.files.len() as u64
    }

    /// Appends one chunk. The sequence number must lie in `1 ..= limit` and
    /// above every sequence already accepted, and the object must still
    /// take chunks: not yet complete, not retired. The chunk that carries
    /// `is_last` completes the object.
    pub fn append_chunk(
        &mut self,
        id: u64,
        seq: u64,
        content: Vec<u8>,
        is_last: bool,
    ) -> (r: Result<(), StoreError>)
        requires
            store_wf(*old(self)),
            content@.len() <= UPLOAD_LENGTH_LIMIT,
        ensures
            store_wf(*final(self)),
            final(self).chunk_count_limit == old(self).chunk_count_limit,
            final(self).files@.len() == old(self).files@.len(),
            !has_id(old(self).files@, id) ==> r == Err::<(), StoreError>(StoreError::NotFound)
                && final(self).files@ == old(self).files@,
            has_id(old(self).files@, id) && !accepts_seq(
                file_of(old(self).files@, id),
                seq,
                old(self).chunk_count_limit,
            ) ==> r == Err::<(), StoreError>(StoreError::Conflict) && final(self).files@ == old(
                self,
            ).files@,
            has_id(old(self).files@, id) && accepts_seq(
                file_of(old(self).files@, id),
                seq,
                old(self).chunk_count_limit,
            ) ==> r == Ok::<(), StoreError>(()) && appended(
                old(self).files@,
                final(self).files@,
                id,
                seq,
                content@,
                is_last,
            ),
    {
        if id < 1 || id > self.files.len() as u64 {
            return Err(StoreError::NotFound);
        }
        let idx = (id - 1) as usize;
        let mut record = FileRecord {
            salt: Vec::new(),
            nonce: Vec::new(),
            filename_nonce: Vec::new(),
            filename: Vec::new(),
            is_text: true,
            upload_complete: false,
            available: true,
            created_at: 0,
            chunks: Vec::new(),
        };
        self.files.set_and_swap(idx, &mut record);
        let last = if record.chunks.len() == 0 {
            0u64
        } else {
            record.chunks[record.chunks.len() - 1].seq
        };
        if seq < 1 || seq > self.chunk_count_limit || seq <= last || record.upload_complete
            || !record.available {
            self.files.set_and_swap(idx, &mut record);
            proof {
                assert(self.files@ =~= old(self).files@);
            }
            return Err(StoreError::Conflict);
        }
        record.chunks.push(StoredChunk { seq, content });
        if is_last {
            record.upload_complete = true;
        } else {
            record.upload_complete = false;
        }
        self.files.set_and_swap(idx, &mut record);
        proof {
            let f = file_of(old(self).files@, id);
            let g = file_of(self.files@, id);
            assert(g.chunks@.drop_last() =~= f.chunks@);
            assert(file_wf(g, self.chunk_count_limit)) by {
                assert(forall|a: int, b: int|
                    0 <= a < b < g.chunks@.len() - 1 ==> #[trigger] g.chunks@[a].seq
                        < #[trigger] g.chunks@[b].seq);
                assert(forall|a: int|
                    0 <= a < g.chunks@.len() - 1 ==> #[trigger] g.chunks@[a].seq <= f.chunks@.last().seq
                        || f.chunks@.len() == 0);
            }
            assert(forall|i: int|
                0 <= i < self.files@.len() ==> file_wf(
                    #[trigger] self.files@[i],
                    self.chunk_count_limit,
                ));
        }
        Ok(())
    }

    /// The metadata of a served object: its public parameters and the total
    /// stored size. Answers only for ids that are visible — complete and
    /// not retired; everything else is not found.
    pub fn get_metadata(&self, id: u64) -> (r: Option<crate::wire::MetadataResp>)
        requires
            store_wf(*self),
        ensures
            r is Some <==> file_visible(self.files@, id),
            r matches Some(m) ==> {
                let f = file_of(self.files@, id);
                &&& m.filename@ == f.filename@
                &&& m.salt@ == f.salt@
                &&& m.nonce@ == f.nonce@
                &&& m.filename_nonce@ == f.filename_nonce@
                &&& m.is_text == f.is_text
                &&& m.size == total_size(f.chunks@)
            },
    {
        if id < 1 || id > self.files.len() as u64 {
            return None;
        }
        let idx = (id - 1) as usize;
        let f = &self.files[idx];
        if !f.upload_complete || !f.available {
            return None;
        }
        let mut size: u64 = 0;
        let mut i: usize = 0;
        proof {
            lemma_chunk_count_bound(f.chunks@, self.chunk_count_limit);
            assert(f.chunks@.take(0) =~= Seq::<StoredChunk>::empty());
        }
        while i < f.chunks.len()
            invariant
                store_wf(*self),
                idx < self.files@.len(),
                1 <= id,
                idx == id - 1,
                f == self.files@[idx as int],
                i <= f.chunks@.len() <= CHUNK_COUNT_LIMIT_MAX,
                size == total_size(f.chunks@.take(i as int)),
                size <= i * (UPLOAD_LENGTH_LIMIT as int),
            decreases f.chunks@.len() - i,
        {
            proof {
                vstd::arithmetic::mul::lemma_mul_inequality(
                    i as int,
                    CHUNK_COUNT_LIMIT_MAX as int,
                    UPLOAD_LENGTH_LIMIT as int,
                );
                assert(f.chunks@.take((i + 1) as int).drop_last() =~= f.chunks@.take(i as int));
                crate::stream::lemma_mul_step(i as int, UPLOAD_LENGTH_LIMIT as int);
            }
            size = size + f.chunks[i].content.len() as u64;
            i = i + 1;
        }
        proof {
            assert(f.chunks@.take(f.chunks@.len() as int) =~= f.chunks@);
            vstd::arithmetic::mul::lemma_mul_inequality(
                f.chunks@.len() as int,
                CHUNK_COUNT_LIMIT_MAX as int,
                UPLOAD_LENGTH_LIMIT as int,
            );
        }
        Some(
            crate::wire::MetadataResp {
                filename: vstd::slice::slice_to_vec(f.filename.as_slice()),
                salt: vstd::slice::slice_to_vec(f.salt.as_slice()),
                nonce: vstd::slice::slice_to_vec(f.nonce.as_slice()),
                filename_nonce: vstd::slice::slice_to_vec(f.filename_nonce.as_slice()),
                is_text: f.is_text,
                size: size as i64,
            },
        )
    }

    /// The greatest sequence number an object has accepted, if it exists
    /// and has any chunk at all.
    pub fn get_last_seq(&self, id: u64) -> (r: Option<u64>)
        requires
            store_wf(*self),
        ensures
            r is Some <==> has_id(self.files@, id) && file_of(self.files@, id).chunks@.len() > 0,
            r matches Some(v) ==> v == max_seq(file_of(self.files@, id)),
    {
        if id < 1 || id > self.files.len() as u64 {
            return None;
        }
        let idx = (id - 1) as usize;
        let f = &self.files[idx];
        if f.chunks.len() == 0 {
            return None;
        }
        Some(f.chunks[f.chunks.len() - 1].seq)
    }

    /// The content of one stored chunk.
    pub fn read_chunk(&self, id: u64, seq: u64) -> (r: Option<Vec<u8>>)
        requires
            store_wf(*self),
        ensures
            r is Some <==> has_id(self.files@, id) && exists|i: int|
                0 <= i < file_of(self.files@, id).chunks@.len() && (#[trigger] file_of(
                    self.files@,
                    id,
                ).chunks@[i]).seq == seq,
            r matches Some(v) ==> exists|i: int|
                0 <= i < file_of(self.files@, id).chunks@.len() && (#[trigger] file_of(
                    self.files@,
                    id,
                ).chunks@[i]).seq == seq && v@ == file_of(self.files@, id).chunks@[i].content@,
    {
        if id < 1 || id > self.files.len() as u64 {
            return None;
        }
        let idx = (id - 1) as usize;
        let f = &self.files[idx];
        let mut i: usize = 0;
        while i < f.chunks.len()
            invariant
                store_wf(*self),
                idx < self.files@.len(),
                1 <= id,
                idx == id - 1,
                f == self.files@[idx as int],
                i <= f.chunks@.len(),
                forall|j: int| 0 <= j < i ==> (#[trigger] f.chunks@[j]).seq != seq,
            decreases f.chunks@.len() - i,
        {
            if f.chunks[i].seq == seq {
                proof {
                    assert((file_of(self.files@, id).chunks@[i as int]).seq == seq);
                }
                return Some(vstd::slice::slice_to_vec(f.chunks[i].content.as_slice()));
            }
            i = i + 1;
        }
        None
    }

    /// The whole content of a served object, chunk by chunk in sequence
    /// order. Not-found for an id that is not visible; corrupt if a visible
    /// object's chunks do not cover `1 ..= n` exactly.
    pub fn read_file_content(&self, id: u64) -> (r: Result<Vec<Vec<u8>>, StoreError>)
        requires
            store_wf(*self),
        ensures
            r is Ok <==> file_visible(self.files@, id) && contiguous(
                file_of(self.files@, id).chunks@,
            ),
            r matches Ok(v) ==> crate::stream::chunk_views(v@) == contents_of(
                file_of(self.files@, id),
            ),
            r == Err::<Vec<Vec<u8>>, StoreError>(StoreError::NotFound) <==> !file_visible(
                self.files@,
                id,
            ),
    {
        if id < 1 || id > self.files.len() as u64 {
            return Err(StoreError::NotFound);
        }
        let idx = (id - 1) as usize;
        let f = &self.files[idx];
        if !f.upload_complete || !f.available {
            return Err(StoreError::NotFound);
        }
        let mut out: Vec<Vec<u8>> = Vec::new();
        let mut i: usize = 0;
        proof {
            lemma_chunk_count_bound(f.chunks@, self.chunk_count_limit);
        }
        while i < f.chunks.len()
            invariant
                store_wf(*self),
                idx < self.files@.len(),
                1 <= id,
                idx == id - 1,
                f == self.files@[idx as int],
                file_visible(self.files@, id),
                i <= f.chunks@.len() <= CHUNK_COUNT_LIMIT_MAX,
                out@.len() == i,
                forall|j: int|
                    0 <= j < i ==> (#[trigger] f.chunks@[j]).seq == j + 1 && out@[j]@
                        == f.chunks@[j].content@,
            decreases f.chunks@.len() - i,
        {
            if f.chunks[i].seq != (i as u64) + 1 {
                proof {
                    assert((file_of(self.files@, id).chunks@[i as int]).seq != i + 1);
                }
                return Err(StoreError::Corrupt);
            }
            out.push(vstd::slice::slice_to_vec(f.chunks[i].content.as_slice()));
            i = i + 1;
        }
        proof {
            assert(crate::stream::chunk_views(out@) =~= contents_of(self.files@[idx as int]));
        }
        Ok(out)
    }

    /// One reclamation pass at time `now`: every record that has outlived
    /// `expiry` loses its chunks and stops being served; the ids retired by
    /// this pass — expired and served until now — come back in increasing
    /// order.
    pub fn gc_expired(&mut self, now: u64, expiry: u64) -> (removed: Vec<u64>)
        requires
            store_wf(*old(self)),
        ensures
            store_wf(*final(self)),
            final(self).chunk_count_limit == old(self).chunk_count_limit,
            gc_rel(old(self).files@, final(self).files@, now, expiry),
            forall|k: int|
                0 <= k < removed@.len() ==> {
                    let id = #[trigger] removed@[k];
                    &&& has_id(old(self).files@, id)
                    &&& is_expired(file_of(old(self).files@, id), now, expiry)
                    &&& file_of(old(self).files@, id).available
                },
            forall|id: u64|
                has_id(old(self).files@, id) && is_expired(file_of(old(self).files@, id), now, expiry)
                    && file_of(old(self).files@, id).available ==> removed@.contains(id),
            forall|k: int, l: int| 0 <= k < l < removed@.len() ==> removed@[k] < removed@[l],
    {
        let mut removed: Vec<u64> = Vec::new();
        let mut i: usize = 0;
        let n = self.files.len();
        while i < n
            invariant
                store_wf(*self),
                self.chunk_count_limit == old(self).chunk_count_limit,
                n == self.files@.len() == old(self).files@.len(),
                i <= n,
                forall|j: int| i <= j < n ==> self.files@[j] == old(self).files@[j],
                gc_rel(old(self).files@.take(i as int), self.files@.take(i as int), now, expiry),
                forall|k: int|
                    0 <= k < removed@.len() ==> {
                        let id = #[trigger] removed@[k];
                        &&& 1 <= id <= i
                        &&& is_expired(file_of(old(self).files@, id), now, expiry)
                        &&& file_of(old(self).files@, id).available
                    },
                forall|id: u64|
                    1 <= id <= i && is_expired(file_of(old(self).files@, id), now, expiry)
                        && file_of(old(self).files@, id).available ==> removed@.contains(id),
                forall|k: int, l: int| 0 <= k < l < removed@.len() ==> removed@[k] < removed@[l],
            decreases n - i,
        {
            let ghost s0 = self.files@;
            let ghost prev_removed = removed@;
            let expired = if expiry >= now {
                false
            } else {
                self.files[i].created_at < now - expiry
            };
            if expired {
                let was_available = self.files[i].available;
                let mut record = FileRecord {
                    salt: Vec::new(),
                    nonce: Vec::new(),
                    filename_nonce: Vec::new(),
                    filename: Vec::new(),
                    is_text: true,
                    upload_complete: false,
                    available: true,
                    created_at: 0,
                    chunks: Vec::new(),
                };
                self.files.set_and_swap(i, &mut record);
                record.available = false;
                record.chunks = Vec::new();
                self.files.set_and_swap(i, &mut record);
                if was_available {
                    removed.push((i as u64) + 1);
                }
            }
            proof {
                assert(gc_file_rel(old(self).files@[i as int], self.files@[i as int], now, expiry));
                assert(gc_rel(
                    old(self).files@.take((i + 1) as int),
                    self.files@.take((i + 1) as int),
                    now,
                    expiry,
                )) by {
                    assert forall|j: int|
                        0 <= j <= i implies gc_file_rel(
                        #[trigger] old(self).files@.take((i + 1) as int)[j],
                        #[trigger] self.files@.take((i + 1) as int)[j],
                        now,
                        expiry,
                    ) by {
                        assert(old(self).files@.take((i + 1) as int)[j] == old(self).files@[j]);
                        assert(self.files@.take((i + 1) as int)[j] == self.files@[j]);
                        if j < i {
                            assert(gc_file_rel(
                                old(self).files@.take(i as int)[j],
                                s0.take(i as int)[j],
                                now,
                                expiry,
                            ));
                            assert(s0.take(i as int)[j] == s0[j]);
                            assert(self.files@[j] == s0[j]);
                        }
                    }
                }
                assert(forall|id: u64|
                    prev_removed.contains(id) ==> removed@.contains(id)) by {
                    assert(forall|k: int|
                        0 <= k < prev_removed.len() ==> removed@[k] == #[trigger] prev_removed[k]);
                }
                if is_expired(old(self).files@[i as int], now, expiry) && old(
                    self,
                ).files@[i as int].available {
                    assert(removed@.last() == (i + 1) as u64);
                    assert(removed@.contains((i + 1) as u64));
                }
                assert forall|id2: u64|
                    1 <= id2 <= i + 1 && is_expired(file_of(old(self).files@, id2), now, expiry)
                        && file_of(old(self).files@, id2).available implies removed@.contains(
                    id2,
                ) by {
                    if id2 <= i {
                        assert(prev_removed.contains(id2));
                    } else {
                        assert(file_of(old(self).files@, id2) == old(self).files@[i as int]);
                        assert(old(self).files@[i as int] == s0[i as int]);
                        assert(removed@.last() == (i + 1) as u64);
                    }
                }
            }
            i = i + 1;
        }
        proof {
            assert(old(self).files@.take(n as int) =~= old(self).files@);
            assert(self.files@.take(n as int) =~= self.files@);
        }
        removed
    }
}

/// A reclamation pass touches only what has expired: any other object
/// keeps its record — chunks, flags and all — so a read that runs after
/// the pass sees either the whole object or nothing, never a part of it.
pub proof fn lemma_gc_preserves(
    before: Seq<FileRecord>,
    after: Seq<FileRecord>,
    now: u64,
    expiry: u64,
    id: u64,
)
    requires
        gc_rel(before, after, now, expiry),
        has_id(before, id),
        !is_expired(file_of(before, id), now, expiry),
    ensures
        has_id(after, id),
        file_of(after, id) == file_of(before, id),
{
}

/// After a reclamation pass, a retired object is hidden: it is no longer
/// visible, so its metadata and its content both answer not-found.
pub proof fn lemma_gc_hides(
    before: Seq<FileRecord>,
    after: Seq<FileRecord>,
    now: u64,
    expiry: u64,
    id: u64,
)
    requires
        gc_rel(before, after, now, expiry),
        has_id(before, id),
        is_expired(file_of(before, id), now, expiry),
    ensures
        !file_visible(after, id),
{
}

} // verus!
