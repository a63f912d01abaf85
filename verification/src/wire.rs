//! The wire protocol: multipart field validation and the response bodies.
//!
//! Requests arrive as multipart fields — a name and its bytes. Field names
//! are checked before any bytes are read; recognized fields have exact
//! length demands, unknown fields are dropped unread. The accumulated
//! fields are validated as a whole when the request is complete.

use vstd::prelude::*;

use crate::bytes::be_val;
use crate::bytes::be_decode8;
use crate::bytes::dec_i64_val;
use crate::bytes::parse_i64;
use crate::bytes::parses_as_i64;
use crate::store::params_wf;
use crate::{ONESHOT_NONCE_LEN, SALT_LEN, STREAM_NONCE_LEN, UPLOAD_LENGTH_LIMIT};

verus! {

/// An error a handler reports; the boundary maps each to its status code.
#[derive(PartialEq, Eq, Structural, Debug, Clone, Copy)]
pub enum ApiError {
    /// Wire validation failed: a missing or ill-sized field, a bad id.
    BadRequest,
    /// The object does not exist or is not being served.
    NotFound,
    /// The store refused the operation.
    Internal,
}

/// Whether two byte strings hold the same bytes.
pub fn bytes_eq(a: &[u8], b: &[u8]) -> (r: bool)
    ensures
        r <==> a@ == b@,
{
    if a.len() != b.len() {
        proof {
            assert(a@.len() != b@.len());
        }
        return false;
    }
    let mut i: usize = 0;
    while i < a.len()
        invariant
            a@.len() == b@.len(),
            i <= a@.len(),
            forall|j: int| 0 <= j < i ==> a@[j] == b@[j],
        decreases a@.len() - i,
    {
        if a[i] != b[i] {
            return false;
        }
        i = i + 1;
    }
    proof {
        assert(a@ =~= b@);
    }
    true
}

/// The fields a prepare request recognizes; anything else is dropped
/// unread.
#[derive(PartialEq, Eq, Structural, Debug, Clone, Copy)]
pub enum PrepareField {
    Salt,
    Nonce,
    FilenameNonce,
    Filename,
    IsText,
    Other,
}

/// The bytes of the field name `salt`.
pub open spec fn name_salt() -> Seq<u8> {
    seq![115u8, 97, 108, 116]
}

/// The bytes of the field name `nonce`.
pub open spec fn name_nonce() -> Seq<u8> {
    seq![110u8, 111, 110, 99, 101]
}

/// The bytes of the field name `filename_nonce`.
pub open spec fn name_filename_nonce() -> Seq<u8> {
    seq![102u8, 105, 108, 101, 110, 97, 109, 101, 95, 110, 111, 110, 99, 101]
}

/// The bytes of the field name `filename`.
pub open spec fn name_filename() -> Seq<u8> {
    seq![102u8, 105, 108, 101, 110, 97, 109, 101]
}

/// The bytes of the field name `is_text`.
pub open spec fn name_is_text() -> Seq<u8> {
    seq![105u8, 115, 95, 116, 101, 120, 116]
}

/// The bytes of the field name `id`.
pub open spec fn name_id() -> Seq<u8> {
    seq![105u8, 100]
}

/// The bytes of the field name `seq`.
pub open spec fn name_seq() -> Seq<u8> {
    seq![115u8, 101, 113]
}

/// The bytes of the field name `is_last`.
pub open spec fn name_is_last() -> Seq<u8> {
    seq![105u8, 115, 95, 108, 97, 115, 116]
}

/// The bytes of the field name `content`.
pub open spec fn name_content() -> Seq<u8> {
    seq![99u8, 111, 110, 116, 101, 110, 116]
}

fn exec_name_salt() -> (r: Vec<u8>)
    ensures
        r@ == name_salt(),
{
    let mut v: Vec<u8> = Vec::new();
    v.push(115);
    v.push(97);
    v.push(108);
    v.push(116);
    proof {
        assert(v@ =~= name_salt());
    }
    v
}

fn exec_name_nonce() -> (r: Vec<u8>)
    ensures
        r@ == name_nonce(),
{
    let mut v: Vec<u8> = Vec::new();
    v.push(110);
    v.push(111);
    v.push(110);
    v.push(99);
    v.push(101);
    proof {
        assert(v@ =~= name_nonce());
    }
    v
}

fn exec_name_filename_nonce() -> (r: Vec<u8>)
    ensures
        r@ == name_filename_nonce(),
{
    let mut v = exec_name_filename();
    v.push(95);
    v.push(110);
    v.push(111);
    v.push(110);
    v.push(99);
    v.push(101);
    proof {
        assert(v@ =~= name_filename_nonce());
    }
    v
}

fn exec_name_filename() -> (r: Vec<u8>)
    ensures
        r@ == name_filename(),
{
    let mut v: Vec<u8> = Vec::new();
    v.push(102);
    v.push(105);
    v.push(108);
    v.push(101);
    v.push(110);
    v.push(97);
    v.push(109);
    v.push(101);
    proof {
        assert(v@ =~= name_filename());
    }
    v
}

fn exec_name_is_text() -> (r: Vec<u8>)
    ensures
        r@ == name_is_text(),
{
    let mut v: Vec<u8> = Vec::new();
    v.push(105);
    v.push(115);
    v.push(95);
    v.push(116);
    v.push(101);
    v.push(120);
    v.push(116);
    proof {
        assert(v@ =~= name_is_text());
    }
    v
}

fn exec_name_id() -> (r: Vec<u8>)
    ensures
        r@ == name_id(),
{
    let mut v: Vec<u8> = Vec::new();
    v.push(105);
    v.push(100);
    proof {
        assert(v@ =~= name_id());
    }
    v
}

fn exec_name_seq() -> (r: Vec<u8>)
    ensures
        r@ == name_seq(),
{
    let mut v: Vec<u8> = Vec::new();
    v.push(115);
    v.push(101);
    v.push(113);
    proof {
        assert(v@ =~= name_seq());
    }
    v
}

fn exec_name_is_last() -> (r: Vec<u8>)
    ensures
        r@ == name_is_last(),
{
    let mut v: Vec<u8> = Vec::new();
    v.push(105);
    v.push(115);
    v.push(95);
    v.push(108);
    v.push(97);
    v.push(115);
    v.push(116);
    proof {
        assert(v@ =~= name_is_last());
    }
    v
}

fn exec_name_content() -> (r: Vec<u8>)
    ensures
        r@ == name_content(),
{
    let mut v: Vec<u8> = Vec::new();
    v.push(99);
    v.push(111);
    v.push(110);
    v.push(116);
    v.push(101);
    v.push(110);
    v.push(116);
    proof {
        assert(v@ =~= name_content());
    }
    v
}

/// Which prepare field a name denotes.
pub open spec fn spec_classify_prepare(name: Seq<u8>) -> PrepareField {
    if name == name_salt() {
        PrepareField::Salt
    } else if name == name_nonce() {
        PrepareField::Nonce
    } else if name == name_filename_nonce() {
        PrepareField::FilenameNonce
    } else if name == name_filename() {
        PrepareField::Filename
    } else if name == name_is_text() {
        PrepareField::IsText
    } else {
        PrepareField::Other
    }
}

/// Recognizes a prepare field by name. A name that classifies as `Other`
/// must be dropped without reading its bytes.
pub fn classify_prepare_field(name: &[u8]) -> (f: PrepareField)
    ensures
        f == spec_classify_prepare(name@),
{
    if bytes_eq(name, exec_name_salt().as_slice()) {
        PrepareField::Salt
    } else if bytes_eq(name, exec_name_nonce().as_slice()) {
        PrepareField::Nonce
    } else if bytes_eq(name, exec_name_filename_nonce().as_slice()) {
        PrepareField::FilenameNonce
    } else if bytes_eq(name, exec_name_filename().as_slice()) {
        PrepareField::Filename
    } else if bytes_eq(name, exec_name_is_text().as_slice()) {
        PrepareField::IsText
    } else {
        PrepareField::Other
    }
}

/// The fields an upload request recognizes.
#[derive(PartialEq, Eq, Structural, Debug, Clone, Copy)]
pub enum UploadField {
    Id,
    SeqNo,
    IsLast,
    Content,
    Other,
}

/// Which upload field a name denotes.
pub open spec fn spec_classify_upload(name: Seq<u8>) -> UploadField {
    if name == name_id() {
        UploadField::Id
    } else if name == name_seq() {
        UploadField::SeqNo
    } else if name == name_is_last() {
        UploadField::IsLast
    } else if name == name_content() {
        UploadField::Content
    } else {
        UploadField::Other
    }
}

/// Recognizes an upload field by name.
pub fn classify_upload_field(name: &[u8]) -> (f: UploadField)
    ensures
        f == spec_classify_upload(name@),
{
    if bytes_eq(name, exec_name_id().as_slice()) {
        UploadField::Id
    } else if bytes_eq(name, exec_name_seq().as_slice()) {
        UploadField::SeqNo
    } else if bytes_eq(name, exec_name_is_last().as_slice()) {
        UploadField::IsLast
    } else if bytes_eq(name, exec_name_content().as_slice()) {
        UploadField::Content
    } else {
        UploadField::Other
    }
}

/// The body of a successful prepare response: the assigned object id.
#[derive(Debug)]
pub struct PrepareUploadResp {
    pub id: i64,
}

/// The body of a successful metadata response. Byte fields travel
/// base64-encoded; the sizes are those of the stored object.
#[derive(Debug)]
pub struct MetadataResp {
    pub filename: Vec<u8>,
    pub salt: Vec<u8>,
    pub nonce: Vec<u8>,
    pub filename_nonce: Vec<u8>,
    pub is_text: bool,
    pub size: i64,
}

/// A validated prepare request: the public parameters of a new object,
/// normalized so that a text object carries empty filename fields.
pub struct PrepareRequest {
    pub salt: Vec<u8>,
    pub nonce: Vec<u8>,
    pub filename_nonce: Vec<u8>,
    pub filename: Vec<u8>,
    pub is_text: bool,
}

/// Accumulates the fields of a prepare request as they arrive, in any
/// order. Each recognized field is length-checked the moment it is seen;
/// the demands that span fields are checked by
/// [`PrepareBuilder::finish`].
pub struct PrepareBuilder {
    pub salt: Option<Vec<u8>>,
    pub nonce: Option<Vec<u8>>,
    pub filename_nonce: Option<Vec<u8>>,
    pub filename: Option<Vec<u8>>,
    pub is_text: bool,
}

/// The lengths every accepted field already satisfies.
pub open spec fn prepare_builder_wf(b: PrepareBuilder) -> bool {
    &&& b.salt matches Some(v) ==> v@.len() == SALT_LEN
    &&& b.nonce matches Some(v) ==> v@.len() == STREAM_NONCE_LEN || v@.len() == ONESHOT_NONCE_LEN
    &&& b.filename_nonce matches Some(v) ==> v@.len() == ONESHOT_NONCE_LEN
}

impl PrepareBuilder {
    /// An empty builder: no field seen, text mode off.
    pub fn new() -> (b: PrepareBuilder)
        ensures
            prepare_builder_wf(b),
            b.salt is None && b.nonce is None && b.filename_nonce is None && b.filename is None,
            !b.is_text,
    {
        PrepareBuilder { salt: None, nonce: None, filename_nonce: None, filename: None, is_text: false }
    }

    /// Takes one field. A recognized field with a wrong length is the
    /// request's end: bad request. An unrecognized name changes nothing —
    /// though such a field should not have had its bytes read at all.
    pub fn apply_field(&mut self, name: &[u8], bytes: Vec<u8>) -> (r: Result<(), ApiError>)
        requires
            prepare_builder_wf(*old(self)),
        ensures
            prepare_builder_wf(*final(self)),
            ({
                let field = spec_classify_prepare(name@);
                match field {
                    PrepareField::Salt => if bytes@.len() == SALT_LEN {
                        r is Ok && *final(self) == PrepareBuilder {
                            salt: Some(bytes),
                            ..*old(self)
                        }
                    } else {
                        r == Err::<(), ApiError>(ApiError::BadRequest)
                    },
                    PrepareField::Nonce => if bytes@.len() == STREAM_NONCE_LEN || bytes@.len()
                        == ONESHOT_NONCE_LEN {
                        r is Ok && *final(self) == PrepareBuilder {
                            nonce: Some(bytes),
                            ..*old(self)
                        }
                    } else {
                        r == Err::<(), ApiError>(ApiError::BadRequest)
                    },
                    PrepareField::FilenameNonce => if bytes@.len() == ONESHOT_NONCE_LEN {
                        r is Ok && *final(self) == PrepareBuilder {
                            filename_nonce: Some(bytes),
                            ..*old(self)
                        }
                    } else {
                        r == Err::<(), ApiError>(ApiError::BadRequest)
                    },
                    PrepareField::Filename => r is Ok && *final(self) == PrepareBuilder {
                        filename: Some(bytes),
                        ..*old(self)
                    },
                    PrepareField::IsText => if bytes@.len() == 1 {
                        r is Ok && *final(self) == PrepareBuilder {
                            is_text: bytes@[0] != 0,
                            ..*old(self)
                        }
                    } else {
                        r == Err::<(), ApiError>(ApiError::BadRequest)
                    },
                    PrepareField::Other => r is Ok && *final(self) == *old(self),
                }
            }),
    {
        match classify_prepare_field(name) {
            PrepareField::Salt => {
                if bytes.len() != SALT_LEN {
                    return Err(ApiError::BadRequest);
                }
                self.salt = Some(bytes);
                Ok(())
            },
            PrepareField::Nonce => {
                if bytes.len() != STREAM_NONCE_LEN && bytes.len() != ONESHOT_NONCE_LEN {
                    return Err(ApiError::BadRequest);
                }
                self.nonce = Some(bytes);
                Ok(())
            },
            PrepareField::FilenameNonce => {
                if bytes.len() != ONESHOT_NONCE_LEN {
                    return Err(ApiError::BadRequest);
                }
                self.filename_nonce = Some(bytes);
                Ok(())
            },
            PrepareField::Filename => {
                self.filename = Some(bytes);
                Ok(())
            },
            PrepareField::IsText => {
                if bytes.len() != 1 {
                    return Err(ApiError::BadRequest);
                }
                self.is_text = bytes[0] != 0;
                Ok(())
            },
            PrepareField::Other => {
                Ok(())
            },
        }
    }

    /// Whether the collected fields make a valid request: text mode needs
    /// salt and a 24-byte nonce; file mode needs salt, a 19-byte nonce, a
    /// filename nonce and a filename. A nonce of the other mode's length
    /// is refused.
    pub open spec fn complete(b: PrepareBuilder) -> bool {
        if b.is_text {
            &&& b.salt is Some
            &&& b.nonce matches Some(n) && n@.len() == ONESHOT_NONCE_LEN
        } else {
            &&& b.salt is Some
            &&& b.nonce matches Some(n) && n@.len() == STREAM_NONCE_LEN
            &&& b.filename_nonce is Some
            &&& b.filename is Some
        }
    }

    /// Validates the collected fields as a whole. In text mode the
    /// filename fields are stored as empty bytes, never missing.
    pub fn finish(self) -> (r: Result<PrepareRequest, ApiError>)
        requires
            prepare_builder_wf(self),
        ensures
            r is Ok <==> Self::complete(self),
            r matches Ok(req) ==> {
                &&& params_wf(req.salt@, req.nonce@, req.filename_nonce@, req.filename@, req.is_text)
                &&& req.is_text == self.is_text
                &&& req.salt@ == self.salt->0@
                &&& req.nonce@ == self.nonce->0@
                &&& !self.is_text ==> req.filename_nonce@ == self.filename_nonce->0@
                    && req.filename@ == self.filename->0@
                &&& self.is_text ==> req.filename_nonce@.len() == 0 && req.filename@.len() == 0
            },
            r is Err ==> r == Err::<PrepareRequest, ApiError>(ApiError::BadRequest),
    {
        let PrepareBuilder { salt, nonce, filename_nonce, filename, is_text } = self;
        let salt = match salt {
            Some(v) => v,
            None => {
                return Err(ApiError::BadRequest);
            },
        };
        let nonce = match nonce {
            Some(v) => v,
            None => {
                return Err(ApiError::BadRequest);
            },
        };
        if is_text {
            if nonce.len() != ONESHOT_NONCE_LEN {
                return Err(ApiError::BadRequest);
            }
            Ok(PrepareRequest {
                salt,
                nonce,
                filename_nonce: Vec::new(),
                filename: Vec::new(),
                is_text: true,
            })
        } else {
            if nonce.len() != STREAM_NONCE_LEN {
                return Err(ApiError::BadRequest);
            }
            let filename_nonce = match filename_nonce {
                Some(v) => v,
                None => {
                    return Err(ApiError::BadRequest);
                },
            };
            let filename = match filename {
                Some(v) => v,
                None => {
                    return Err(ApiError::BadRequest);
                },
            };
            Ok(PrepareRequest { salt, nonce, filename_nonce, filename, is_text: false })
        }
    }
}

/// A validated upload request: one chunk for an existing object. The id
/// and sequence number travel as 8-byte big-endian integers and are kept
/// as their unsigned readings; the store knows no id at or above
/// `2^63`, so a negative wire id can never match an object.
pub struct UploadRequest {
    pub id: u64,
    pub seq: u64,
    pub is_last: bool,
    pub content: Vec<u8>,
}

/// Accumulates the fields of an upload request as they arrive.
pub struct UploadBuilder {
    pub id: Option<u64>,
    pub seq: Option<u64>,
    pub is_last: Option<bool>,
    pub content: Option<Vec<u8>>,
}

/// The demands every accepted field already satisfies.
pub open spec fn upload_builder_wf(b: UploadBuilder, chunk_count_limit: u64) -> bool {
    &&& b.seq matches Some(v) ==> v <= chunk_count_limit
    &&& b.content matches Some(v) ==> v@.len() <= UPLOAD_LENGTH_LIMIT
}

impl UploadBuilder {
    /// An empty builder: no field seen.
    pub fn new() -> (b: UploadBuilder)
        ensures
            b.id is None && b.seq is None && b.is_last is None && b.content is None,
    {
        UploadBuilder { id: None, seq: None, is_last: None, content: None }
    }

    /// Takes one field. `id` and `seq` must be exactly eight bytes;
    /// `seq` is read as an unsigned big-endian number and refused above
    /// the chunk-count limit; `is_last` is one byte, nonzero meaning last;
    /// `content` must fit the upload body limit.
    pub fn apply_field(
        &mut self,
        name: &[u8],
        bytes: Vec<u8>,
        chunk_count_limit: u64,
    ) -> (r: Result<(), ApiError>)
        requires
            upload_builder_wf(*old(self), chunk_count_limit),
        ensures
            upload_builder_wf(*final(self), chunk_count_limit),
            ({
                let field = spec_classify_upload(name@);
                match field {
                    UploadField::Id => if bytes@.len() == 8 {
                        r is Ok && *final(self) == UploadBuilder {
                            id: Some(be_val(bytes@) as u64),
                            ..*old(self)
                        }
                    } else {
                        r == Err::<(), ApiError>(ApiError::BadRequest)
                    },
                    UploadField::SeqNo => if bytes@.len() == 8 && be_val(bytes@)
                        <= chunk_count_limit {
                        r is Ok && *final(self) == UploadBuilder {
                            seq: Some(be_val(bytes@) as u64),
                            ..*old(self)
                        }
                    } else {
                        r == Err::<(), ApiError>(ApiError::BadRequest)
                    },
                    UploadField::IsLast => if bytes@.len() == 1 {
                        r is Ok && *final(self) == UploadBuilder {
                            is_last: Some(bytes@[0] != 0),
                            ..*old(self)
                        }
                    } else {
                        r == Err::<(), ApiError>(ApiError::BadRequest)
                    },
                    UploadField::Content => if bytes@.len() <= UPLOAD_LENGTH_LIMIT {
                        r is Ok && *final(self) == UploadBuilder {
                            content: Some(bytes),
                            ..*old(self)
                        }
                    } else {
                        r == Err::<(), ApiError>(ApiError::BadRequest)
                    },
                    UploadField::Other => r is Ok && *final(self) == *old(self),
                }
            }),
    {
        match classify_upload_field(name) {
            UploadField::Id => {
                if bytes.len() != 8 {
                    return Err(ApiError::BadRequest);
                }
                proof {
                    crate::bytes::lemma_be_val_bound(bytes@);
                    crate::bytes::lemma_pow256_small();
                }
                self.id = Some(be_decode8(bytes.as_slice()));
                Ok(())
            },
            UploadField::SeqNo => {
                if bytes.len() != 8 {
                    return Err(ApiError::BadRequest);
                }
                proof {
                    crate::bytes::lemma_be_val_bound(bytes@);
                    crate::bytes::lemma_pow256_small();
                }
                let seq = be_decode8(bytes.as_slice());
                if seq > chunk_count_limit {
                    return Err(ApiError::BadRequest);
                }
                self.seq = Some(seq);
                Ok(())
            },
            UploadField::IsLast => {
                if bytes.len() != 1 {
                    return Err(ApiError::BadRequest);
                }
                self.is_last = Some(bytes[0] != 0);
                Ok(())
            },
            UploadField::Content => {
                if bytes.len() > UPLOAD_LENGTH_LIMIT {
                    return Err(ApiError::BadRequest);
                }
                self.content = Some(bytes);
                Ok(())
            },
            UploadField::Other => {
                Ok(())
            },
        }
    }

    /// Whether every mandatory field arrived.
    pub open spec fn complete(b: UploadBuilder) -> bool {
        b.id is Some && b.seq is Some && b.is_last is Some && b.content is Some
    }

    /// Validates the collected fields as a whole.
    pub fn finish(self, chunk_count_limit: u64) -> (r: Result<UploadRequest, ApiError>)
        requires
            upload_builder_wf(self, chunk_count_limit),
        ensures
            r is Ok <==> Self::complete(self),
            r matches Ok(req) ==> {
                &&& req.id == self.id->0
                &&& req.seq == self.seq->0
                &&& req.seq <= chunk_count_limit
                &&& req.is_last == self.is_last->0
                &&& req.content@ == self.content->0@
                &&& req.content@.len() <= UPLOAD_LENGTH_LIMIT
            },
            r is Err ==> r == Err::<UploadRequest, ApiError>(ApiError::BadRequest),
    {
        let UploadBuilder { id, seq, is_last, content } = self;
        match (id, seq, is_last, content) {
            (Some(id), Some(seq), Some(is_last), Some(content)) => Ok(
                UploadRequest { id, seq, is_last, content },
            ),
            _ => Err(ApiError::BadRequest),
        }
    }
}

/// Reads an object id from its decimal query-string form: it must parse
/// as a signed 64-bit integer and be positive.
pub fn parse_object_id(s: &[u8]) -> (r: Result<u64, ApiError>)
    ensures
        r is Ok <==> parses_as_i64(s@) && dec_i64_val(s@) > 0,
        r matches Ok(v) ==> v == dec_i64_val(s@),
        r is Err ==> r == Err::<u64, ApiError>(ApiError::BadRequest),
{
    match parse_i64(s) {
        Some(v) => {
            if v <= 0 {
                Err(ApiError::BadRequest)
            } else {
                Ok(v as u64)
            }
        },
        None => Err(ApiError::BadRequest),
    }
}

} // verus!
