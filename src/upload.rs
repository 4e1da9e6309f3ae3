//! The decisions of a multi-part upload session: how written bytes are cut
//! into numbered parts, which tags are recorded, and what the completion
//! request lists. The caller performs each remote request that a method hands
//! back, then reports its outcome.
use vstd::prelude::*;

verus! {

/// Every part but the last one must hold at least this many bytes.
pub const MIN_PART_SIZE: usize = 5 * 1024 * 1024;

/// A part acknowledged by the remote store.
pub struct CompletedPart {
    pub part_number: i32,
    pub e_tag: String,
}

/// A part to upload: its number and its bytes.
pub struct PartUpload {
    pub part_number: i32,
    pub data: Vec<u8>,
}

/// The request that commits a session.
pub struct CompleteRequest {
    pub bucket: String,
    pub key: String,
    pub upload_id: String,
    pub parts: Vec<CompletedPart>,
}

/// The request that cancels a session.
pub struct AbortRequest {
    pub bucket: String,
    pub key: String,
    pub upload_id: String,
}

/// Why a session failed.
#[derive(Debug, PartialEq, Eq, Structural)]
pub enum UploadError {
    /// No session token could be had.
    Initiation,
    /// The part with this number was rejected or got no completion tag.
    PartUpload { part_number: i32 },
    /// The completion request was rejected.
    Finalize,
    /// The cancellation request was rejected.
    Abort,
}

/// Whether the parts are numbered 1, 2, 3, ... in order.
pub open spec fn numbered_from_one(parts: Seq<CompletedPart>) -> bool {
    forall|i: int| 0 <= i < parts.len() ==> (#[trigger] parts[i]).part_number == i + 1
}

/// One multi-part upload session against a bucket and key.
pub struct S3MultipartUploader {
    bucket: String,
    key: String,
    upload_id: String,
    parts: Vec<CompletedPart>,
    buffer: Vec<u8>,
    part_number: i32,
    awaiting: bool,
}

impl S3MultipartUploader {
    /// Bytes written and not yet cut into a part.
    pub closed spec fn pending(&self) -> Seq<u8> {
        self.buffer@
    }

    /// The parts recorded so far, in the order they were recorded.
    pub closed spec fn recorded(&self) -> Seq<CompletedPart> {
        self.parts@
    }

    /// The number that the next part gets.
    pub closed spec fn next_number(&self) -> int {
        self.part_number as int
    }

    /// Whether a part was cut and its outcome not yet recorded.
    pub closed spec fn awaiting_tag(&self) -> bool {
        self.awaiting
    }

    pub closed spec fn bucket_spec(&self) -> Seq<char> {
        self.bucket@
    }

    pub closed spec fn key_spec(&self) -> Seq<char> {
        self.key@
    }

    pub closed spec fn upload_id_spec(&self) -> Seq<char> {
        self.upload_id@
    }

    /// Part numbers run from 1 without gaps, and the next one follows the
    /// last recorded.
    pub closed spec fn wf(&self) -> bool {
        &&& numbered_from_one(self.parts@)
        &&& self.part_number == self.parts@.len() + 1
    }

    /// Opens a session from the token that the remote store returned for
    /// the initiation request; `None` when it returned none.
    pub fn new(bucket: &str, key: &str, upload_id: Option<String>) -> (r: Result<Self, UploadError>)
        ensures
            upload_id is None ==> r == Err::<Self, UploadError>(UploadError::Initiation),
            upload_id is Some ==> r is Ok,
            r matches Ok(s) ==> {
                &&& s.wf()
                &&& !s.awaiting_tag()
                &&& s.pending() == Seq::<u8>::empty()
                &&& s.recorded() == Seq::<CompletedPart>::empty()
                &&& s.next_number() == 1
                &&& s.bucket_spec() == bucket@
                &&& s.key_spec() == key@
                &&& s.upload_id_spec() == upload_id->Some_0@
            },
    {
        match upload_id {
            None => Err(UploadError::Initiation),
            Some(id) => {
                let s = S3MultipartUploader {
                    bucket: bucket.to_owned(),
                    key: key.to_owned(),
                    upload_id: id,
                    parts: Vec::new(),
                    buffer: Vec::new(),
                    part_number: 1,
                    awaiting: false,
                };
                assert(s.parts@ =~= Seq::<CompletedPart>::empty());
                Ok(s)
            },
        }
    }

    /// Appends `data` to the bytes waiting to be cut into parts.
    pub fn write(&mut self, data: &[u8])
        ensures
            final(self).pending() == old(self).pending() + data@,
            final(self).recorded() == old(self).recorded(),
            final(self).next_number() == old(self).next_number(),
            final(self).awaiting_tag() == old(self).awaiting_tag(),
            final(self).wf() == old(self).wf(),
            final(self).bucket_spec() == old(self).bucket_spec(),
            final(self).key_spec() == old(self).key_spec(),
            final(self).upload_id_spec() == old(self).upload_id_spec(),
    {
        self.buffer.extend_from_slice(data);
        assert(self.buffer@ =~= old(self).buffer@ + data@);
    }

    /// Cuts the first `n` pending bytes into a part under the next number,
    /// which then awaits its outcome.
    fn take_part(&mut self, n: usize) -> (r: PartUpload)
        requires
            n <= old(self).pending().len(),
        ensures
            r.part_number == old(self).next_number(),
            r.data@ == old(self).pending().subrange(0, n as int),
            final(self).pending() == old(self).pending().subrange(
                n as int,
                old(self).pending().len() as int,
            ),
            final(self).recorded() == old(self).recorded(),
            final(self).next_number() == old(self).next_number(),
            final(self).awaiting_tag(),
            final(self).wf() == old(self).wf(),
            final(self).bucket_spec() == old(self).bucket_spec(),
            final(self).key_spec() == old(self).key_spec(),
            final(self).upload_id_spec() == old(self).upload_id_spec(),
    {
        let mut data = self.buffer.split_off(n);
        core::mem::swap(&mut self.buffer, &mut data);
        self.awaiting = true;
        PartUpload { part_number: self.part_number, data }
    }

    /// When no part awaits its outcome and at least a minimum part size is
    /// pending, cuts exactly that many bytes from the head into a part under
    /// the next number. A part must be recorded before the next is cut, so
    /// no number is handed out twice.
    pub fn next_part(&mut self) -> (r: Option<PartUpload>)
        ensures
            final(self).recorded() == old(self).recorded(),
            final(self).next_number() == old(self).next_number(),
            final(self).wf() == old(self).wf(),
            final(self).bucket_spec() == old(self).bucket_spec(),
            final(self).key_spec() == old(self).key_spec(),
            final(self).upload_id_spec() == old(self).upload_id_spec(),
            (old(self).awaiting_tag() || old(self).pending().len() < MIN_PART_SIZE) <==> r is None,
            r is None ==> final(self).pending() == old(self).pending() && final(self).awaiting_tag()
                == old(self).awaiting_tag(),
            r matches Some(p) ==> {
                &&& p.part_number == old(self).next_number()
                &&& p.data@ == old(self).pending().subrange(0, MIN_PART_SIZE as int)
                &&& final(self).pending() == old(self).pending().subrange(
                    MIN_PART_SIZE as int,
                    old(self).pending().len() as int,
                )
                &&& final(self).awaiting_tag()
            },
    {
        if self.awaiting || self.buffer.len() < MIN_PART_SIZE {
            None
        } else {
            Some(self.take_part(MIN_PART_SIZE))
        }
    }

    /// The last part, when no part awaits its outcome: all pending bytes,
    /// however few; or, when nothing is pending and no part was ever
    /// recorded, an empty part, since the remote store wants at least one.
    pub fn final_part(&mut self) -> (r: Option<PartUpload>)
        ensures
            final(self).recorded() == old(self).recorded(),
            final(self).next_number() == old(self).next_number(),
            final(self).wf() == old(self).wf(),
            final(self).bucket_spec() == old(self).bucket_spec(),
            final(self).key_spec() == old(self).key_spec(),
            final(self).upload_id_spec() == old(self).upload_id_spec(),
            r is None <==> (old(self).awaiting_tag() || (old(self).pending().len() == 0
                && old(self).recorded().len() > 0)),
            r is None ==> final(self).pending() == old(self).pending() && final(self).awaiting_tag()
                == old(self).awaiting_tag(),
            r matches Some(p) ==> {
                &&& p.part_number == old(self).next_number()
                &&& p.data@ == old(self).pending()
                &&& final(self).pending() == Seq::<u8>::empty()
                &&& final(self).awaiting_tag()
            },
            old(self).wf() && !old(self).awaiting_tag() && old(self).recorded().len() == 0
                && old(self).pending().len() == 0 ==> (r matches Some(p) && p.part_number == 1
                && p.data@.len() == 0),
    {
        if self.awaiting || (self.buffer.len() == 0 && self.parts.len() > 0) {
            None
        } else {
            let n = self.buffer.len();
            let r = self.take_part(n);
            assert(r.data@ =~= old(self).pending());
            assert(self.buffer@ =~= Seq::<u8>::empty());
            Some(r)
        }
    }

    /// Records the outcome of uploading the part that awaits it: its
    /// completion tag, or `None` when the store rejected it or sent no tag.
    /// With no part awaiting, nothing is recorded.
    pub fn record_part(&mut self, e_tag: Option<String>) -> (r: Result<(), UploadError>)
        requires
            old(self).wf(),
            old(self).next_number() < i32::MAX,
        ensures
            final(self).wf(),
            final(self).pending() == old(self).pending(),
            final(self).bucket_spec() == old(self).bucket_spec(),
            final(self).key_spec() == old(self).key_spec(),
            final(self).upload_id_spec() == old(self).upload_id_spec(),
            (e_tag is None || !old(self).awaiting_tag()) ==> {
                &&& r == Err::<(), UploadError>(
                    UploadError::PartUpload { part_number: old(self).next_number() as i32 },
                )
                &&& final(self).recorded() == old(self).recorded()
                &&& final(self).next_number() == old(self).next_number()
                &&& final(self).awaiting_tag() == old(self).awaiting_tag()
            },
            e_tag matches Some(t) ==> old(self).awaiting_tag() ==> {
                &&& r is Ok
                &&& final(self).recorded() == old(self).recorded().push(
                    CompletedPart { part_number: old(self).next_number() as i32, e_tag: t },
                )
                &&& final(self).next_number() == old(self).next_number() + 1
                &&& !final(self).awaiting_tag()
            },
    {
        if !self.awaiting {
            return Err(UploadError::PartUpload { part_number: self.part_number });
        }
        match e_tag {
            None => Err(UploadError::PartUpload { part_number: self.part_number }),
            Some(t) => {
                self.parts.push(CompletedPart { part_number: self.part_number, e_tag: t });
                self.part_number = self.part_number + 1;
                self.awaiting = false;
                assert(numbered_from_one(self.parts@)) by {
                    assert forall|i: int| 0 <= i < self.parts@.len() implies (
                    #[trigger] self.parts@[i]).part_number == i + 1 by {
                        if i < old(self).parts@.len() {
                            assert(self.parts@[i] == old(self).parts@[i]);
                        }
                    }
                }
                Ok(())
            },
        }
    }

    /// The number that the next part gets.
    pub fn part_number(&self) -> (r: i32)
        ensures
            r == self.next_number(),
    {
        self.part_number
    }

    /// How many written bytes wait to be cut into a part.
    pub fn buffered_len(&self) -> (r: usize)
        ensures
            r == self.pending().len(),
    {
        self.buffer.len()
    }

    pub fn bucket(&self) -> (r: &str)
        ensures
            r@ == self.bucket_spec(),
    {
        self.bucket.as_str()
    }

    pub fn key(&self) -> (r: &str)
        ensures
            r@ == self.key_spec(),
    {
        self.key.as_str()
    }

    pub fn upload_id(&self) -> (r: &str)
        ensures
            r@ == self.upload_id_spec(),
    {
        self.upload_id.as_str()
    }

    /// Ends the session with the request that commits it: every recorded
    /// part, in ascending part number.
    pub fn complete(self) -> (r: CompleteRequest)
        requires
            self.wf(),
        ensures
            r.parts@ == self.recorded(),
            numbered_from_one(r.parts@),
            r.bucket@ == self.bucket_spec(),
            r.key@ == self.key_spec(),
            r.upload_id@ == self.upload_id_spec(),
    {
        CompleteRequest {
            bucket: self.bucket,
            key: self.key,
            upload_id: self.upload_id,
            parts: self.parts,
        }
    }

    /// Ends the session with the request that cancels it.
    pub fn abort(self) -> (r: AbortRequest)
        ensures
            r.bucket@ == self.bucket_spec(),
            r.key@ == self.key_spec(),
            r.upload_id@ == self.upload_id_spec(),
    {
        AbortRequest { bucket: self.bucket, key: self.key, upload_id: self.upload_id }
    }
}

} // verus!
