//! An open file of the FUSE mount: what it holds in memory and what becomes of
//! it when it is written, saved, renamed or deleted.

use vstd::prelude::*;
use vstd::string::*;

use crate::budget::Reservation;
use crate::checksum::crc64_of;
use crate::content::{
    law_written_at_end, resize, resized, slice_at, slice_of, write_at, written, WRITE_SPOOL_THRESHOLD,
};
use crate::settings::MULTIPART_PART_SIZE;
use crate::text::{copy_text, has_prefix, law_prefix_and_rest, same_text, strip_prefix, tail_from};
use crate::upload::{header_view, md5_header, part_of, StreamingUpload, UploadPart};

verus! {

/// An open file.
pub struct OpenFile {
    pub path: String,
    pub is_dir: bool,
    /// The content, where the file is open for writing.
    pub write_buf: Option<Vec<u8>>,
    /// The content has been fetched, or need not be.
    pub loaded: bool,
    pub dirty: bool,
    /// What is held of the budget for unsaved bytes.
    pub held: Reservation,
    /// The upload that the content goes into once it is large.
    pub stream: Option<StreamingUpload>,
    /// An upload could not be finished: its content is lost.
    pub stream_failed: bool,
    /// The object was deleted: nothing may be saved any more.
    pub unlinked: bool,
    /// The size, where it was set or something was written; else zero.
    pub logical_size: u64,
}

/// What a write does.
#[derive(Debug)]
pub enum WriteStep {
    /// The data went into the running upload, and these parts are to be sent.
    Streamed { parts: Vec<UploadPart> },
    /// An upload is to be begun, and these parts are to be sent.
    StartStream { parts: Vec<UploadPart> },
    /// The data is in memory.
    Buffered,
    /// The content has to be fetched first.
    Load,
    /// The data cannot be taken: the file is not open for writing, the data
    /// does not continue the running upload, or it ends beyond what memory can
    /// hold.
    Denied,
}

/// What a change of the size does.
#[derive(Debug)]
pub enum TruncateStep {
    /// The file is another one or not open for writing: the object itself is
    /// to be changed.
    Elsewhere,
    /// The content has to be fetched first.
    Load,
    /// The running upload is to be finished first: what it holds is cut once
    /// the file was saved and the content fetched again.
    Save,
    /// The content has the size now. Where `abort` is set, the running upload
    /// is to be given up: nothing of it is left. Where it goes on, these parts
    /// are to be sent.
    Resized { abort: bool, parts: Vec<UploadPart> },
    /// The size cannot be changed: it is more than memory or an upload can
    /// hold, or what went into the running upload would have to be cut, and can
    /// never be saved.
    Refused,
}

/// What saving a file takes.
#[derive(Debug)]
pub enum FlushStep {
    /// Nothing.
    Nothing,
    /// An earlier upload failed, and what is in memory is not the content.
    Refuse,
    /// The upload is to be finished with this part, and the checksum compared.
    Finish { last: Option<UploadPart>, crc: Option<u64> },
    /// The content in memory is to be written.
    Put,
}

/// The number of bytes that a write reaches up to, as far as a word can count.
pub open spec fn write_end(offset: u64, len: nat) -> int {
    let n = (offset as usize) + len;
    if n <= usize::MAX {
        n as int
    } else {
        usize::MAX as int
    }
}

/// The parts that are sent are those that were not sent before, and each is
/// what its number says.
pub open spec fn sends(parts: Seq<UploadPart>, before: int, upload: StreamingUpload) -> bool {
    &&& parts.len() == upload.sent() - before
    &&& forall|k: int|
        0 <= k < parts.len() ==> (#[trigger] parts[k]).number == before + k + 1 && parts[k].data@ == part_of(
            upload.content(),
            MULTIPART_PART_SIZE as int,
            before + k,
        ) && header_view(parts[k].md5) == md5_header(upload.sends_md5(), parts[k].data@)
}

/// An upload has room for so many bytes more.
pub open spec fn has_parts_left(content: nat, more: nat) -> bool {
    (content + more) / MULTIPART_PART_SIZE as nat + 1 < i32::MAX
}

/// Parts that were cut stay what they are where the upload goes on.
proof fn lemma_sends_on(parts: Seq<UploadPart>, more: Seq<UploadPart>, before: int, mid: StreamingUpload, now: StreamingUpload)
    requires
        mid.wf(),
        0 <= before,
        sends(parts, before, mid),
        sends(more, mid.sent(), now),
        mid.content().len() <= now.content().len(),
        now.content().subrange(0, mid.content().len() as int) == mid.content(),
        now.sends_md5() == mid.sends_md5(),
    ensures
        sends(parts + more, before, now),
{
    let all = parts + more;
    let size = MULTIPART_PART_SIZE as int;
    mid.lemma_sent();
    assert forall|k: int| 0 <= k < all.len() implies (#[trigger] all[k]).number == before + k + 1 && all[k].data@
        == part_of(now.content(), size, before + k) && header_view(all[k].md5) == md5_header(
        now.sends_md5(),
        all[k].data@,
    ) by {
        if k < parts.len() {
            assert(all[k] == parts[k]);
            let i = before + k;
            assert((i + 1) * size <= mid.sent() * size) by (nonlinear_arith)
                requires
                    i + 1 <= mid.sent(),
                    size > 0,
            ;
            assert(i * size >= 0 && (i + 1) * size == i * size + size) by (nonlinear_arith)
                requires
                    i >= 0,
                    size > 0,
            ;
            let a = part_of(mid.content(), size, i);
            let b = part_of(now.content(), size, i);
            assert forall|j: int| 0 <= j < size implies a[j] == b[j] by {
                assert(mid.content()[i * size + j] == now.content().subrange(0, mid.content().len() as int)[i * size + j]);
            }
            assert(a =~= b);
        } else {
            assert(all[k] == more[k - parts.len()]);
        }
    }
}

/// Feeds zeros into an upload until it holds so many bytes.
fn fill_up(up: &mut StreamingUpload, len: u64, new_size: u64) -> (parts: Vec<UploadPart>)
    requires
        old(up).wf(),
        old(up).content().len() == len,
        len <= new_size,
        has_parts_left(new_size as nat, 0),
    ensures
        final(up).wf(),
        final(up).content() == resized(old(up).content(), new_size as nat),
        final(up).verifies() == old(up).verifies(),
        final(up).sends_md5() == old(up).sends_md5(),
        sends(parts@, old(up).sent(), *final(up)),
{
    let mut parts: Vec<UploadPart> = Vec::new();
    let mut at: u64 = len;
    proof {
        old(up).lemma_sent();
        assert(resized(up.content(), len as nat) =~= up.content());
    }
    while at < new_size
        invariant
            old(up).wf(),
            up.wf(),
            0 <= old(up).sent(),
            old(up).content().len() == len,
            len <= at <= new_size,
            has_parts_left(new_size as nat, 0),
            up.content() == resized(old(up).content(), at as nat),
            up.verifies() == old(up).verifies(),
            up.sends_md5() == old(up).sends_md5(),
            sends(parts@, old(up).sent(), *up),
        decreases new_size - at,
    {
        let left: u64 = new_size - at;
        let n: usize = if left < MULTIPART_PART_SIZE as u64 {
            left as usize
        } else {
            MULTIPART_PART_SIZE
        };
        let zeros = resize(Vec::new(), n);
        let ghost mid = *up;
        let ghost sent = parts@;
        proof {
            assert((at + n) / MULTIPART_PART_SIZE as int <= (new_size as int) / MULTIPART_PART_SIZE as int) by (nonlinear_arith)
                requires
                    at + n <= new_size,
                    MULTIPART_PART_SIZE > 0,
            ;
        }
        let mut more = up.write(zeros.as_slice());
        let ghost added = more@;
        parts.append(&mut more);
        at = at + n as u64;
        proof {
            assert(up.content() =~= resized(old(up).content(), at as nat));
            assert(up.content().subrange(0, mid.content().len() as int) =~= mid.content());
            lemma_sends_on(sent, added, old(up).sent(), mid, *up);
            assert(parts@ =~= sent + added);
        }
    }
    parts
}

impl OpenFile {
    /// Of a file that is being uploaded nothing is in memory but the size.
    pub open spec fn wf(&self) -> bool {
        self.stream matches Some(up) ==> {
            &&& up.wf()
            &&& self.loaded && self.dirty
            &&& self.write_buf matches Some(b) && b@.len() == 0
            &&& self.logical_size == up.content().len()
        }
    }

    /// The content is to be fetched before it can be changed.
    pub open spec fn unloaded(&self) -> bool {
        self.write_buf is Some && !self.loaded
    }

    /// What would be saved: the content of the upload, or what is in memory.
    pub open spec fn content(&self) -> Seq<u8> {
        match self.stream {
            Some(up) => up.content(),
            None => match self.write_buf {
                Some(b) => b@,
                None => Seq::empty(),
            },
        }
    }

    /// A file that was opened.
    pub fn open(path: &str, is_dir: bool, write: bool) -> (r: OpenFile)
        ensures
            r.wf(),
            r.path@ == path@,
            r.is_dir == is_dir,
            r.write_buf is Some <==> !is_dir && write,
            r.write_buf matches Some(b) ==> b@.len() == 0,
            !r.loaded && !r.dirty && !r.stream_failed && !r.unlinked,
            r.stream is None,
            r.held.units == 0,
            r.logical_size == 0,
    {
        OpenFile {
            path: copy_text(path),
            is_dir,
            write_buf: if !is_dir && write {
                Some(Vec::new())
            } else {
                None
            },
            loaded: false,
            dirty: false,
            held: Reservation::new(),
            stream: None,
            stream_failed: false,
            unlinked: false,
            logical_size: 0,
        }
    }

    /// A file that was created, or opened for writing by a request to create
    /// it; what it held before is fetched when it is needed.
    pub fn create(path: &str, needs_existing: bool) -> (r: OpenFile)
        ensures
            r.wf(),
            r.path@ == path@,
            !r.is_dir,
            r.write_buf matches Some(b) && b@.len() == 0,
            r.loaded == !needs_existing,
            !r.dirty && !r.stream_failed && !r.unlinked,
            r.stream is None,
            r.held.units == 0,
            r.logical_size == 0,
    {
        let mut r = OpenFile::open(path, false, true);
        r.loaded = !needs_existing;
        r
    }

    /// Whether the content has to be fetched before a write.
    pub fn needs_load(&self) -> (r: bool)
        ensures
            r == self.unloaded(),
    {
        self.write_buf.is_some() && !self.loaded
    }

    /// Takes the content that was fetched, unless there is some already.
    pub fn seed(&mut self, data: Vec<u8>)
        ensures
            *final(self) == if old(self).unloaded() {
                OpenFile { write_buf: Some(data), loaded: true, ..*old(self) }
            } else {
                *old(self)
            },
            old(self).wf() ==> final(self).wf(),
    {
        if self.needs_load() {
            self.write_buf = Some(data);
            self.loaded = true;
        }
    }

    /// What a read finds in memory. Before the content was fetched the object
    /// is read itself. Of a file whose upload is running nothing is in memory,
    /// so a read finds nothing, although the size is shown.
    pub fn read(&self, offset: u64, size: u32) -> (r: Option<Vec<u8>>)
        ensures
            r is Some <==> self.write_buf is Some && self.loaded,
            r matches Some(data) ==> data@ == slice_of(self.write_buf->0@, offset, size as nat),
    {
        match &self.write_buf {
            Some(buf) => if self.loaded {
                Some(slice_at(buf, offset, size as usize))
            } else {
                None
            },
            None => None,
        }
    }

    /// The bytes that the content takes in memory after a write, at most.
    pub fn write_size(&self, offset: u64, len: usize) -> (r: usize)
        ensures
            r == write_end(offset, len as nat),
    {
        (offset as usize).saturating_add(len)
    }

    /// So many bytes can be written at the offset: where an upload is running
    /// they have to continue it, else the file has to be open for writing and
    /// memory able to hold what comes of it.
    pub open spec fn takes(&self, offset: u64, len: nat) -> bool {
        match self.stream {
            Some(up) => offset == up.content().len(),
            None => self.write_buf is Some && offset + len <= usize::MAX,
        }
    }

    /// A write begins an upload: the content is there, and becomes large.
    pub open spec fn streams_from(&self, offset: u64, len: nat) -> bool {
        self.stream is None && self.takes(offset, len) && self.loaded && offset + len > WRITE_SPOOL_THRESHOLD
    }

    /// Whether a write begins an upload.
    pub fn starts_stream(&self, offset: u64, len: usize) -> (r: bool)
        ensures
            r == self.streams_from(offset, len as nat),
    {
        self.stream.is_none() && self.write_buf.is_some() && self.loaded && offset <= (usize::MAX - len) as u64
            && self.write_size(offset, len) > WRITE_SPOOL_THRESHOLD
    }

    /// Writes `data` at `offset`. Content that becomes large goes into an
    /// upload, with the data in its place. A running upload takes the data that
    /// continues it, and no other. Small content is kept in memory.
    #[verifier::rlimit(40)]
    pub fn write(&mut self, offset: u64, data: &[u8], verify_crc64: bool, content_md5: bool) -> (r: WriteStep)
        requires
            old(self).wf(),
            has_parts_left(old(self).content().len(), data@.len()),
            has_parts_left(offset as nat, data@.len()),
        ensures
            final(self).wf(),
            if !old(self).takes(offset, data@.len()) {
                r is Denied && *final(self) == *old(self)
            } else {
                match old(self).stream {
                    Some(up) => {
                        &&& r matches WriteStep::Streamed { parts } && final(self).stream matches Some(now)
                            && now.content() == up.content() + data@ && now.verifies() == up.verifies()
                            && now.sends_md5() == up.sends_md5() && sends(parts@, up.sent(), now)
                        &&& *final(self) == (OpenFile {
                            stream: final(self).stream,
                            logical_size: (offset + data@.len()) as u64,
                            dirty: true,
                            ..*old(self)
                        })
                    },
                    None => if !old(self).loaded {
                        r is Load && *final(self) == *old(self)
                    } else if offset + data@.len() > WRITE_SPOOL_THRESHOLD {
                        &&& r matches WriteStep::StartStream { parts } && final(self).stream matches Some(now)
                            && now.content() == written(old(self).content(), offset as nat, data@) && now.verifies()
                            == verify_crc64 && now.sends_md5() == content_md5 && sends(parts@, 0, now)
                        &&& final(self).write_buf matches Some(b) && b@.len() == 0
                        &&& *final(self) == (OpenFile {
                            stream: final(self).stream,
                            write_buf: final(self).write_buf,
                            logical_size: final(self).content().len() as u64,
                            dirty: true,
                            ..*old(self)
                        })
                    } else {
                        &&& r is Buffered
                        &&& final(self).write_buf matches Some(now) && now@ == written(
                            old(self).content(),
                            offset as nat,
                            data@,
                        )
                        &&& *final(self) == (OpenFile {
                            write_buf: final(self).write_buf,
                            logical_size: final(self).content().len() as u64,
                            dirty: true,
                            ..*old(self)
                        })
                    },
                }
            },
            // Wherever the data goes, it is saved in its place, and the size
            // that is shown is that of what is saved.
            !(r is Denied) && !(r is Load) ==> {
                &&& final(self).content() == written(old(self).content(), offset as nat, data@)
                &&& final(self).shown_size() == Some(final(self).content().len() as u64)
            },
    {
        proof {
            law_written_at_end(old(self).content(), data@);
        }
        let mut stream: Option<StreamingUpload> = None;
        std::mem::swap(&mut stream, &mut self.stream);
        if let Some(mut up) = stream {
            if offset != self.logical_size {
                self.stream = Some(up);
                return WriteStep::Denied;
            }
            let parts = up.write(data);
            self.logical_size = offset + data.len() as u64;
            self.dirty = true;
            self.stream = Some(up);
            return WriteStep::Streamed { parts };
        }
        if self.write_buf.is_none() || offset > (usize::MAX - data.len()) as u64 {
            return WriteStep::Denied;
        }
        if !self.loaded {
            return WriteStep::Load;
        }
        let start: usize = offset as usize;
        let mut held: Option<Vec<u8>> = None;
        std::mem::swap(&mut held, &mut self.write_buf);
        let all = match held {
            Some(buf) => write_at(buf, start, data),
            None => Vec::new(),
        };
        self.logical_size = all.len() as u64;
        self.dirty = true;
        if start + data.len() > WRITE_SPOOL_THRESHOLD {
            let mut up = StreamingUpload::new(verify_crc64, content_md5);
            let parts = up.write(all.as_slice());
            proof {
                assert(up.content() =~= all@);
            }
            self.stream = Some(up);
            self.write_buf = Some(Vec::new());
            WriteStep::StartStream { parts }
        } else {
            self.write_buf = Some(all);
            WriteStep::Buffered
        }
    }

    /// Whether the content has to be fetched before the size is changed.
    pub fn truncate_needs_load(&self, path: &str, new_size: u64) -> (r: bool)
        ensures
            r == (self.path@ == path@ && self.unloaded() && new_size != 0),
    {
        same_text(self.path.as_str(), path) && self.needs_load() && new_size != 0
    }

    /// The size can be changed as the file is: to nothing always; else a
    /// running upload is filled up, and content in memory gets a size that
    /// memory can hold.
    pub open spec fn can_resize(&self, new_size: u64) -> bool {
        new_size == 0 || match self.stream {
            Some(up) => up.content().len() <= new_size && has_parts_left(new_size as nat, 0),
            None => new_size <= usize::MAX,
        }
    }

    /// What went into the running upload is to be cut, which takes that the
    /// upload is finished first.
    pub open spec fn cuts_upload(&self, new_size: u64) -> bool {
        &&& 0 < new_size < self.content().len()
        &&& self.stream is Some && !self.unlinked && !self.stream_failed
    }

    /// Changes the size, where the file is open for writing: what is beyond it
    /// is cut off, and what is missing is filled up with zeros. To cut off
    /// everything, nothing of what the object holds is needed. What went into a
    /// running upload is cut once it was saved and fetched again.
    #[verifier::rlimit(40)]
    pub fn truncate(&mut self, path: &str, new_size: u64) -> (r: TruncateStep)
        requires
            old(self).wf(),
        ensures
            final(self).wf(),
            r is Elsewhere <==> old(self).path@ != path@ || old(self).write_buf is None,
            r is Load <==> old(self).path@ == path@ && old(self).unloaded() && new_size != 0,
            r is Save <==> old(self).path@ == path@ && old(self).cuts_upload(new_size),
            r is Refused <==> old(self).path@ == path@ && old(self).write_buf is Some && old(self).loaded
                && !old(self).can_resize(new_size) && !old(self).cuts_upload(new_size),
            !(r is Resized) ==> *final(self) == *old(self),
            r matches TruncateStep::Resized { abort, parts } ==> {
                &&& abort == (old(self).stream is Some && new_size == 0)
                &&& final(self).loaded
                &&& final(self).content() == resized(old(self).content(), new_size as nat)
                &&& final(self).shown_size() == Some(new_size)
                &&& if old(self).stream is Some && new_size != 0 {
                    let up = old(self).stream->0;
                    &&& final(self).stream matches Some(now) && now.verifies() == up.verifies() && now.sends_md5()
                        == up.sends_md5() && sends(parts@, up.sent(), now)
                    &&& *final(self) == (OpenFile {
                        stream: final(self).stream,
                        logical_size: new_size,
                        dirty: true,
                        ..*old(self)
                    })
                } else {
                    &&& parts@.len() == 0
                    &&& final(self).write_buf matches Some(now) && now@ == resized(
                        old(self).write_buf->0@,
                        new_size as nat,
                    )
                    &&& *final(self) == (OpenFile {
                        stream: None,
                        write_buf: final(self).write_buf,
                        loaded: true,
                        logical_size: new_size,
                        dirty: true,
                        ..*old(self)
                    })
                }
            },
    {
        if !same_text(self.path.as_str(), path) || self.write_buf.is_none() {
            return TruncateStep::Elsewhere;
        }
        if !self.loaded && new_size != 0 {
            return TruncateStep::Load;
        }
        if self.stream.is_some() && new_size != 0 {
            if new_size < self.logical_size {
                return if self.unlinked || self.stream_failed {
                    TruncateStep::Refused
                } else {
                    TruncateStep::Save
                };
            }
            if new_size / MULTIPART_PART_SIZE as u64 + 1 >= i32::MAX as u64 {
                return TruncateStep::Refused;
            }
            let mut parts: Vec<UploadPart> = Vec::new();
            let mut stream: Option<StreamingUpload> = None;
            std::mem::swap(&mut stream, &mut self.stream);
            if let Some(mut up) = stream {
                parts = fill_up(&mut up, self.logical_size, new_size);
                self.stream = Some(up);
            }
            self.logical_size = new_size;
            self.dirty = true;
            return TruncateStep::Resized { abort: false, parts };
        }
        if new_size > usize::MAX as u64 {
            return TruncateStep::Refused;
        }
        let abort = self.stream.is_some();
        let mut held: Option<Vec<u8>> = None;
        std::mem::swap(&mut held, &mut self.write_buf);
        let kept = match held {
            Some(buf) => buf,
            None => Vec::new(),
        };
        self.write_buf = Some(resize(kept, new_size as usize));
        self.stream = None;
        self.loaded = true;
        self.logical_size = new_size;
        self.dirty = true;
        proof {
            if abort {
                assert(resized(old(self).content(), 0) =~= resized(old(self).write_buf->0@, 0));
            }
        }
        TruncateStep::Resized { abort, parts: Vec::new() }
    }

    /// The size that is shown while the file is open, where it is not that of
    /// the object.
    pub open spec fn shown_size(&self) -> Option<u64> {
        if !self.loaded {
            None
        } else if self.logical_size > 0 {
            Some(self.logical_size)
        } else {
            match self.write_buf {
                Some(b) => Some(b@.len() as u64),
                None => None,
            }
        }
    }

    /// The size that is shown while the file is open.
    pub fn size(&self) -> (r: Option<u64>)
        ensures
            r == self.shown_size(),
    {
        if !self.loaded {
            None
        } else if self.logical_size > 0 {
            Some(self.logical_size)
        } else {
            match &self.write_buf {
                Some(b) => Some(b.len() as u64),
                None => None,
            }
        }
    }

    /// Begins to save the file. What was deleted is not saved, nor what has
    /// not been changed; after an upload that failed nothing is.
    pub fn flush(&mut self) -> (r: FlushStep)
        requires
            old(self).wf(),
        ensures
            final(self).wf(),
            if old(self).unlinked || !old(self).dirty {
                r is Nothing && *final(self) == *old(self)
            } else if old(self).stream_failed {
                r is Refuse && *final(self) == *old(self)
            } else {
                match old(self).stream {
                    Some(up) => {
                        &&& r matches FlushStep::Finish { last, crc } && crc == (if up.verifies() {
                            Some(crc64_of(up.content()))
                        } else {
                            None
                        }) && (last is Some <==> up.content().len() > up.sent() * MULTIPART_PART_SIZE) && (
                        last matches Some(p) ==> p.number == up.sent() + 1 && p.data@ == part_of(
                            up.content(),
                            MULTIPART_PART_SIZE as int,
                            up.sent(),
                        ) && header_view(p.md5) == md5_header(up.sends_md5(), p.data@))
                        &&& *final(self) == (OpenFile { stream: None, ..*old(self) })
                    },
                    None => {
                        &&& *final(self) == *old(self)
                        &&& old(self).write_buf is Some ==> r is Put
                        &&& old(self).write_buf is None ==> r is Nothing
                    },
                }
            },
    {
        if self.unlinked || !self.dirty {
            return FlushStep::Nothing;
        }
        if self.stream_failed {
            return FlushStep::Refuse;
        }
        let mut stream: Option<StreamingUpload> = None;
        std::mem::swap(&mut stream, &mut self.stream);
        if let Some(up) = stream {
            let (last, crc) = up.finish();
            return FlushStep::Finish { last, crc };
        }
        if self.write_buf.is_some() {
            FlushStep::Put
        } else {
            FlushStep::Nothing
        }
    }

    /// Notes that an upload could not be finished.
    pub fn flush_failed(&mut self)
        ensures
            *final(self) == (OpenFile { stream_failed: true, ..*old(self) }),
            old(self).wf() ==> final(self).wf(),
    {
        self.stream_failed = true;
    }

    /// Notes that the file was saved: the object is the content now.
    pub fn flushed(&mut self)
        ensures
            old(self).write_buf is None ==> *final(self) == (OpenFile { dirty: false, ..*old(self) }),
            old(self).write_buf is Some ==> (final(self).write_buf matches Some(b) && b@.len() == 0) && *final(self) == (
            OpenFile {
                write_buf: final(self).write_buf,
                dirty: false,
                loaded: false,
                logical_size: 0,
                ..*old(self)
            }),
            old(self).stream is None ==> final(self).wf(),
    {
        self.dirty = false;
        if self.write_buf.is_some() {
            self.write_buf = Some(Vec::new());
            self.loaded = false;
            self.logical_size = 0;
        }
    }

    /// Notes that the object of a path was deleted.
    pub fn unlink(&mut self, path: &str)
        ensures
            *final(self) == if old(self).path@ == path@ {
                OpenFile { unlinked: true, ..*old(self) }
            } else {
                *old(self)
            },
    {
        if same_text(self.path.as_str(), path) {
            self.unlinked = true;
        }
    }

    /// Notes that something was renamed: the file follows.
    pub fn retarget(&mut self, from: &str, to: &str)
        ensures
            final(self).path@ == renamed_path(old(self).path@, from@, to@),
            forall|rest: Seq<char>|
                old(self).path@ == #[trigger] (from@ + seq!['/'] + rest) ==> final(self).path@ == to@ + seq!['/'] + rest,
            *final(self) == (OpenFile { path: final(self).path, ..*old(self) }),
    {
        proof {
            assert forall|rest: Seq<char>| old(self).path@ == #[trigger] (from@ + seq!['/'] + rest) implies renamed_path(
                old(self).path@,
                from@,
                to@,
            ) == to@ + seq!['/'] + rest by {
                law_rename_takes_along(from@, to@, rest, rest);
            }
        }
        if same_text(self.path.as_str(), from) {
            self.path = copy_text(to);
            return;
        }
        let mut below = copy_text(from);
        below.push('/');
        proof {
            assert(below@ =~= from@ + seq!['/']);
        }
        if let Some(rest) = strip_prefix(self.path.as_str(), below.as_str()) {
            let mut path = copy_text(to);
            path.push('/');
            path.append(rest.as_str());
            proof {
                assert(path@ =~= to@ + seq!['/'] + rest@);
            }
            self.path = path;
        }
    }
}

/// A cut of what is being uploaded is made in the end: once the file was saved
/// its content has to be fetched, and where what is fetched is what was saved,
/// the size can be changed.
pub proof fn law_cut_upload(file: OpenFile, new_size: u64, saved: OpenFile, data: Vec<u8>, fetched: OpenFile)
    requires
        file.wf(),
        file.cuts_upload(new_size),
        new_size <= usize::MAX,
        saved.write_buf is Some,
        saved == (OpenFile {
            stream: None,
            write_buf: saved.write_buf,
            dirty: false,
            loaded: false,
            logical_size: 0,
            ..file
        }),
        fetched == (OpenFile { write_buf: Some(data), loaded: true, ..saved }),
        data@ == file.content(),
    ensures
        saved.wf(),
        saved.unloaded(),
        fetched.wf(),
        fetched.can_resize(new_size),
        resized(fetched.content(), new_size as nat) == resized(file.content(), new_size as nat),
{
}

/// Where something is after a rename: the path itself and everything below it
/// moves.
pub open spec fn renamed_path(path: Seq<char>, from: Seq<char>, to: Seq<char>) -> Seq<char> {
    let below = from + seq!['/'];
    if path == from {
        to
    } else if has_prefix(path, below) {
        to + seq!['/'] + tail_from(path, below.len() as int)
    } else {
        path
    }
}

/// After a rename between places of which neither is below the other, no open
/// file is at the old path or below it: nothing that is saved later brings the
/// old object back.
pub proof fn law_rename_leaves(path: Seq<char>, from: Seq<char>, to: Seq<char>)
    requires
        to != from,
        !has_prefix(to, from + seq!['/']),
        !has_prefix(from, to + seq!['/']),
    ensures
        renamed_path(path, from, to) != from,
        !has_prefix(renamed_path(path, from, to), from + seq!['/']),
{
    let below = from + seq!['/'];
    let top = to + seq!['/'];
    let now = renamed_path(path, from, to);
    let n = from.len() as int;
    let m = to.len() as int;
    if path != from && has_prefix(path, below) {
        let rest = tail_from(path, n + 1);
        assert(now == top + rest);
        assert(now.subrange(0, m + 1) =~= top);
        if has_prefix(now, below) {
            assert(now.subrange(0, n + 1) == below);
            if n == m {
                assert(now.subrange(0, n) =~= from) by {
                    assert forall|i: int| 0 <= i < n implies now[i] == from[i] by {
                        assert(now.subrange(0, n + 1)[i] == below[i]);
                    }
                }
                assert(now.subrange(0, n) =~= to);
            } else if n < m {
                assert(to.subrange(0, n + 1) =~= now.subrange(0, n + 1));
            } else {
                assert(from.subrange(0, m + 1) =~= top) by {
                    assert forall|i: int| 0 <= i < m + 1 implies from[i] == top[i] by {
                        assert(now.subrange(0, n + 1)[i] == below[i]);
                        assert(now[i] == top[i]);
                    }
                }
            }
        }
    }
}

/// A rename takes along what lies below: what was at the old place is at the
/// new one, and what was below it, however deep, is below the new one by the
/// same names. So what was at different places still is.
pub proof fn law_rename_takes_along(from: Seq<char>, to: Seq<char>, rest: Seq<char>, other: Seq<char>)
    ensures
        renamed_path(from, from, to) == to,
        renamed_path(from + seq!['/'] + rest, from, to) == to + seq!['/'] + rest,
        renamed_path(from + seq!['/'] + rest, from, to) == renamed_path(from + seq!['/'] + other, from, to) ==> rest == other,
        renamed_path(from + seq!['/'] + rest, from, to) != renamed_path(from, from, to),
{
    let below = from + seq!['/'];
    law_prefix_and_rest(below, rest);
    law_prefix_and_rest(below, other);
    assert((below + rest).len() > from.len());
    assert((below + other).len() > from.len());
    let top = to + seq!['/'];
    law_prefix_and_rest(top, rest);
    law_prefix_and_rest(top, other);
    assert((top + rest).len() > to.len());
}

/// A rename leaves everything else where it is, also what has a name that only
/// begins like the old one.
pub proof fn law_rename_leaves_others(path: Seq<char>, from: Seq<char>, to: Seq<char>)
    requires
        path != from,
        forall|rest: Seq<char>| path != #[trigger] (from + seq!['/'] + rest),
    ensures
        renamed_path(path, from, to) == path,
{
    let below = from + seq!['/'];
    if has_prefix(path, below) {
        assert(path =~= below + tail_from(path, below.len() as int));
        assert(path == from + seq!['/'] + tail_from(path, below.len() as int));
    }
}

/// Which writes are taken: a running upload takes what continues it and nothing
/// else; without one the file has to be open for writing.
pub proof fn law_takes(file: &OpenFile, offset: u64, len: nat)
    requires
        offset + len <= usize::MAX,
    ensures
        file.stream is Some ==> file.takes(offset, len) == (offset == file.stream->0.content().len()),
        file.stream is None ==> file.takes(offset, len) == (file.write_buf is Some),
        file.streams_from(offset, len) <==> file.stream is None && file.write_buf is Some && file.loaded && offset + len
            > 8_388_608,
{
}

/// The size that is shown while a file is open is that of what would be saved;
/// before the content was fetched it is that of the object.
pub proof fn law_shown_size(file: &OpenFile)
    requires
        file.wf(),
    ensures
        !file.loaded ==> file.shown_size() is None,
        file.loaded && file.stream is Some ==> file.shown_size() == Some(file.stream->0.content().len() as u64),
        file.loaded && file.stream is None && file.logical_size == 0 && file.write_buf is Some ==> file.shown_size() == Some(
            file.write_buf->0@.len() as u64,
        ),
        file.loaded && file.logical_size > 0 ==> file.shown_size() == Some(file.logical_size),
{
}

/// Which sizes a file can be given: any where its content is in memory, and any
/// that is not smaller where it is being uploaded; zero always.
pub proof fn law_can_resize(file: &OpenFile, new_size: u64)
    requires
        new_size <= usize::MAX,
        new_size < 0x3f_ffff_f000_0000,
    ensures
        file.can_resize(0),
        file.stream is None ==> file.can_resize(new_size),
        file.stream is Some && file.stream->0.content().len() <= new_size ==> file.can_resize(new_size),
        file.stream is Some && 0 < new_size < file.stream->0.content().len() ==> !file.can_resize(new_size)
            && file.cuts_upload(new_size) == (!file.unlinked && !file.stream_failed),
{
}

/// The parts that are sent are numbered from one, and each holds the eight
/// mebibytes of the content that its number tells.
pub proof fn law_parts_sent(parts: Seq<UploadPart>, before: int, upload: StreamingUpload, k: int)
    requires
        sends(parts, before, upload),
        upload.wf(),
        0 <= before,
        0 <= k < parts.len(),
    ensures
        parts[k].number == before + k + 1,
        parts[k].data@.len() == 8_388_608,
        parts[k].data@ == upload.content().subrange((before + k) * 8_388_608, (before + k + 1) * 8_388_608),
        parts.len() == upload.sent() - before,
{
    upload.lemma_sent();
    let i = before + k;
    assert((i + 1) * 8_388_608 <= upload.sent() * 8_388_608) by (nonlinear_arith)
        requires
            i + 1 <= upload.sent(),
    ;
}

} // verus!
