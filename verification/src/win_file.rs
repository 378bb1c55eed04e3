//! An open file of the WinFsp mount: what it holds in memory, in a spool file
//! and in a running upload, and what becomes of it.

use vstd::prelude::*;
use vstd::string::*;

use crate::budget::Reservation;
use crate::checksum::{crc64_of, file_index, index_of};
use crate::content::{
    law_written, resize, resized, slice_at, slice_of, write_at, written, Splice, WRITE_SPOOL_THRESHOLD,
};
use crate::fuse_file::{has_parts_left, sends};
use crate::settings::MULTIPART_PART_SIZE;
use crate::text::{copy_text, same_text};
use crate::upload::{header_view, md5_header, part_of, StreamingUpload, UploadPart};

verus! {

/// An upload that is bound to the key of an object.
pub struct KeyedUpload {
    pub key: String,
    pub upload: StreamingUpload,
}

/// An open file.
pub struct OssFileContext {
    pub path: String,
    pub is_dir: bool,
    /// The content, where the file is open for writing.
    pub write_buf: Option<Vec<u8>>,
    /// The content has been fetched, or need not be.
    pub loaded: bool,
    pub dirty: bool,
    pub delete_on_close: bool,
    /// What is held of the budget for unsaved bytes.
    pub held: Reservation,
    /// There is a spool file from which the content can be read back.
    pub spooled: bool,
    pub spool_size: u64,
    /// The upload that the content goes into once it is large.
    pub stream: Option<KeyedUpload>,
    /// An upload could not be finished: its content is lost.
    pub stream_failed: bool,
    /// The size of the file, where it has been set or written.
    pub logical_size: u64,
}

/// Why a file is not changed.
#[derive(Debug, Clone, Copy, PartialEq, Eq, Structural)]
pub enum FileError {
    /// It is a directory.
    IsDirectory,
    /// It is not open for writing.
    AccessDenied,
    /// A running upload can only be added to.
    OutOfOrder { at: u64, size: u64 },
    /// An earlier upload failed, and what is in memory is not the content.
    StreamFailed,
    /// So much would have to be filled with zeros in memory.
    TooLong { size: u64 },
}

/// What a write does.
#[derive(Debug)]
pub enum WinWrite {
    /// There is nothing to write.
    Nothing,
    /// The data went into the running upload: these parts are to be sent, and
    /// the data goes to the spool file where there is one.
    Streamed { parts: Vec<UploadPart>, size: u64 },
    /// The content is to be fetched first: from the spool file where `spool`
    /// is set, which is done with then, else from the object.
    Load { spool: bool },
    /// The content is to be passed on to a spool file and an upload, with the
    /// data written over it at `anchor`.
    StartStream { anchor: usize },
    /// The data is in memory.
    Buffered { size: u64 },
    /// The file is not written.
    Refused { error: FileError },
}

/// What is left behind when the size of a file is set.
#[derive(Debug, Clone, Copy, PartialEq, Eq, Structural)]
pub struct SizeStep {
    /// The running upload is to be aborted.
    pub abort: bool,
    /// The spool file is to be removed.
    pub remove_spool: bool,
    /// The spool file is to be given the new size.
    pub resize_spool: bool,
}

/// What saving a file takes.
#[derive(Debug)]
pub enum SaveStep {
    /// Nothing.
    Nothing,
    /// It is refused.
    Refused { error: FileError },
    /// The file was renamed: the upload is to be aborted, and the spool file,
    /// where there is one, to be written to the new place.
    Retarget { spool: bool },
    /// The upload is to be finished with this part, and the checksum compared.
    Finish { last: Option<UploadPart>, crc: Option<u64> },
    /// The spool file is to be written.
    FromSpool,
    /// The content in memory is to be written as it is.
    Put,
    /// The content is to be given its size and written; it is to be fetched
    /// first where it has not been.
    Resize { load: bool, size: u64 },
    /// There is no content.
    Clean,
}

/// What is done when the last user lets go of a file.
#[derive(Debug, Clone, Copy, PartialEq, Eq, Structural)]
pub enum CleanupStep {
    Nothing,
    Save,
    /// It is to be deleted; what is under way is dropped.
    Delete { is_dir: bool, abort: bool, remove_spool: bool },
}

/// Where a read finds its bytes.
#[derive(Debug)]
pub enum WinRead {
    Nothing,
    Spool,
    Memory { data: Vec<u8> },
    Object,
}

/// The number of bytes that a write at `at` reaches up to, as far as a word
/// can count.
pub open spec fn reach(at: u64, len: nat) -> int {
    let n = (at as usize) + len;
    if n <= usize::MAX {
        n as int
    } else {
        usize::MAX as int
    }
}

impl OssFileContext {
    pub open spec fn wf(&self) -> bool {
        self.stream matches Some(s) ==> s.upload.wf()
    }

    /// The size tells how much has gone into the running upload.
    pub open spec fn stream_counted(&self) -> bool {
        self.stream matches Some(s) ==> s.upload.content().len() == self.logical_size
    }

    /// What is in memory.
    pub open spec fn memory(&self) -> Seq<u8> {
        match self.write_buf {
            Some(b) => b@,
            None => Seq::empty(),
        }
    }

    /// The content is not in memory: it is in the spool file that an upload
    /// has left behind, or in the object.
    pub open spec fn elsewhere(&self) -> bool {
        self.stream is None && (self.spooled || !self.loaded)
    }

    /// A file with nothing in memory.
    pub open spec fn is_fresh(&self, path: Seq<char>, is_dir: bool, write: bool, loaded: bool) -> bool {
        &&& self.path@ == path
        &&& self.is_dir == is_dir
        &&& self.write_buf is Some <==> write
        &&& self.memory().len() == 0
        &&& self.loaded == loaded
        &&& !self.dirty && !self.delete_on_close && !self.spooled && !self.stream_failed
        &&& self.held.units == 0
        &&& self.spool_size == 0
        &&& self.stream is None
        &&& self.logical_size == 0
    }

    /// A file that was opened or created.
    pub fn new(path: &str, is_dir: bool, write: bool, loaded: bool) -> (r: OssFileContext)
        ensures
            r.wf(),
            r.is_fresh(path@, is_dir, write, loaded),
    {
        OssFileContext {
            path: copy_text(path),
            is_dir,
            write_buf: if write {
                Some(Vec::new())
            } else {
                None
            },
            loaded,
            dirty: false,
            delete_on_close: false,
            held: Reservation::new(),
            spooled: false,
            spool_size: 0,
            stream: None,
            stream_failed: false,
            logical_size: 0,
        }
    }

    /// The number by which the file is known.
    pub fn index(&self) -> (r: u64)
        ensures
            r == index_of(vstd::utf8::encode_utf8(self.path@)),
    {
        file_index(self.path.as_str())
    }

    /// The file follows a rename.
    pub fn retarget(&mut self, path: &str)
        ensures
            final(self).path@ == path@,
            *final(self) == (OssFileContext { path: final(self).path, ..*old(self) }),
    {
        self.path = copy_text(path);
    }

    /// Marks the file to be deleted when it is let go of, or not.
    pub fn set_delete(&mut self, delete: bool)
        ensures
            *final(self) == (OssFileContext { delete_on_close: delete, ..*old(self) }),
    {
        self.delete_on_close = delete;
    }

    /// Where a read of `len` bytes at `offset` finds them: while an upload is
    /// under way in the spool file, else in memory, and before the content has
    /// been fetched in the object.
    pub fn read(&self, offset: u64, len: usize) -> (r: WinRead)
        ensures
            len == 0 ==> r is Nothing,
            len > 0 && self.spooled ==> r is Spool,
            len > 0 && !self.spooled && self.write_buf is Some && self.loaded ==> (r matches WinRead::Memory { data }
                && data@ == slice_of(self.memory(), offset, len as nat)),
            len > 0 && !self.spooled && !(self.write_buf is Some && self.loaded) ==> r is Object,
    {
        if len == 0 {
            return WinRead::Nothing;
        }
        if self.spooled {
            return WinRead::Spool;
        }
        match &self.write_buf {
            Some(buf) => if self.loaded {
                WinRead::Memory { data: slice_at(buf, offset, len) }
            } else {
                WinRead::Object
            },
            None => WinRead::Object,
        }
    }

    /// The size of the file where it is not that of the object.
    pub open spec fn shown_size(&self) -> Option<u64> {
        if self.logical_size > 0 {
            Some(self.logical_size)
        } else if self.spooled {
            Some(self.spool_size)
        } else if self.write_buf is Some && self.loaded {
            Some(self.memory().len() as u64)
        } else {
            None
        }
    }

    /// The size of the file where it is not that of the object.
    pub fn size(&self) -> (r: Option<u64>)
        ensures
            r == self.shown_size(),
    {
        if self.logical_size > 0 {
            Some(self.logical_size)
        } else if self.spooled {
            Some(self.spool_size)
        } else {
            match &self.write_buf {
                Some(buf) => if self.loaded {
                    Some(buf.len() as u64)
                } else {
                    None
                },
                None => None,
            }
        }
    }

    /// Takes the content that was fetched, unless there is some already. A
    /// size that was set in the meantime holds. A spool file that it was
    /// fetched from is done with.
    pub fn seed(&mut self, data: Vec<u8>) -> (r: Result<(), FileError>)
        ensures
            old(self).write_buf is None ==> r == Err::<(), FileError>(FileError::AccessDenied) && *final(self)
                == *old(self),
            old(self).write_buf is Some && !old(self).elsewhere() ==> r is Ok && *final(self) == *old(self),
            old(self).write_buf is Some && old(self).elsewhere() ==> {
                let content = if old(self).logical_size > 0 {
                    resized(data@, (old(self).logical_size as usize) as nat)
                } else {
                    data@
                };
                &&& r is Ok
                &&& final(self).write_buf is Some
                &&& final(self).memory() == content
                &&& *final(self) == (OssFileContext {
                    write_buf: final(self).write_buf,
                    loaded: true,
                    spooled: false,
                    spool_size: if old(self).spooled {
                        0
                    } else {
                        old(self).spool_size
                    },
                    logical_size: if content.len() > old(self).logical_size {
                        content.len() as u64
                    } else {
                        old(self).logical_size
                    },
                    ..*old(self)
                })
            },
    {
        if self.write_buf.is_none() {
            return Err(FileError::AccessDenied);
        }
        if self.stream.is_none() && (self.spooled || !self.loaded) {
            if self.spooled {
                self.spooled = false;
                self.spool_size = 0;
            }
            let content = if self.logical_size > 0 {
                resize(data, self.logical_size as usize)
            } else {
                data
            };
            let len: u64 = content.len() as u64;
            self.write_buf = Some(content);
            if len > self.logical_size {
                self.logical_size = len;
            }
            self.loaded = true;
        }
        Ok(())
    }

    /// Where a write begins: at the end, where that is wanted.
    pub open spec fn write_start(&self, offset: u64, to_eof: bool) -> u64 {
        if to_eof {
            self.memory().len() as u64
        } else {
            offset
        }
    }

    /// The bytes that the content takes in memory after a write, at most.
    pub fn write_size(&self, offset: u64, to_eof: bool, len: usize) -> (r: usize)
        ensures
            r == reach(self.write_start(offset, to_eof), len as nat),
    {
        let start: u64 = if to_eof {
            match &self.write_buf {
                Some(buf) => buf.len() as u64,
                None => 0,
            }
        } else {
            offset
        };
        (start as usize).saturating_add(len)
    }

    /// What a write does, and what the file is after it.
    pub open spec fn write_outcome(&self, offset: u64, to_eof: bool, data: Seq<u8>, r: WinWrite, after: &OssFileContext) -> bool {
        let start = self.write_start(offset, to_eof);
        let size = reach(start, data.len());
        if data.len() == 0 {
            r is Nothing && *after == *self
        } else if self.stream is Some {
            let s = self.stream->0;
            let base = if to_eof {
                self.logical_size
            } else {
                offset
            };
            if base != self.logical_size {
                &&& r matches WinWrite::Refused { error } && error == (FileError::OutOfOrder {
                    at: base,
                    size: self.logical_size,
                })
                &&& *after == *self
            } else {
                let end = if base + data.len() <= u64::MAX {
                    (base + data.len()) as u64
                } else {
                    u64::MAX
                };
                &&& r matches WinWrite::Streamed { parts, size: shown } && after.stream matches Some(now)
                    && shown == end && now.key == s.key && now.upload.content() == s.upload.content() + data
                    && now.upload.verifies() == s.upload.verifies() && now.upload.sends_md5()
                    == s.upload.sends_md5() && sends(parts@, s.upload.sent(), now.upload)
                &&& *after == (OssFileContext {
                    stream: after.stream,
                    logical_size: end,
                    dirty: true,
                    ..*self
                })
            }
        } else if self.elsewhere() {
            &&& r matches WinWrite::Load { spool } && spool == self.spooled
            &&& *after == *self
        } else if size > WRITE_SPOOL_THRESHOLD {
            &&& r matches WinWrite::StartStream { anchor } && anchor == start as usize
            &&& *after == *self
        } else if self.write_buf is None {
            &&& r matches WinWrite::Refused { error } && error == FileError::AccessDenied
            &&& *after == *self
        } else {
            &&& r matches WinWrite::Buffered { size: shown } && shown == size
            &&& after.write_buf is Some
            &&& after.memory() == written(self.memory(), (start as usize) as nat, data)
            &&& *after == (OssFileContext {
                write_buf: after.write_buf,
                logical_size: if size > self.logical_size {
                    size as u64
                } else {
                    self.logical_size
                },
                dirty: true,
                ..*self
            })
        }
    }

    /// Writes `data`. A running upload can only be added to at its end.
    /// Content that has to be fetched is fetched first, and content that
    /// becomes large goes into an upload; small content is kept, and is what is
    /// read and saved from then on.
    #[verifier::rlimit(40)]
    pub fn write(&mut self, offset: u64, to_eof: bool, data: &[u8]) -> (r: WinWrite)
        requires
            old(self).wf(),
            old(self).stream matches Some(s) ==> has_parts_left(s.upload.content().len(), data@.len()),
        ensures
            final(self).wf(),
            old(self).write_outcome(offset, to_eof, data@, r, final(self)),
            old(self).stream_counted() && old(self).logical_size + data@.len() <= u64::MAX
                ==> final(self).stream_counted(),
            old(self).spooled && old(self).stream is None ==> !(r is Buffered),
            r is Buffered ==> final(self).loaded && !final(self).spooled && final(self).stream is None,
    {
        if data.len() == 0 {
            return WinWrite::Nothing;
        }
        let mut stream: Option<KeyedUpload> = None;
        std::mem::swap(&mut stream, &mut self.stream);
        if let Some(s) = stream {
            let base: u64 = if to_eof {
                self.logical_size
            } else {
                offset
            };
            let size: u64 = self.logical_size;
            if base != size {
                self.stream = Some(s);
                return WinWrite::Refused { error: FileError::OutOfOrder { at: base, size } };
            }
            let KeyedUpload { key, mut upload } = s;
            let parts = upload.write(data);
            let end: u64 = base.saturating_add(data.len() as u64);
            if end > self.logical_size {
                self.logical_size = end;
            }
            self.dirty = true;
            self.stream = Some(KeyedUpload { key, upload });
            return WinWrite::Streamed { parts, size: self.logical_size };
        }
        if self.spooled || !self.loaded {
            return WinWrite::Load { spool: self.spooled };
        }
        let have: usize = match &self.write_buf {
            Some(buf) => buf.len(),
            None => 0,
        };
        let start: u64 = if to_eof {
            have as u64
        } else {
            offset
        };
        let at: usize = start as usize;
        let size: usize = at.saturating_add(data.len());
        if size > WRITE_SPOOL_THRESHOLD {
            return WinWrite::StartStream { anchor: at };
        }
        let mut buf: Option<Vec<u8>> = None;
        std::mem::swap(&mut buf, &mut self.write_buf);
        match buf {
            None => WinWrite::Refused { error: FileError::AccessDenied },
            Some(buf) => {
                self.write_buf = Some(write_at(buf, at, data));
                if size as u64 > self.logical_size {
                    self.logical_size = size as u64;
                }
                self.dirty = true;
                WinWrite::Buffered { size: size as u64 }
            },
        }
    }

    /// Begins to pass on the content in memory with `data` written over it at
    /// `anchor`.
    pub fn begin_splice(&self, anchor: usize, data: &[u8]) -> (r: Splice)
        requires
            anchor + data@.len() <= usize::MAX,
        ensures
            r.wf(self.memory()),
            r.rest(self.memory(), data@) == written(self.memory(), anchor as nat, data@),
    {
        match &self.write_buf {
            Some(buf) => Splice::begin(buf, anchor, data),
            None => {
                let empty: Vec<u8> = Vec::new();
                proof {
                    assert(empty@ =~= Seq::<u8>::empty());
                }
                Splice::begin(&empty, anchor, data)
            },
        }
    }

    /// The next piece to be passed on.
    pub fn next_piece(&self, splice: &mut Splice, data: &[u8]) -> (r: Option<Vec<u8>>)
        requires
            old(splice).wf(self.memory()),
        ensures
            final(splice).wf(self.memory()),
            r is None ==> old(splice).rest(self.memory(), data@).len() == 0,
            r matches Some(piece) ==> old(splice).rest(self.memory(), data@) == piece@ + final(splice).rest(
                self.memory(),
                data@,
            ),
            r is Some ==> 0 <= final(splice).steps() < old(splice).steps(),
    {
        match &self.write_buf {
            Some(buf) => splice.next_piece(buf, data),
            None => {
                let empty: Vec<u8> = Vec::new();
                proof {
                    assert(empty@ =~= Seq::<u8>::empty());
                }
                splice.next_piece(&empty, data)
            },
        }
    }

    /// Notes that the content, with `len` bytes written over it at `anchor`,
    /// has gone into a spool file and into `upload`.
    pub fn stream_started(&mut self, key: String, upload: StreamingUpload, anchor: usize, len: usize) -> (size: u64)
        requires
            upload.wf(),
        ensures
            final(self).wf(),
            size == if reach(anchor as u64, len as nat) > old(self).memory().len() {
                reach(anchor as u64, len as nat)
            } else {
                old(self).memory().len() as int
            },
            final(self).memory().len() == 0,
            final(self).write_buf is Some,
            *final(self) == (OssFileContext {
                write_buf: final(self).write_buf,
                spooled: true,
                spool_size: size,
                loaded: true,
                stream: Some(KeyedUpload { key, upload }),
                logical_size: size,
                dirty: true,
                ..*old(self)
            }),
            forall|data: Seq<u8>|
                #![trigger written(old(self).memory(), anchor as nat, data)]
                data.len() == len && anchor + len <= usize::MAX && upload.content() == written(
                    old(self).memory(),
                    anchor as nat,
                    data,
                ) ==> final(self).stream_counted(),
    {
        let have: usize = match &self.write_buf {
            Some(buf) => buf.len(),
            None => 0,
        };
        let end: usize = anchor.saturating_add(len);
        let size: u64 = if end > have {
            end as u64
        } else {
            have as u64
        };
        self.write_buf = Some(Vec::new());
        self.spooled = true;
        self.spool_size = size;
        self.loaded = true;
        self.stream = Some(KeyedUpload { key, upload });
        self.logical_size = size;
        self.dirty = true;
        size
    }

    /// Notes that data has been added to the spool file.
    pub fn spool_appended(&mut self, len: u64)
        ensures
            *final(self) == (OssFileContext {
                spool_size: u64::wrapping_add(old(self).spool_size, len),
                ..*old(self)
            }),
    {
        crate::metrics::count(&mut self.spool_size, len);
    }

    /// Sets the size of the file. What is under way holds the old content,
    /// and is dropped.
    pub fn set_file_size(&mut self, new_size: u64) -> (r: Result<SizeStep, FileError>)
        requires
            old(self).wf(),
        ensures
            final(self).wf(),
            old(self).is_dir ==> r == Err::<SizeStep, FileError>(FileError::IsDirectory) && *final(self) == *old(self),
            !old(self).is_dir && new_size == 0 ==> {
                &&& r == Ok::<SizeStep, FileError>(
                    SizeStep { abort: old(self).stream is Some, remove_spool: old(self).spooled, resize_spool: false },
                )
                &&& final(self).write_buf is Some <==> old(self).write_buf is Some
                &&& final(self).memory().len() == 0
                &&& *final(self) == (OssFileContext {
                    write_buf: final(self).write_buf,
                    stream: None,
                    spooled: false,
                    spool_size: if old(self).spooled {
                        0
                    } else {
                        old(self).spool_size
                    },
                    logical_size: 0,
                    loaded: true,
                    dirty: true,
                    ..*old(self)
                })
            },
            !old(self).is_dir && new_size > 0 ==> {
                &&& r == Ok::<SizeStep, FileError>(
                    SizeStep { abort: old(self).stream is Some, remove_spool: false, resize_spool: old(self).spooled },
                )
                &&& *final(self) == (OssFileContext {
                    stream: None,
                    spool_size: if old(self).spooled {
                        new_size
                    } else {
                        old(self).spool_size
                    },
                    logical_size: new_size,
                    dirty: true,
                    ..*old(self)
                })
            },
    {
        if self.is_dir {
            return Err(FileError::IsDirectory);
        }
        let abort = self.stream.is_some();
        let spooled = self.spooled;
        self.stream = None;
        self.logical_size = new_size;
        self.dirty = true;
        if new_size == 0 {
            if spooled {
                self.spooled = false;
                self.spool_size = 0;
            }
            if self.write_buf.is_some() {
                self.write_buf = Some(Vec::new());
            }
            self.loaded = true;
            Ok(SizeStep { abort, remove_spool: spooled, resize_spool: false })
        } else {
            if spooled {
                self.spool_size = new_size;
            }
            Ok(SizeStep { abort, remove_spool: false, resize_spool: spooled })
        }
    }

    /// Empties the file, as its replacement begins.
    pub fn overwrite(&mut self) -> (r: Result<SizeStep, FileError>)
        requires
            old(self).wf(),
        ensures
            final(self).wf(),
            old(self).is_dir ==> r == Err::<SizeStep, FileError>(FileError::IsDirectory) && *final(self) == *old(self),
            !old(self).is_dir ==> {
                &&& r == Ok::<SizeStep, FileError>(
                    SizeStep { abort: old(self).stream is Some, remove_spool: old(self).spooled, resize_spool: false },
                )
                &&& final(self).write_buf is Some <==> old(self).write_buf is Some
                &&& final(self).memory().len() == 0
                &&& *final(self) == (OssFileContext {
                    write_buf: final(self).write_buf,
                    stream: None,
                    spooled: false,
                    spool_size: if old(self).spooled {
                        0
                    } else {
                        old(self).spool_size
                    },
                    logical_size: 0,
                    loaded: true,
                    dirty: true,
                    ..*old(self)
                })
            },
    {
        self.set_file_size(0)
    }

    /// Begins to save the file, `key` being the key of the object at its path.
    #[verifier::rlimit(40)]
    pub fn save(&mut self, key: &str) -> (r: SaveStep)
        requires
            old(self).wf(),
        ensures
            final(self).wf(),
            if !old(self).dirty {
                r is Nothing && *final(self) == *old(self)
            } else if old(self).stream_failed {
                &&& r matches SaveStep::Refused { error } && error == FileError::StreamFailed
                &&& *final(self) == *old(self)
            } else {
                match old(self).stream {
                    Some(s) => if s.key@ != key@ {
                        &&& r matches SaveStep::Retarget { spool } && spool == old(self).spooled
                        &&& *final(self) == (OssFileContext { stream: None, spooled: false, ..*old(self) })
                    } else {
                        &&& r matches SaveStep::Finish { last, crc } && crc == (if s.upload.verifies() {
                            Some(crc64_of(s.upload.content()))
                        } else {
                            None
                        }) && (last is Some <==> s.upload.content().len() > s.upload.sent() * MULTIPART_PART_SIZE) && (
                        last matches Some(p) ==> p.number == s.upload.sent() + 1 && p.data@ == part_of(
                            s.upload.content(),
                            MULTIPART_PART_SIZE as int,
                            s.upload.sent(),
                        ) && header_view(p.md5) == md5_header(s.upload.sends_md5(), p.data@))
                        &&& *final(self) == (OssFileContext { stream: None, ..*old(self) })
                    },
                    None => {
                        &&& *final(self) == *old(self)
                        &&& if old(self).spooled {
                            r is FromSpool
                        } else if old(self).write_buf is None {
                            r is Clean
                        } else {
                            let size = old(self).logical_size as usize;
                            let have = old(self).memory().len();
                            if size == have {
                                r is Put
                            } else if size > have && size > WRITE_SPOOL_THRESHOLD {
                                r matches SaveStep::Refused { error } && error == (FileError::TooLong { size: size as u64 })
                            } else {
                                r matches SaveStep::Resize { load, size: n } && load == (!old(self).loaded && size > 0)
                                    && n == size
                            }
                        }
                    },
                }
            },
    {
        if !self.dirty {
            return SaveStep::Nothing;
        }
        if self.stream_failed {
            return SaveStep::Refused { error: FileError::StreamFailed };
        }
        let mut stream: Option<KeyedUpload> = None;
        std::mem::swap(&mut stream, &mut self.stream);
        if let Some(s) = stream {
            if !same_text(s.key.as_str(), key) {
                let spool = self.spooled;
                self.spooled = false;
                return SaveStep::Retarget { spool };
            }
            let (last, crc) = s.upload.finish();
            return SaveStep::Finish { last, crc };
        }
        if self.spooled {
            return SaveStep::FromSpool;
        }
        match &self.write_buf {
            None => SaveStep::Clean,
            Some(buf) => {
                let size: usize = self.logical_size as usize;
                if size == buf.len() {
                    SaveStep::Put
                } else if size > buf.len() && size > WRITE_SPOOL_THRESHOLD {
                    SaveStep::Refused { error: FileError::TooLong { size: size as u64 } }
                } else {
                    SaveStep::Resize { load: !self.loaded && size > 0, size: size as u64 }
                }
            },
        }
    }

    /// The content to be written where the size of the file was set: of the
    /// object where it was fetched, else of what is in memory.
    pub fn sized_content(&self, fetched: Option<Vec<u8>>) -> (r: Vec<u8>)
        ensures
            r@ == resized(
                match fetched {
                    Some(data) => data@,
                    None => self.memory(),
                },
                (self.logical_size as usize) as nat,
            ),
    {
        let content = match fetched {
            Some(data) => data,
            None => match &self.write_buf {
                Some(buf) => crate::caches::copy_range(buf, 0, buf.len()),
                None => Vec::new(),
            },
        };
        proof {
            if fetched is None {
                assert(content@ =~= self.memory());
            }
        }
        resize(content, self.logical_size as usize)
    }

    /// Notes that an upload could not be finished.
    pub fn save_failed(&mut self)
        ensures
            *final(self) == (OssFileContext { stream_failed: true, ..*old(self) }),
    {
        self.stream_failed = true;
    }

    /// Notes that an upload was finished, or its spool file written to the
    /// place that the file was renamed to: the object is the content now.
    pub fn stream_saved(&mut self)
        ensures
            final(self).write_buf is Some,
            final(self).memory().len() == 0,
            *final(self) == (OssFileContext {
                write_buf: final(self).write_buf,
                spooled: false,
                spool_size: 0,
                logical_size: 0,
                loaded: false,
                dirty: false,
                ..*old(self)
            }),
    {
        self.write_buf = Some(Vec::new());
        self.spooled = false;
        self.spool_size = 0;
        self.logical_size = 0;
        self.loaded = false;
        self.dirty = false;
    }

    /// Notes that the spool file was written: the object is the content now.
    pub fn spool_saved(&mut self)
        ensures
            final(self).write_buf is Some,
            final(self).memory().len() == 0,
            *final(self) == (OssFileContext {
                write_buf: final(self).write_buf,
                spooled: false,
                spool_size: 0,
                loaded: false,
                dirty: false,
                ..*old(self)
            }),
    {
        self.write_buf = Some(Vec::new());
        self.spooled = false;
        self.spool_size = 0;
        self.loaded = false;
        self.dirty = false;
    }

    /// Notes that what is in memory was written. It is kept.
    pub fn saved(&mut self)
        ensures
            *final(self) == (OssFileContext { dirty: false, ..*old(self) }),
    {
        self.dirty = false;
    }

    /// What is done when the last user lets go of the file.
    pub open spec fn cleanup_step(&self, delete: bool) -> CleanupStep {
        if self.delete_on_close || delete {
            CleanupStep::Delete {
                is_dir: self.is_dir,
                abort: self.stream is Some,
                remove_spool: self.spooled,
            }
        } else if self.dirty {
            CleanupStep::Save
        } else {
            CleanupStep::Nothing
        }
    }

    /// What is done when the last user lets go of the file, `delete` telling
    /// whether the system asks to delete it.
    pub fn cleanup(&mut self, delete: bool) -> (r: CleanupStep)
        requires
            old(self).wf(),
        ensures
            final(self).wf(),
            r == old(self).cleanup_step(delete),
            *final(self) == if r is Delete {
                OssFileContext {
                    stream: None,
                    spooled: false,
                    spool_size: if old(self).spooled {
                        0
                    } else {
                        old(self).spool_size
                    },
                    ..*old(self)
                }
            } else {
                *old(self)
            },
    {
        if self.delete_on_close || delete {
            let abort = self.stream.is_some();
            let remove_spool = self.spooled;
            self.stream = None;
            if self.spooled {
                self.spooled = false;
                self.spool_size = 0;
            }
            return CleanupStep::Delete { is_dir: self.is_dir, abort, remove_spool };
        }
        if self.dirty {
            CleanupStep::Save
        } else {
            CleanupStep::Nothing
        }
    }

    /// What is left behind when the file is closed.
    pub fn close(self) -> (r: SizeStep)
        ensures
            r == (SizeStep { abort: self.stream is Some, remove_spool: self.spooled, resize_spool: false }),
    {
        SizeStep { abort: self.stream.is_some(), remove_spool: self.spooled, resize_spool: false }
    }
}

/// Saving is done once: a file that has been saved, by whatever way, is not
/// saved again when it is let go of.
pub proof fn law_saved_once(file: OssFileContext, saved: OssFileContext)
    requires
        saved == (OssFileContext { dirty: false, ..file }) || saved == (OssFileContext {
            write_buf: saved.write_buf,
            spooled: false,
            spool_size: 0,
            loaded: false,
            dirty: false,
            ..file
        }) || saved == (OssFileContext {
            write_buf: saved.write_buf,
            spooled: false,
            spool_size: 0,
            logical_size: 0,
            loaded: false,
            dirty: false,
            ..file
        }),
        !file.delete_on_close,
    ensures
        saved.cleanup_step(false) == CleanupStep::Nothing,
{
}

/// What a write leaves behind. Data that is kept in memory is at its place,
/// everything else is as it was, a gap before it is zero, and the size reaches up
/// to the end of it at least. Data that goes into an upload is added to its end.
/// Whatever else comes back, nothing has changed.
pub proof fn law_write_in_place(
    file: &OssFileContext,
    offset: u64,
    to_eof: bool,
    data: Seq<u8>,
    r: WinWrite,
    after: &OssFileContext,
    i: int,
)
    requires
        file.write_outcome(offset, to_eof, data, r, after),
        data.len() > 0,
        offset + data.len() <= usize::MAX,
        file.memory().len() + data.len() <= usize::MAX,
    ensures
        r is Buffered ==> {
            let start = if to_eof {
                file.memory().len() as int
            } else {
                offset as int
            };
            &&& 0 <= i < data.len() ==> after.memory()[start + i] == data[i]
            &&& 0 <= i < file.memory().len() && (i < start || i >= start + data.len()) ==> after.memory()[i]
                == file.memory()[i]
            &&& file.memory().len() <= i < start ==> after.memory()[i] == 0
            &&& start + data.len() <= 8_388_608
            &&& after.dirty && after.logical_size >= start + data.len() && after.logical_size >= file.logical_size
        },
        r is Streamed ==> {
            &&& file.stream is Some && after.stream is Some
            &&& after.stream->0.upload.content() == file.stream->0.upload.content() + data
            &&& to_eof || offset == file.logical_size
            &&& after.dirty
        },
        !(r is Buffered) && !(r is Streamed) ==> *after == *file,
        !(r is Nothing),
{
    law_written(file.memory(), (file.write_start(offset, to_eof) as usize) as nat, data);
}

/// What a write does: it adds to a running upload at its end and is refused
/// elsewhere; content that is not in memory is fetched first; what ends beyond
/// eight mebibytes begins an upload; anything else is kept in memory, where the
/// file is open for writing.
pub proof fn law_write_decides(file: &OssFileContext, offset: u64, data: Seq<u8>, r: WinWrite, after: &OssFileContext)
    requires
        file.write_outcome(offset, false, data, r, after),
        data.len() > 0,
        offset + data.len() <= usize::MAX,
    ensures
        file.stream is Some && offset == file.logical_size ==> r is Streamed,
        file.stream is Some && offset != file.logical_size ==> r is Refused,
        file.stream is None && file.spooled ==> r == (WinWrite::Load { spool: true }),
        file.stream is None && !file.spooled && !file.loaded ==> r == (WinWrite::Load { spool: false }),
        file.stream is None && !file.spooled && file.loaded && offset + data.len() > 8_388_608 ==> r == (
        WinWrite::StartStream { anchor: offset as usize }),
        file.stream is None && !file.spooled && file.loaded && offset + data.len() <= 8_388_608 ==> {
            &&& file.write_buf is Some ==> r is Buffered
            &&& file.write_buf is None ==> r == (WinWrite::Refused { error: FileError::AccessDenied })
        },
{
}

/// The size that is shown: what was set or written, else what the spool file or
/// memory holds; of a file that was not touched that of the object.
pub proof fn law_shown_size(file: &OssFileContext)
    ensures
        file.logical_size > 0 ==> file.shown_size() == Some(file.logical_size),
        file.logical_size == 0 && file.spooled ==> file.shown_size() == Some(file.spool_size),
        file.logical_size == 0 && !file.spooled && file.loaded && file.write_buf is Some ==> file.shown_size() == Some(
            file.write_buf->0@.len() as u64,
        ),
        file.logical_size == 0 && !file.spooled && !file.loaded ==> file.shown_size() is None,
{
}

/// What is done when a file is let go of: one that is to be deleted is deleted
/// and not saved, one that was changed is saved, and else nothing is done.
pub proof fn law_let_go(file: &OssFileContext, delete: bool)
    ensures
        delete || file.delete_on_close ==> file.cleanup_step(delete) is Delete,
        !delete && !file.delete_on_close && file.dirty ==> file.cleanup_step(delete) == CleanupStep::Save,
        !delete && !file.delete_on_close && !file.dirty ==> file.cleanup_step(delete) == CleanupStep::Nothing,
        file.cleanup_step(true) == (CleanupStep::Delete {
            is_dir: file.is_dir,
            abort: file.stream is Some,
            remove_spool: file.spooled,
        }),
{
}

/// A file that was opened holds nothing yet: nothing is unsaved, nothing is under
/// way, and nothing is in memory.
pub proof fn law_fresh_file(file: &OssFileContext, path: Seq<char>, is_dir: bool, write: bool, loaded: bool)
    requires
        file.is_fresh(path, is_dir, write, loaded),
    ensures
        file.path@ == path && file.is_dir == is_dir && file.loaded == loaded,
        file.write_buf is Some <==> write,
        file.write_buf matches Some(b) ==> b@.len() == 0,
        !file.dirty && !file.delete_on_close && !file.spooled && !file.stream_failed && file.stream is None,
        file.logical_size == 0 && file.held.units == 0,
{
}

/// A write reaches up to its offset and its length together.
pub proof fn law_reach(at: u64, len: nat)
    requires
        at + len <= usize::MAX,
    ensures
        reach(at, len) == at + len,
        crate::fuse_file::write_end(at, len) == at + len,
{
}

} // verus!
