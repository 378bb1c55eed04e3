//! The content of a file that is being written: overwriting a part of it,
//! changing its length, and passing it on piece by piece.

use vstd::prelude::*;

use crate::caches::copy_range;

verus! {

/// Above this size the content of a file is not held in memory.
pub const WRITE_SPOOL_THRESHOLD: usize = 8_388_608;

/// The most zeros that are passed on at once.
pub const ZERO_CHUNK: usize = 65_536;

/// So many zeros.
pub open spec fn zeros(n: nat) -> Seq<u8> {
    Seq::new(n, |i: int| 0u8)
}

/// Content of the given length: cut off, or filled up with zeros.
pub open spec fn resized(content: Seq<u8>, len: nat) -> Seq<u8> {
    Seq::new(
        len,
        |i: int|
            if i < content.len() {
                content[i]
            } else {
                0u8
            },
    )
}

/// Content with `data` written over it at `offset`: what is before and behind
/// stays, and a hole is filled with zeros.
pub open spec fn written(content: Seq<u8>, offset: nat, data: Seq<u8>) -> Seq<u8> {
    let end = offset + data.len();
    let len = if end > content.len() {
        end
    } else {
        content.len()
    };
    Seq::new(
        len,
        |i: int|
            if offset <= i < end {
                data[i - offset]
            } else if i < content.len() {
                content[i]
            } else {
                0u8
            },
    )
}

/// Writing at the end appends.
pub proof fn law_written_at_end(content: Seq<u8>, data: Seq<u8>)
    ensures
        written(content, content.len(), data) == content + data,
{
    assert(written(content, content.len(), data) =~= content + data);
}

/// A read sees what was written, and everything else as it was.
pub proof fn law_read_after_write(content: Seq<u8>, offset: nat, data: Seq<u8>)
    ensures
        written(content, offset, data).subrange(offset as int, (offset + data.len()) as int) == data,
        forall|i: int|
            0 <= i < content.len() && (i < offset || i >= offset + data.len()) ==> #[trigger] written(content, offset, data)[i]
                == content[i],
{
    assert(written(content, offset, data).subrange(offset as int, (offset + data.len()) as int) =~= data);
}

/// Writing to what was already written to in the same place leaves only the
/// later data.
pub proof fn law_overwrite(content: Seq<u8>, offset: nat, first: Seq<u8>, second: Seq<u8>)
    requires
        first.len() == second.len(),
    ensures
        written(written(content, offset, first), offset, second) == written(content, offset, second),
{
    assert(written(written(content, offset, first), offset, second) =~= written(content, offset, second));
}

/// Gives content the given length.
pub fn resize(content: Vec<u8>, len: usize) -> (r: Vec<u8>)
    ensures
        r@ == resized(content@, len as nat),
{
    let have: usize = content.len();
    let keep: usize = if have < len {
        have
    } else {
        len
    };
    let mut out = copy_range(&content, 0, keep);
    let mut i: usize = keep;
    while i < len
        invariant
            keep <= i <= len,
            keep <= content@.len(),
            keep < len ==> keep == content@.len(),
            out@.len() == i,
            forall|k: int| 0 <= k < keep ==> out@[k] == content@[k],
            forall|k: int| keep <= k < i ==> out@[k] == 0,
        decreases len - i,
    {
        out.push(0);
        i = i + 1;
    }
    proof {
        assert(out@ =~= resized(content@, len as nat));
    }
    out
}

/// Writes `data` over content at `offset`.
pub fn write_at(content: Vec<u8>, offset: usize, data: &[u8]) -> (r: Vec<u8>)
    requires
        offset + data@.len() <= usize::MAX,
    ensures
        r@ == written(content@, offset as nat, data@),
{
    let ghost before = content@;
    let end: usize = offset + data.len();
    let mut out = if end > content.len() {
        resize(content, end)
    } else {
        content
    };
    let mut i: usize = 0;
    while i < data.len()
        invariant
            i <= data@.len(),
            end == offset + data@.len(),
            end <= out@.len(),
            out@.len() == written(before, offset as nat, data@).len(),
            forall|k: int| offset <= k < offset + i ==> out@[k] == data@[k - offset],
            forall|k: int|
                0 <= k < out@.len() && (k < offset || k >= offset + i) ==> #[trigger] out@[k] == if k < before.len() {
                    before[k]
                } else {
                    0u8
                },
        decreases data.len() - i,
    {
        out.set(offset + i, data[i]);
        i = i + 1;
    }
    proof {
        assert(out@ =~= written(before, offset as nat, data@));
    }
    out
}

/// What a read of `size` bytes at `offset` finds in content.
pub open spec fn slice_of(content: Seq<u8>, offset: u64, size: nat) -> Seq<u8> {
    let from = if offset < content.len() {
        offset as int
    } else {
        content.len() as int
    };
    let to = if from + size < content.len() {
        from + size
    } else {
        content.len() as int
    };
    content.subrange(from, to)
}

/// What a read of `size` bytes at `offset` finds in content.
pub fn slice_at(content: &Vec<u8>, offset: u64, size: usize) -> (r: Vec<u8>)
    ensures
        r@ == slice_of(content@, offset, size as nat),
{
    let have: usize = content.len();
    let from: usize = if offset < have as u64 {
        offset as usize
    } else {
        have
    };
    let to: usize = if have - from > size {
        from + size
    } else {
        have
    };
    copy_range(content, from, to)
}

/// Content with data written over it, passed on piece by piece: what is before
/// the data, a hole, the data, and what is behind.
#[derive(Debug)]
pub struct Splice {
    stage: u8,
    cut: usize,
    gap: usize,
    end: usize,
}

impl Splice {
    /// The pieces fit the content.
    pub closed spec fn wf(&self, content: Seq<u8>) -> bool {
        self.cut <= content.len() && self.end <= content.len() && self.stage <= 4
    }

    /// What has not been passed on yet.
    pub closed spec fn rest(&self, content: Seq<u8>, data: Seq<u8>) -> Seq<u8> {
        let behind = content.subrange(self.end as int, content.len() as int);
        if self.stage == 0 {
            content.subrange(0, self.cut as int) + zeros(self.gap as nat) + data + behind
        } else if self.stage == 1 {
            zeros(self.gap as nat) + data + behind
        } else if self.stage == 2 {
            data + behind
        } else if self.stage == 3 {
            behind
        } else {
            Seq::empty()
        }
    }

    /// The steps that are left at most.
    pub closed spec fn steps(&self) -> int {
        4 - self.stage + self.gap
    }

    /// Begins to pass on content with `data` written over it at `offset`.
    pub fn begin(content: &Vec<u8>, offset: usize, data: &[u8]) -> (r: Splice)
        requires
            offset + data@.len() <= usize::MAX,
        ensures
            r.wf(content@),
            r.rest(content@, data@) == written(content@, offset as nat, data@),
    {
        let have: usize = content.len();
        let cut: usize = if offset < have {
            offset
        } else {
            have
        };
        let to: usize = offset + data.len();
        let end: usize = if to < have {
            to
        } else {
            have
        };
        let gap: usize = offset.saturating_sub(have);
        let r = Splice { stage: 0, cut, gap, end };
        proof {
            assert(r.rest(content@, data@) =~= written(content@, offset as nat, data@));
        }
        r
    }

    /// The next piece, if there is one. A hole comes in small pieces.
    pub fn next_piece(&mut self, content: &Vec<u8>, data: &[u8]) -> (r: Option<Vec<u8>>)
        requires
            old(self).wf(content@),
        ensures
            final(self).wf(content@),
            r is None ==> old(self).rest(content@, data@).len() == 0,
            r matches Some(piece) ==> old(self).rest(content@, data@) == piece@ + final(self).rest(content@, data@),
            r is Some ==> 0 <= final(self).steps() < old(self).steps(),
    {
        let ghost whole = self.rest(content@, data@);
        let total: usize = content.len();
        if self.stage == 0 {
            let piece = copy_range(content, 0, self.cut);
            self.stage = 1;
            proof {
                assert(whole =~= piece@ + self.rest(content@, data@));
            }
            return Some(piece);
        }
        if self.stage == 1 {
            let n: usize = if self.gap < ZERO_CHUNK {
                self.gap
            } else {
                ZERO_CHUNK
            };
            let piece = resize(Vec::new(), n);
            self.gap = self.gap - n;
            if self.gap == 0 {
                self.stage = 2;
            }
            proof {
                assert(piece@ =~= zeros(n as nat));
                assert(whole =~= piece@ + self.rest(content@, data@));
            }
            return Some(piece);
        }
        if self.stage == 2 {
            let mut piece: Vec<u8> = Vec::new();
            crate::disk_cache::append_slice(&mut piece, data);
            self.stage = 3;
            proof {
                assert(piece@ =~= data@);
                assert(whole =~= piece@ + self.rest(content@, data@));
            }
            return Some(piece);
        }
        if self.stage == 3 {
            let piece = copy_range(content, self.end, total);
            self.stage = 4;
            proof {
                assert(whole =~= piece@ + self.rest(content@, data@));
            }
            return Some(piece);
        }
        None
    }
}

/// Content that is given a size keeps what it has up to there, and is filled
/// up with zeros; content that is given its own size is unchanged.
pub proof fn law_resized(content: Seq<u8>, len: nat)
    ensures
        resized(content, len).len() == len,
        forall|i: int| 0 <= i < len && i < content.len() ==> #[trigger] resized(content, len)[i] == content[i],
        forall|i: int| content.len() <= i < len ==> #[trigger] resized(content, len)[i] == 0,
        resized(content, content.len()) == content,
        len <= content.len() ==> resized(content, len) == content.subrange(0, len as int),
{
    assert(resized(content, content.len()) =~= content);
    if len <= content.len() {
        assert(resized(content, len) =~= content.subrange(0, len as int));
    }
}

/// Writing puts the data in its place and makes the content no longer than it
/// has to be; a gap before it is filled with zeros.
pub proof fn law_written(content: Seq<u8>, offset: nat, data: Seq<u8>)
    ensures
        offset + data.len() <= content.len() ==> written(content, offset, data).len() == content.len(),
        offset + data.len() > content.len() ==> written(content, offset, data).len() == offset + data.len(),
        forall|i: int| 0 <= i < data.len() ==> written(content, offset, data)[offset + i] == #[trigger] data[i],
        forall|i: int|
            0 <= i < content.len() && (i < offset || i >= offset + data.len()) ==> #[trigger] written(content, offset, data)[i]
                == content[i],
        forall|i: int| content.len() <= i < offset && data.len() > 0 ==> #[trigger] written(content, offset, data)[i] == 0,
{
}

/// A read gives the bytes from its offset on, as many as were asked for and are
/// there; from the end on it gives none.
pub proof fn law_slice(content: Seq<u8>, offset: u64, len: nat)
    ensures
        offset + len <= content.len() ==> slice_of(content, offset, len) == content.subrange(offset as int, offset + len),
        offset <= content.len() < offset + len ==> slice_of(content, offset, len) == content.subrange(
            offset as int,
            content.len() as int,
        ),
        offset >= content.len() ==> slice_of(content, offset, len).len() == 0,
        len == 0 ==> slice_of(content, offset, len).len() == 0,
{
}

} // verus!
