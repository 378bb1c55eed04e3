//! Uploads in parts: how content is cut, what is sent, and how an upload ends.

use vstd::prelude::*;

use crate::caches::copy_range;
use crate::checksum::{base64_of, content_md5, crc64_of, crc_check, md5_of, Crc64Ecma, CrcCheck};
use crate::disk_cache::append_slice;
use crate::metrics::{check_crc64_response, Metrics};
use crate::settings::{MULTIPART_PART_SIZE, MULTIPART_THRESHOLD};

verus! {

/// The number of parts that content of length `len` is cut into.
pub open spec fn part_count(len: int, size: int) -> int {
    (len + size - 1) / size
}

/// Where a part ends.
pub open spec fn part_end(len: int, size: int, i: int) -> int {
    if (i + 1) * size < len {
        (i + 1) * size
    } else {
        len
    }
}

/// The bytes of a part.
pub open spec fn part_of(content: Seq<u8>, size: int, i: int) -> Seq<u8> {
    content.subrange(i * size, part_end(content.len() as int, size, i))
}

/// The first `n` parts, joined.
pub open spec fn parts_joined(content: Seq<u8>, size: int, n: int) -> Seq<u8>
    decreases n,
{
    if n <= 0 {
        Seq::empty()
    } else {
        parts_joined(content, size, n - 1) + part_of(content, size, n - 1)
    }
}

/// Where a part lies in the content.
pub proof fn lemma_part_bounds(len: int, size: int, i: int)
    requires
        len >= 0,
        size > 0,
        0 <= i < part_count(len, size),
    ensures
        0 <= i * size < len,
        i * size < part_end(len, size, i) <= len,
        (i + 1) * size == i * size + size,
        i + 1 < part_count(len, size) <==> (i + 1) * size < len,
{
    assert((i + 1) * size == i * size + size) by (nonlinear_arith);
    let n = part_count(len, size);
    assert(n * size <= len + size - 1 < (n + 1) * size) by (nonlinear_arith)
        requires
            n == (len + size - 1) / size,
            size > 0,
            len >= 0,
    ;
    assert((n + 1) * size == n * size + size) by (nonlinear_arith);
    assert(0 <= i * size) by (nonlinear_arith)
        requires
            i >= 0,
            size > 0,
    ;
    assert((i + 1) * size <= n * size) by (nonlinear_arith)
        requires
            i + 1 <= n,
            size > 0,
    ;
    if i + 1 < n {
        assert((i + 1) * size <= (n - 1) * size) by (nonlinear_arith)
            requires
                i + 1 <= n - 1,
                size > 0,
        ;
        assert((n - 1) * size == n * size - size) by (nonlinear_arith);
    }
    if (i + 1) * size < len {
        assert(i + 1 < n) by (nonlinear_arith)
            requires
                (i + 1) * size < len,
                len <= n * size,
                size > 0,
        ;
    }
}

proof fn lemma_parts_joined(content: Seq<u8>, size: int, n: int)
    requires
        size > 0,
        0 <= n <= part_count(content.len() as int, size),
    ensures
        n > 0 ==> parts_joined(content, size, n) == content.subrange(
            0,
            part_end(content.len() as int, size, n - 1),
        ),
        n == 0 ==> parts_joined(content, size, n) == Seq::<u8>::empty(),
    decreases n,
{
    let len = content.len() as int;
    if n > 0 {
        lemma_parts_joined(content, size, n - 1);
        lemma_part_bounds(len, size, n - 1);
        if n > 1 {
            lemma_part_bounds(len, size, n - 2);
            assert((n - 1) * size == (n - 2 + 1) * size);
        } else {
            assert(0 * size == 0);
        }
        assert(parts_joined(content, size, n) =~= content.subrange(0, part_end(len, size, n - 1)));
    }
}

/// The parts of an object, joined in the order of their numbers, are the
/// object; none is empty, and none but the last is shorter than the others.
pub proof fn law_parts_reassemble(content: Seq<u8>, size: int)
    requires
        size > 0,
    ensures
        parts_joined(content, size, part_count(content.len() as int, size)) == content,
        forall|i: int|
            0 <= i < part_count(content.len() as int, size) ==> 0 < (#[trigger] part_of(content, size, i)).len() <= size,
        forall|i: int|
            0 <= i < part_count(content.len() as int, size) - 1 ==> (#[trigger] part_of(content, size, i)).len() == size,
{
    let len = content.len() as int;
    let n = part_count(len, size);
    assert(n >= 0) by (nonlinear_arith)
        requires
            n == (len + size - 1) / size,
            len >= 0,
            size > 0,
    ;
    lemma_parts_joined(content, size, n);
    if n > 0 {
        lemma_part_bounds(len, size, n - 1);
        assert(content.subrange(0, len) =~= content);
    } else {
        assert(len == 0) by (nonlinear_arith)
            requires
                n == (len + size - 1) / size,
                n <= 0,
                len >= 0,
                size > 0,
        ;
        assert(content =~= Seq::<u8>::empty());
    }
    assert forall|i: int| 0 <= i < n implies 0 < (#[trigger] part_of(content, size, i)).len() <= size by {
        lemma_part_bounds(len, size, i);
    }
    assert forall|i: int| 0 <= i < n - 1 implies (#[trigger] part_of(content, size, i)).len() == size by {
        lemma_part_bounds(len, size, i);
    }
}

/// One part of an object that is uploaded in parts.
#[derive(Clone, Copy, Debug, PartialEq, Eq, Structural)]
pub struct PartRange {
    /// Counted from one.
    pub number: i32,
    pub start: u64,
    pub end: u64,
}

/// Content is uploaded in parts where it is too long for a single request.
pub fn wants_multipart(len: u64) -> (r: bool)
    ensures
        r == (len > MULTIPART_THRESHOLD),
{
    len > MULTIPART_THRESHOLD
}

/// The ranges are those of the parts of content of length `len`.
pub open spec fn plans(ranges: Seq<PartRange>, len: int, size: int) -> bool {
    &&& ranges.len() == part_count(len, size)
    &&& forall|i: int|
        0 <= i < ranges.len() ==> (#[trigger] ranges[i]).number == i + 1 && ranges[i].start == i * size && ranges[i].end
            == part_end(len, size, i)
}

/// The parts of content of length `len`.
pub fn multipart_plan(len: u64, part_size: usize) -> (r: Vec<PartRange>)
    requires
        part_size > 0,
        part_count(len as int, part_size as int) < i32::MAX,
    ensures
        plans(r@, len as int, part_size as int),
{
    let ghost size = part_size as int;
    let ghost n = part_count(len as int, size);
    let mut out: Vec<PartRange> = Vec::new();
    let mut number: i32 = 1;
    let mut offset: u64 = 0;
    proof {
        assert(0 * size == 0);
        assert(n >= 0) by (nonlinear_arith)
            requires
                n == (len + size - 1) / size,
                len >= 0,
                size > 0,
        ;
        assert(len > 0 ==> n > 0) by (nonlinear_arith)
            requires
                n == (len + size - 1) / size,
                len >= 0,
                size > 0,
        ;
        assert(len == 0 ==> n == 0) by (nonlinear_arith)
            requires
                n == (len + size - 1) / size,
                size > 0,
        ;
    }
    while offset < len
        invariant
            size == part_size as int,
            size > 0,
            n == part_count(len as int, size),
            n < i32::MAX,
            out@.len() <= n,
            number == out@.len() + 1,
            offset <= len,
            offset < len ==> out@.len() < n && offset == out@.len() * size,
            offset == len ==> out@.len() == n,
            forall|i: int|
                0 <= i < out@.len() ==> (#[trigger] out@[i]).number == i + 1 && out@[i].start == i * size
                    && out@[i].end == part_end(len as int, size, i),
        decreases len - offset,
    {
        proof {
            lemma_part_bounds(len as int, size, out@.len() as int);
        }
        let end: u64 = if len - offset > part_size as u64 {
            offset + part_size as u64
        } else {
            len
        };
        out.push(PartRange { number, start: offset, end });
        number = number + 1;
        offset = end;
    }
    out
}

/// A part that is ready to be sent.
#[derive(Debug)]
pub struct UploadPart {
    pub number: i32,
    pub data: Vec<u8>,
    /// The value of its checksum header, where one is wanted.
    pub md5: Option<String>,
}

/// What a part says.
#[verifier::ext_equal]
pub struct PartView {
    pub number: int,
    pub data: Seq<u8>,
    pub md5: Option<Seq<char>>,
}

impl UploadPart {
    pub open spec fn view(&self) -> PartView {
        PartView { number: self.number as int, data: self.data@, md5: header_view(self.md5) }
    }
}

/// What parts say.
pub open spec fn part_views(parts: Seq<UploadPart>) -> Seq<PartView> {
    parts.map_values(|p: UploadPart| p@)
}

/// What is sent of content that is uploaded in parts of a size.
pub open spec fn parts_of(content: Seq<u8>, size: int, md5: bool) -> Seq<PartView> {
    Seq::new(
        part_count(content.len() as int, size) as nat,
        |i: int|
            PartView {
                number: i + 1,
                data: part_of(content, size, i),
                md5: md5_header(md5, part_of(content, size, i)),
            },
    )
}

/// The checksum header of a body, where one is wanted.
pub open spec fn md5_header(wanted: bool, body: Seq<u8>) -> Option<Seq<char>> {
    if wanted {
        Some(base64_of(md5_of(body)))
    } else {
        None
    }
}

/// An optional text, by its view.
pub open spec fn header_view(t: Option<String>) -> Option<Seq<char>> {
    match t {
        Some(t) => Some(t@),
        None => None,
    }
}

/// The checksum header of a body, where one is wanted.
pub fn md5_for(wanted: bool, body: &[u8]) -> (r: Option<String>)
    ensures
        header_view(r) == md5_header(wanted, body@),
{
    if wanted {
        Some(content_md5(body))
    } else {
        None
    }
}

/// The checksum to be compared, where that is wanted.
pub open spec fn crc_wanted(wanted: bool, body: Seq<u8>) -> Option<u64> {
    if wanted {
        Some(crc64_of(body))
    } else {
        None
    }
}

/// The checksum to be compared, where that is wanted.
pub fn crc_for(wanted: bool, body: &[u8]) -> (r: Option<u64>)
    ensures
        r == crc_wanted(wanted, body@),
{
    if wanted {
        Some(crate::checksum::crc64ecma(body))
    } else {
        None
    }
}

/// What a part says that was cut out of content.
pub open spec fn cut(content: Seq<u8>, range: PartRange, md5: bool) -> PartView {
    let data = content.subrange(range.start as int, range.end as int);
    PartView { number: range.number as int, data, md5: md5_header(md5, data) }
}

/// Cuts a part out of the content.
pub fn cut_part(content: &Vec<u8>, range: PartRange, md5: bool) -> (r: UploadPart)
    requires
        range.start <= range.end <= content@.len(),
    ensures
        r@ == cut(content@, range, md5),
{
    let total: usize = content.len();
    assert(range.end <= total);
    let data = copy_range(content, range.start as usize, range.end as usize);
    let md5 = md5_for(md5, data.as_slice());
    UploadPart { number: range.number, data, md5 }
}

/// An upload of content that is read part by part, and never held as a whole.
pub struct PartReader {
    size: u64,
    part_size: usize,
    parts: Vec<PartRange>,
    next: usize,
    hasher: Crc64Ecma,
    verify_crc64: bool,
    content_md5: bool,
    read: Ghost<Seq<u8>>,
}

impl PartReader {
    /// What was read so far.
    pub closed spec fn content(&self) -> Seq<u8> {
        self.read@
    }

    /// The length of the content.
    pub closed spec fn size(&self) -> u64 {
        self.size
    }

    /// The length of each part but the last.
    pub closed spec fn part_size(&self) -> int {
        self.part_size as int
    }

    /// The parts that were read so far.
    pub closed spec fn sent(&self) -> int {
        self.next as int
    }

    /// Whether the checksum of the object is compared at the end.
    pub closed spec fn verifies(&self) -> bool {
        self.verify_crc64
    }

    /// Whether each part carries a checksum header.
    pub closed spec fn sends_md5(&self) -> bool {
        self.content_md5
    }

    /// Whole parts were read, and the checksum covers them.
    pub closed spec fn wf(&self) -> bool {
        let count = part_count(self.size as int, self.part_size as int);
        &&& self.part_size > 0
        &&& self.parts@.len() == count
        &&& forall|i: int|
            0 <= i < count ==> (#[trigger] self.parts@[i]).number == i + 1 && self.parts@[i].start == i
                * self.part_size as int && self.parts@[i].end == part_end(
                self.size as int,
                self.part_size as int,
                i,
            )
        &&& self.next <= count
        &&& self.read@.len() == if self.next < count {
            self.next * self.part_size as int
        } else {
            self.size as int
        }
        &&& self.hasher.covers(self.read@)
    }

    /// Nothing was read yet of content of length `size`.
    pub open spec fn begins(&self, size: u64, part_size: usize, verify_crc64: bool, content_md5: bool) -> bool {
        &&& self.wf()
        &&& self.content() == Seq::<u8>::empty()
        &&& self.size() == size
        &&& self.part_size() == part_size
        &&& self.sent() == 0
        &&& self.verifies() == verify_crc64
        &&& self.sends_md5() == content_md5
    }

    /// The part that was read next, and the reader after it.
    pub open spec fn took(&self, data: Seq<u8>, part: PartView, after: &PartReader) -> bool {
        &&& after.wf()
        &&& after.content() == self.content() + data
        &&& after.size() == self.size()
        &&& after.part_size() == self.part_size()
        &&& after.sent() == self.sent() + 1
        &&& after.verifies() == self.verifies()
        &&& after.sends_md5() == self.sends_md5()
        &&& part == (PartView { number: self.sent() + 1, data, md5: md5_header(self.sends_md5(), data) })
    }

    /// How much was read follows from the number of the parts.
    pub proof fn lemma_read(&self)
        requires
            self.wf(),
        ensures
            0 <= self.sent() <= part_count(self.size() as int, self.part_size()),
            self.content().len() == if self.sent() < part_count(self.size() as int, self.part_size()) {
                self.sent() * self.part_size()
            } else {
                self.size() as int
            },
    {
    }

    /// Begins to read content of length `size`.
    pub fn new(size: u64, part_size: usize, verify_crc64: bool, content_md5: bool) -> (r: PartReader)
        requires
            part_size > 0,
            part_count(size as int, part_size as int) < i32::MAX,
        ensures
            r.begins(size, part_size, verify_crc64, content_md5),
    {
        let parts = multipart_plan(size, part_size);
        proof {
            let len = size as int;
            let p = part_size as int;
            assert(0 * p == 0);
            assert(part_count(len, p) >= 0);
            assert(len > 0 ==> part_count(len, p) > 0) by (nonlinear_arith)
                requires
                    part_count(len, p) == (len + p - 1) / p,
                    p > 0,
            ;
        }
        PartReader {
            size,
            part_size,
            parts,
            next: 0,
            hasher: Crc64Ecma::new(),
            verify_crc64,
            content_md5,
            read: Ghost(Seq::empty()),
        }
    }

    /// The length of the next part; none where everything was read.
    pub fn next_len(&self) -> (r: Option<usize>)
        requires
            self.wf(),
        ensures
            r is None <==> self.content().len() == self.size(),
            r matches Some(n) ==> n > 0 && n == part_end(self.size() as int, self.part_size(), self.sent())
                - self.sent() * self.part_size(),
    {
        if self.next >= self.parts.len() {
            return None;
        }
        proof {
            lemma_part_bounds(self.size as int, self.part_size as int, self.next as int);
        }
        let range = self.parts[self.next];
        Some((range.end - range.start) as usize)
    }

    /// Takes the next part, which is then sent.
    pub fn part(&mut self, data: Vec<u8>) -> (r: UploadPart)
        requires
            old(self).wf(),
            old(self).content().len() < old(self).size(),
            data@.len() == part_end(old(self).size() as int, old(self).part_size(), old(self).sent())
                - old(self).sent() * old(self).part_size(),
        ensures
            old(self).took(data@, r@, final(self)),
            forall|whole: Seq<u8>|
                #![trigger part_of(whole, old(self).part_size(), old(self).sent())]
                whole.len() == old(self).size() && final(self).content().len() <= whole.len() && whole.subrange(
                    0,
                    final(self).content().len() as int,
                ) == final(self).content() ==> r.data@ == part_of(whole, old(self).part_size(), old(self).sent()),
    {
        let ghost len = self.size as int;
        let ghost p = self.part_size as int;
        let ghost n = self.next as int;
        let ghost all = self.read@ + data@;
        proof {
            lemma_part_bounds(len, p, n);
        }
        let number: i32 = self.parts[self.next].number;
        let md5 = md5_for(self.content_md5, data.as_slice());
        self.hasher.update(data.as_slice());
        self.next = self.next + 1;
        proof {
            self.read@ = all;
            assert(all.len() == part_end(len, p, n));
            assert forall|whole: Seq<u8>|
                #![trigger part_of(whole, p, n)]
                whole.len() == len && all.len() <= whole.len() && whole.subrange(0, all.len() as int)
                    == all implies data@ == part_of(whole, p, n) by {
                assert forall|i: int| 0 <= i < data@.len() implies data@[i] == whole[n * p + i] by {
                    assert(data@[i] == all[n * p + i]);
                    assert(whole.subrange(0, all.len() as int)[n * p + i] == all[n * p + i]);
                }
                assert(data@ =~= part_of(whole, p, n));
            }
        }
        UploadPart { number, data, md5 }
    }

    /// The checksum of what was read, where it is to be compared.
    pub fn finish(self) -> (r: Option<u64>)
        requires
            self.wf(),
        ensures
            r == crc_wanted(self.verifies(), self.content()),
    {
        if self.verify_crc64 {
            Some(self.hasher.finalize())
        } else {
            None
        }
    }
}

/// An upload that is fed piece by piece. Whole parts are sent as soon as they
/// are there.
pub struct StreamingUpload {
    next_part: i32,
    pending: Vec<u8>,
    hasher: Crc64Ecma,
    verify_crc64: bool,
    content_md5: bool,
    fed: Ghost<Seq<u8>>,
}

impl StreamingUpload {
    /// What was fed so far.
    pub closed spec fn content(&self) -> Seq<u8> {
        self.fed@
    }

    /// The parts that were sent so far.
    pub closed spec fn sent(&self) -> int {
        self.next_part - 1
    }

    /// Whether the checksum of the object is compared at the end.
    pub closed spec fn verifies(&self) -> bool {
        self.verify_crc64
    }

    /// Whether each part carries a checksum header.
    pub closed spec fn sends_md5(&self) -> bool {
        self.content_md5
    }

    /// What has not been sent is less than a part, and the checksum covers
    /// everything.
    pub closed spec fn wf(&self) -> bool {
        &&& self.next_part >= 1
        &&& self.pending@.len() < MULTIPART_PART_SIZE
        &&& self.fed@.len() == (self.next_part - 1) * MULTIPART_PART_SIZE + self.pending@.len()
        &&& self.pending@ == self.fed@.subrange(
            (self.next_part - 1) * MULTIPART_PART_SIZE,
            self.fed@.len() as int,
        )
        &&& self.hasher.covers(self.fed@)
    }

    /// Every part that was sent is a whole one.
    pub proof fn lemma_sent(&self)
        requires
            self.wf(),
        ensures
            0 <= self.sent(),
            self.sent() * MULTIPART_PART_SIZE as int <= self.content().len(),
    {
    }

    /// Begins an upload.
    pub fn new(verify_crc64: bool, content_md5: bool) -> (r: StreamingUpload)
        ensures
            r.wf(),
            r.content() == Seq::<u8>::empty(),
            r.sent() == 0,
            r.verifies() == verify_crc64,
            r.sends_md5() == content_md5,
    {
        let r = StreamingUpload {
            next_part: 1,
            pending: Vec::new(),
            hasher: Crc64Ecma::new(),
            verify_crc64,
            content_md5,
            fed: Ghost(Seq::empty()),
        };
        proof {
            assert(r.pending@ =~= r.fed@.subrange(0, 0));
        }
        r
    }

    /// Feeds `data`, and returns the parts that are now whole.
    #[verifier::rlimit(40)]
    pub fn write(&mut self, data: &[u8]) -> (r: Vec<UploadPart>)
        requires
            old(self).wf(),
            (old(self).content().len() + data@.len()) / MULTIPART_PART_SIZE as nat + 1 < i32::MAX,
        ensures
            final(self).wf(),
            final(self).content() == old(self).content() + data@,
            final(self).verifies() == old(self).verifies(),
            final(self).sends_md5() == old(self).sends_md5(),
            final(self).sent() == final(self).content().len() / MULTIPART_PART_SIZE as nat,
            r@.len() == final(self).sent() - old(self).sent(),
            forall|k: int|
                0 <= k < r@.len() ==> (#[trigger] r@[k]).number == old(self).sent() + k + 1 && r@[k].data@ == part_of(
                    final(self).content(),
                    MULTIPART_PART_SIZE as int,
                    old(self).sent() + k,
                ) && header_view(r@[k].md5) == md5_header(old(self).sends_md5(), r@[k].data@),
    {
        let ghost size = MULTIPART_PART_SIZE as int;
        let ghost all = self.fed@ + data@;
        let ghost first = self.next_part as int;
        self.hasher.update(data);
        proof {
            assert(self.hasher.covers(all));
        }
        append_slice(&mut self.pending, data);
        proof {
            self.fed@ = all;
            assert(self.pending@ =~= all.subrange((first - 1) * size, all.len() as int));
        }
        let mut out: Vec<UploadPart> = Vec::new();
        while self.pending.len() >= MULTIPART_PART_SIZE
            invariant
                size == MULTIPART_PART_SIZE,
                first >= 1,
                first == old(self).next_part,
                all == old(self).fed@ + data@,
                self.fed@ == all,
                self.hasher.covers(all),
                self.verify_crc64 == old(self).verify_crc64,
                self.content_md5 == old(self).content_md5,
                all.len() / MULTIPART_PART_SIZE as nat + 1 < i32::MAX,
                self.next_part == first + out@.len(),
                all.len() == (self.next_part - 1) * size + self.pending@.len(),
                self.pending@ == all.subrange((self.next_part - 1) * size, all.len() as int),
                forall|k: int|
                    0 <= k < out@.len() ==> (#[trigger] out@[k]).number == first + k && out@[k].data@ == part_of(
                        all,
                        size,
                        first - 1 + k,
                    ) && header_view(out@[k].md5) == md5_header(old(self).content_md5, out@[k].data@),
            decreases self.pending@.len(),
        {
            let ghost pending = self.pending@;
            let ghost n = self.next_part as int;
            let total: usize = self.pending.len();
            let chunk = copy_range(&self.pending, 0, MULTIPART_PART_SIZE);
            let rest = copy_range(&self.pending, MULTIPART_PART_SIZE, total);
            let md5 = md5_for(self.content_md5, chunk.as_slice());
            proof {
                assert(n * size == (n - 1) * size + size) by (nonlinear_arith);
                assert(n - 1 + 1 == n);
                assert(chunk@ =~= part_of(all, size, n - 1));
                assert(rest@ =~= all.subrange(n * size, all.len() as int));
                assert(n <= all.len() as int / size) by (nonlinear_arith)
                    requires
                        n * size <= all.len() as int,
                        size > 0,
                ;
            }
            out.push(UploadPart { number: self.next_part, data: chunk, md5 });
            self.pending = rest;
            self.next_part = self.next_part + 1;
        }
        proof {
            let n = self.next_part as int;
            let len = all.len() as int;
            assert(n - 1 == len / size) by (nonlinear_arith)
                requires
                    (n - 1) * size <= len < (n - 1) * size + size,
                    size > 0,
            ;
        }
        out
    }

    /// The last part, where something is left to be sent, and the checksum of
    /// the whole object, where it is to be compared.
    pub fn finish(self) -> (r: (Option<UploadPart>, Option<u64>))
        requires
            self.wf(),
        ensures
            r.0 is Some <==> self.content().len() > self.sent() * MULTIPART_PART_SIZE,
            r.0 matches Some(p) ==> p.number == self.sent() + 1 && p.data@ == part_of(
                self.content(),
                MULTIPART_PART_SIZE as int,
                self.sent(),
            ) && header_view(p.md5) == md5_header(self.sends_md5(), p.data@),
            r.1 == if self.verifies() { Some(crc64_of(self.content())) } else { None },
    {
        let ghost size = MULTIPART_PART_SIZE as int;
        let ghost n = self.next_part as int;
        proof {
            assert(n * size == (n - 1) * size + size) by (nonlinear_arith);
            assert(n - 1 + 1 == n);
        }
        let last = if self.pending.len() == 0 {
            None
        } else {
            let md5 = md5_for(self.content_md5, self.pending.as_slice());
            Some(UploadPart { number: self.next_part, data: self.pending, md5 })
        };
        let crc = if self.verify_crc64 {
            Some(self.hasher.finalize())
        } else {
            None
        };
        (last, crc)
    }
}

/// The parts of a fed upload, those sent on the way and the last one, are the
/// parts of everything that was fed: joined they are what was fed.
pub proof fn law_streaming_reassembles(upload: StreamingUpload)
    requires
        upload.wf(),
    ensures
        ({
            let size = MULTIPART_PART_SIZE as int;
            let n = upload.sent() + if upload.content().len() > upload.sent() * size {
                1int
            } else {
                0int
            };
            &&& n == part_count(upload.content().len() as int, size)
            &&& parts_joined(upload.content(), size, n) == upload.content()
        }),
{
    let size = MULTIPART_PART_SIZE as int;
    let len = upload.content().len() as int;
    let m = upload.sent();
    law_parts_reassemble(upload.content(), size);
    assert(m * size <= len < m * size + size);
    if len > m * size {
        assert(m + 1 == (len + size - 1) / size) by (nonlinear_arith)
            requires
                m * size < len < m * size + size,
                size > 0,
        ;
    } else {
        assert(m == (len + size - 1) / size) by (nonlinear_arith)
            requires
                m * size == len,
                size > 0,
        ;
    }
}

/// Finished parts, each with its number and the tag that the store gave it.
pub open spec fn part_tags(s: Seq<(i32, String)>) -> Seq<(i32, Seq<char>)> {
    s.map_values(|p: (i32, String)| (p.0, p.1@))
}

/// A part put in behind those with numbers that are not greater.
pub open spec fn put_by_number(s: Seq<(i32, Seq<char>)>, p: (i32, Seq<char>)) -> Seq<(i32, Seq<char>)>
    decreases s.len(),
{
    if s.len() == 0 || s.last().0 <= p.0 {
        s.push(p)
    } else {
        put_by_number(s.drop_last(), p).push(s.last())
    }
}

/// Parts in the order of their numbers.
pub open spec fn by_number(s: Seq<(i32, Seq<char>)>) -> Seq<(i32, Seq<char>)>
    decreases s.len(),
{
    if s.len() == 0 {
        s
    } else {
        put_by_number(by_number(s.drop_last()), s.last())
    }
}

/// Numbers that do not decrease.
pub open spec fn in_number_order(s: Seq<(i32, Seq<char>)>) -> bool {
    forall|i: int, j: int| 0 <= i <= j < s.len() ==> (#[trigger] s[i]).0 <= (#[trigger] s[j]).0
}

proof fn lemma_put_by_number(s: Seq<(i32, Seq<char>)>, p: (i32, Seq<char>))
    requires
        in_number_order(s),
    ensures
        in_number_order(put_by_number(s, p)),
        put_by_number(s, p).to_multiset() == s.to_multiset().insert(p),
        put_by_number(s, p).len() == s.len() + 1,
        s.len() > 0 ==> put_by_number(s, p).last().0 == if s.last().0 <= p.0 {
            p.0
        } else {
            s.last().0
        },
        s.len() == 0 ==> put_by_number(s, p).last().0 == p.0,
    decreases s.len(),
{
    broadcast use vstd::seq_lib::group_to_multiset_ensures;

    if s.len() == 0 || s.last().0 <= p.0 {
    } else {
        let t = s.drop_last();
        lemma_put_by_number(t, p);
        if t.len() > 0 {
            assert(t.last() == s[s.len() - 2]);
            assert(s[s.len() - 2].0 <= s[s.len() - 1].0);
        }
        let r = put_by_number(t, p);
        assert forall|i: int, j: int| 0 <= i <= j < r.push(s.last()).len() implies (#[trigger] r.push(s.last())[i]).0 <= (
        #[trigger] r.push(s.last())[j]).0 by {
            if j == r.len() && i < j {
                assert(r[i].0 <= r[r.len() - 1].0);
            }
        }
        assert(s =~= t.push(s.last()));
        assert(r.push(s.last()).to_multiset() =~= s.to_multiset().insert(p));
    }
}

/// In whatever order the parts come back, they are completed in the order of
/// their numbers, each of them once.
pub proof fn law_parts_in_order(s: Seq<(i32, Seq<char>)>)
    ensures
        in_number_order(by_number(s)),
        by_number(s).to_multiset() == s.to_multiset(),
    decreases s.len(),
{
    broadcast use vstd::seq_lib::group_to_multiset_ensures;

    if s.len() > 0 {
        law_parts_in_order(s.drop_last());
        lemma_put_by_number(by_number(s.drop_last()), s.last());
        assert(s =~= s.drop_last().push(s.last()));
    }
}

proof fn lemma_put_by_number_at(s: Seq<(i32, Seq<char>)>, p: (i32, Seq<char>), at: int)
    requires
        0 <= at <= s.len(),
        forall|k: int| at <= k < s.len() ==> (#[trigger] s[k]).0 > p.0,
        at > 0 ==> s[at - 1].0 <= p.0,
    ensures
        put_by_number(s, p) == s.insert(at, p),
    decreases s.len(),
{
    if at == s.len() {
        assert(s.push(p) =~= s.insert(at, p));
    } else {
        assert(s.last() == s[s.len() - 1]);
        lemma_put_by_number_at(s.drop_last(), p, at);
        assert(s.drop_last().insert(at, p).push(s.last()) =~= s.insert(at, p));
    }
}

/// Brings finished parts into the order of their numbers.
pub fn sort_parts(parts: Vec<(i32, String)>) -> (r: Vec<(i32, String)>)
    ensures
        part_tags(r@) == by_number(part_tags(parts@)),
{
    let ghost all = part_tags(parts@);
    let mut sorted: Vec<(i32, String)> = Vec::new();
    let mut i: usize = 0;
    proof {
        assert(all.subrange(0, 0) =~= Seq::<(i32, Seq<char>)>::empty());
        assert(part_tags(sorted@) =~= Seq::<(i32, Seq<char>)>::empty());
    }
    while i < parts.len()
        invariant
            i <= parts@.len(),
            all == part_tags(parts@),
            part_tags(sorted@) == by_number(all.subrange(0, i as int)),
        decreases parts.len() - i,
    {
        let mut at: usize = sorted.len();
        while at > 0 && sorted[at - 1].0 > parts[i].0
            invariant
                at <= sorted@.len(),
                i < parts@.len(),
                forall|k: int| at <= k < sorted@.len() ==> (#[trigger] sorted@[k]).0 > parts@[i as int].0,
            decreases at,
        {
            at = at - 1;
        }
        let ghost before = sorted@;
        let item = (parts[i].0, crate::text::copy_text(parts[i].1.as_str()));
        sorted.insert(at, item);
        proof {
            let p = all[i as int];
            assert(p == (parts@[i as int].0, parts@[i as int].1@));
            let s = part_tags(before);
            assert forall|k: int| at <= k < s.len() implies (#[trigger] s[k]).0 > p.0 by {
                assert(s[k].0 == before[k].0);
            }
            if at > 0 {
                assert(s[at - 1].0 == before[at - 1].0);
            }
            lemma_put_by_number_at(s, p, at as int);
            assert(part_tags(sorted@) =~= s.insert(at as int, p));
            let upto = all.subrange(0, i + 1);
            assert(upto.drop_last() =~= all.subrange(0, i as int));
            assert(upto.last() == p);
        }
        i = i + 1;
    }
    proof {
        assert(all.subrange(0, all.len() as int) =~= all);
    }
    sorted
}

/// What is done once every part came back.
#[derive(Debug)]
pub enum UploadStep {
    /// The upload is completed from these parts.
    Complete { parts: Vec<(i32, String)> },
    /// A part failed: nothing may be left behind.
    Abort,
}

/// What is done once every part came back, `failed` telling whether one of
/// them did not get through.
pub fn after_parts(parts: Vec<(i32, String)>, failed: bool) -> (r: UploadStep)
    ensures
        r is Abort <==> failed,
        r matches UploadStep::Complete { parts: sorted } ==> part_tags(sorted@) == by_number(part_tags(parts@)),
{
    if failed {
        UploadStep::Abort
    } else {
        UploadStep::Complete { parts: sort_parts(parts) }
    }
}

/// How an upload ended.
#[derive(Clone, Copy, PartialEq, Eq, Structural, Debug)]
pub enum UploadEnd {
    Done,
    /// The store refused it; an upload in parts is aborted.
    Refused,
    /// The store holds something else than what was sent.
    Corrupt { actual: u64 },
    /// The store did not report a checksum.
    Unchecked,
}

/// How an upload ends.
pub open spec fn upload_end(accepted: bool, expected: Option<u64>, reported: Option<u64>) -> UploadEnd {
    if !accepted {
        UploadEnd::Refused
    } else {
        match expected {
            None => UploadEnd::Done,
            Some(crc) => match crc_check(reported, crc) {
                CrcCheck::Match => UploadEnd::Done,
                CrcCheck::Mismatch { actual } => UploadEnd::Corrupt { actual },
                CrcCheck::Missing => UploadEnd::Unchecked,
            },
        }
    }
}

/// How an upload ends, once the store answered the request that finishes it;
/// a mismatch is counted.
pub fn finish_upload(accepted: bool, expected: Option<u64>, reported: Option<u64>, metrics: &mut Metrics) -> (r: UploadEnd)
    ensures
        r == upload_end(accepted, expected, reported),
        *final(metrics) == (Metrics {
            crc64_mismatches: if r is Corrupt {
                u64::wrapping_add(old(metrics).crc64_mismatches, 1)
            } else {
                old(metrics).crc64_mismatches
            },
            ..*old(metrics)
        }),
{
    if !accepted {
        return UploadEnd::Refused;
    }
    match expected {
        None => UploadEnd::Done,
        Some(crc) => match check_crc64_response(reported, crc, metrics) {
            CrcCheck::Match => UploadEnd::Done,
            CrcCheck::Mismatch { actual } => UploadEnd::Corrupt { actual },
            CrcCheck::Missing => UploadEnd::Unchecked,
        },
    }
}

/// How an upload ends: refused where the store does not take it; done where no
/// checksum is to be compared, or where the store reports the one expected;
/// corrupt where it reports another, and unchecked where it reports none.
pub proof fn law_upload_end(crc: u64, other: u64, reported: Option<u64>, expected: Option<u64>)
    requires
        other != crc,
    ensures
        upload_end(false, expected, reported) == UploadEnd::Refused,
        upload_end(true, None, reported) == UploadEnd::Done,
        upload_end(true, Some(crc), Some(crc)) == UploadEnd::Done,
        upload_end(true, Some(crc), Some(other)) == (UploadEnd::Corrupt { actual: other }),
        upload_end(true, Some(crc), None) == UploadEnd::Unchecked,
{
}

/// Checksums are sent and compared where that is wanted, of any body, and never
/// where it is not.
pub proof fn law_checksums_wanted(body: Seq<u8>)
    ensures
        md5_header(true, body) == Some(base64_of(md5_of(body))),
        md5_header(false, body) is None,
        crc_wanted(true, body) == Some(crc64_of(body)),
        crc_wanted(false, body) is None,
{
}

} // verus!
