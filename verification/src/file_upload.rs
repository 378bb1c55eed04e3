//! Uploads that are read part by part, compared with those of content in memory.

use vstd::prelude::*;

use crate::checksum::crc64_of;
use crate::upload::{
    crc_wanted, cut, law_parts_reassemble, lemma_part_bounds, part_count, part_end, parts_joined, parts_of, plans,
    upload_end, PartRange, PartReader, PartView,
};

verus! {

/// A whole run of a reader over content: one reader after the other, each
/// given the bytes that come next, until everything was read.
pub open spec fn reads_whole(
    readers: Seq<PartReader>,
    parts: Seq<PartView>,
    content: Seq<u8>,
    part_size: usize,
    verify_crc64: bool,
    content_md5: bool,
) -> bool {
    &&& readers.len() == parts.len() + 1
    &&& content.len() <= u64::MAX
    &&& readers[0].begins(content.len() as u64, part_size, verify_crc64, content_md5)
    &&& forall|k: int|
        0 <= k < parts.len() ==> {
            let r = readers[k];
            let from = r.content().len() as int;
            let to = part_end(r.size() as int, r.part_size(), r.sent());
            from < r.size() && r.took(content.subrange(from, to), #[trigger] parts[k], &readers[k + 1])
        }
    &&& readers.last().content().len() == readers.last().size()
}

proof fn lemma_reading(
    readers: Seq<PartReader>,
    parts: Seq<PartView>,
    content: Seq<u8>,
    part_size: usize,
    verify_crc64: bool,
    content_md5: bool,
    k: int,
)
    requires
        part_size > 0,
        reads_whole(readers, parts, content, part_size, verify_crc64, content_md5),
        0 <= k <= parts.len(),
    ensures
        ({
            let r = readers[k];
            let n = part_count(content.len() as int, part_size as int);
            &&& r.wf()
            &&& r.size() == content.len()
            &&& r.part_size() == part_size
            &&& r.sent() == k <= n
            &&& r.verifies() == verify_crc64
            &&& r.sends_md5() == content_md5
            &&& r.content().len() == if k < n {
                k * part_size as int
            } else {
                content.len() as int
            }
            &&& r.content() == content.subrange(0, r.content().len() as int)
        }),
        k > 0 ==> parts[k - 1] == parts_of(content, part_size as int, content_md5)[k - 1],
    decreases k,
{
    let len = content.len() as int;
    let size = part_size as int;
    if k == 0 {
        assert(content.subrange(0, 0) =~= Seq::<u8>::empty());
        assert(0 * size == 0);
        readers[0].lemma_read();
    } else {
        lemma_reading(readers, parts, content, part_size, verify_crc64, content_md5, k - 1);
        let i = k - 1;
        let r = readers[i];
        r.lemma_read();
        assert(r.took(content.subrange(r.content().len() as int, part_end(len, size, i)), parts[i], &readers[i + 1]));
        readers[i + 1].lemma_read();
        assert(i < part_count(len, size));
        lemma_part_bounds(len, size, i);
        let end = part_end(len, size, i);
        assert(content.subrange(0, i * size) + content.subrange(i * size, end) =~= content.subrange(0, end));
        assert(readers[i + 1].content() == content.subrange(0, end));
        assert(parts[i] == parts_of(content, size, content_md5)[i]);
    }
}

/// An upload that is read part by part is the same as one of the content in
/// memory: the same parts are sent under the same numbers, the same checksum is
/// compared, so that the same answers of the store end it in the same way. The
/// parts, joined in their order, are the content; where the checksum is
/// compared, the upload is done only if the store reports that of the content.
pub proof fn law_reader_like_memory(
    content: Seq<u8>,
    part_size: usize,
    verify_crc64: bool,
    content_md5: bool,
    readers: Seq<PartReader>,
    from_reader: Seq<PartView>,
    ranges: Seq<PartRange>,
    from_memory: Seq<PartView>,
    accepted: bool,
    reported: Option<u64>,
)
    requires
        part_size > 0,
        reads_whole(readers, from_reader, content, part_size, verify_crc64, content_md5),
        plans(ranges, content.len() as int, part_size as int),
        from_memory == ranges.map_values(|range: PartRange| cut(content, range, content_md5)),
    ensures
        from_reader == from_memory,
        from_memory == parts_of(content, part_size as int, content_md5),
        parts_joined(content, part_size as int, from_reader.len() as int) == content,
        readers.last().content() == content,
        crc_wanted(readers.last().verifies(), readers.last().content()) == crc_wanted(verify_crc64, content),
        upload_end(accepted, crc_wanted(readers.last().verifies(), readers.last().content()), reported) == upload_end(
            accepted,
            crc_wanted(verify_crc64, content),
            reported,
        ),
        verify_crc64 && upload_end(accepted, crc_wanted(verify_crc64, content), reported) is Done ==> reported == Some(
            crc64_of(content),
        ),
{
    let len = content.len() as int;
    let size = part_size as int;
    let n = part_count(len, size);
    let last = from_reader.len() as int;
    assert(n >= 0) by (nonlinear_arith)
        requires
            n == (len + size - 1) / size,
            len >= 0,
            size > 0,
    ;
    lemma_reading(readers, from_reader, content, part_size, verify_crc64, content_md5, last);
    assert(readers[last] == readers.last());
    if last < n {
        lemma_part_bounds(len, size, last);
    }
    assert(last == n);
    assert(content.subrange(0, len) =~= content);
    let all = parts_of(content, size, content_md5);
    assert(from_reader =~= all) by {
        assert forall|i: int| 0 <= i < n implies from_reader[i] == all[i] by {
            lemma_reading(readers, from_reader, content, part_size, verify_crc64, content_md5, i + 1);
        }
    }
    assert(from_memory =~= all) by {
        assert forall|i: int| 0 <= i < n implies from_memory[i] == all[i] by {
            assert(ranges[i].number == i + 1);
        }
    }
    law_parts_reassemble(content, size);
}

} // verus!
