use ossfs::checksum::crc64ecma;
use ossfs::content::{resize, slice_at, write_at, Splice, WRITE_SPOOL_THRESHOLD, ZERO_CHUNK};
use ossfs::metrics::Metrics;
use ossfs::settings::MULTIPART_PART_SIZE;
use ossfs::upload::{
    after_parts, crc_for, cut_part, finish_upload, md5_for, multipart_plan, sort_parts, wants_multipart,
    PartRange, PartReader, StreamingUpload, UploadEnd, UploadPart, UploadStep,
};

#[test]
fn content_above_the_threshold_goes_in_parts() {
    assert!(!wants_multipart(11));
    assert!(!wants_multipart(16 * 1024 * 1024));
    assert!(wants_multipart(16 * 1024 * 1024 + 1));
}

#[test]
fn parts_are_cut_in_order() {
    let data: Vec<u8> = (0..17 * 1024 * 1024usize).map(|i| (i % 251) as u8).collect();
    let plan = multipart_plan(data.len() as u64, 8 * 1024 * 1024);
    assert_eq!(plan.len(), 3);
    let mut joined = Vec::new();
    for (i, range) in plan.iter().enumerate() {
        assert_eq!(range.number, i as i32 + 1);
        let part = cut_part(&data, *range, false);
        assert!(part.md5.is_none());
        joined.extend_from_slice(&part.data);
    }
    assert_eq!(joined, data);
}

#[test]
fn the_last_part_is_what_is_left() {
    let plan = multipart_plan(17 * 1024 * 1024, 5 * 1024 * 1024);
    assert_eq!(plan.len(), 4);
    assert_eq!(plan[3], PartRange { number: 4, start: 15 * 1024 * 1024, end: 17 * 1024 * 1024 });
    assert!(multipart_plan(0, 5).is_empty());
    assert_eq!(multipart_plan(10, 5).len(), 2);
}

#[test]
fn headers_are_sent_on_request() {
    assert_eq!(md5_for(true, b"hello").as_deref(), Some("XUFAKrxLKna5cZ2REBfFkg=="));
    assert_eq!(md5_for(false, b"hello"), None);
}

#[test]
fn checksums_are_compared_on_request() {
    let mut m = Metrics::new();
    let crc = crc_for(true, b"hello");
    assert_eq!(crc, Some(crc64ecma(b"hello")));
    assert_eq!(crc_for(false, b"hello"), None);
    assert_eq!(finish_upload(true, crc, crc, &mut m), UploadEnd::Done);
    assert_eq!(finish_upload(true, None, None, &mut m), UploadEnd::Done);
    assert_eq!(m.crc64_mismatches, 0);
}

#[test]
fn a_wrong_checksum_is_counted() {
    let mut m = Metrics::new();
    assert_eq!(finish_upload(true, Some(1), Some(2), &mut m), UploadEnd::Corrupt { actual: 2 });
    assert_eq!(m.crc64_mismatches, 1);
    assert_eq!(finish_upload(true, Some(1), None, &mut m), UploadEnd::Unchecked);
    assert_eq!(finish_upload(false, Some(1), Some(1), &mut m), UploadEnd::Refused);
    assert_eq!(m.crc64_mismatches, 1);
}

#[test]
fn parts_are_completed_by_number_and_failures_abort() {
    let tag = |n: i32| (n, format!("e{n}"));
    assert_eq!(sort_parts(vec![tag(3), tag(1), tag(2)]), vec![tag(1), tag(2), tag(3)]);
    match after_parts(vec![tag(2), tag(1)], false) {
        UploadStep::Complete { parts } => assert_eq!(parts, vec![tag(1), tag(2)]),
        UploadStep::Abort => panic!("every part came back"),
    }
    assert!(matches!(after_parts(vec![tag(1)], true), UploadStep::Abort));
}

#[test]
fn pieces_of_any_size_reassemble() {
    let data: Vec<u8> = (0..20 * 1024 * 1024usize).map(|i| (i % 253) as u8).collect();
    let mut up = StreamingUpload::new(true, true);
    let mut parts = Vec::new();
    for chunk in data.chunks(3 * 1024 * 1024 + 17) {
        parts.extend(up.write(chunk));
    }
    let (last, crc) = up.finish();
    parts.extend(last);
    assert_eq!(parts.iter().map(|p| p.number).collect::<Vec<_>>(), vec![1, 2, 3]);
    assert_eq!(parts[0].data.len(), MULTIPART_PART_SIZE);
    assert_eq!(parts[0].md5, md5_for(true, &parts[0].data));
    assert_eq!(parts.iter().flat_map(|p| p.data.iter().copied()).collect::<Vec<u8>>(), data);
    assert_eq!(crc, Some(crc64ecma(&data)));
}

#[test]
fn an_upload_of_whole_parts_has_no_last_one() {
    let mut up = StreamingUpload::new(false, false);
    let parts = up.write(&vec![1u8; MULTIPART_PART_SIZE]);
    assert_eq!((parts.len(), parts[0].number), (1, 1));
    let (last, crc) = up.finish();
    assert!(last.is_none() && crc.is_none());
    let (last, _) = StreamingUpload::new(false, false).finish();
    assert!(last.is_none());
}

#[test]
fn content_is_written_over_and_resized() {
    assert_eq!(write_at(b"0123456789".to_vec(), 2, b"xx"), b"01xx456789");
    assert_eq!(write_at(b"ab".to_vec(), 4, b"z"), b"ab\0\0z");
    assert_eq!(write_at(Vec::new(), 0, b""), b"");
    assert_eq!(resize(b"abc".to_vec(), 5), b"abc\0\0");
    assert_eq!(resize(b"abc".to_vec(), 2), b"ab");
    assert_eq!(slice_at(&b"abcdef".to_vec(), 2, 3), b"cde");
    assert_eq!(slice_at(&b"abcdef".to_vec(), 4, 9), b"ef");
    assert_eq!(slice_at(&b"abcdef".to_vec(), 9, 9), b"");
}

fn spliced(content: &Vec<u8>, at: usize, data: &[u8]) -> Vec<u8> {
    let mut splice = Splice::begin(content, at, data);
    let mut out = Vec::new();
    while let Some(piece) = splice.next_piece(content, data) {
        out.extend_from_slice(&piece);
    }
    out
}

#[test]
fn pieces_of_a_splice_are_the_written_content() {
    let content = b"0123456789".to_vec();
    for at in [0usize, 3, 8, 10, 15] {
        assert_eq!(spliced(&content, at, b"abcd"), write_at(content.clone(), at, b"abcd"), "at {at}");
    }
    let mut splice = Splice::begin(&Vec::new(), ZERO_CHUNK + 5, b"z");
    let mut largest = 0;
    while let Some(piece) = splice.next_piece(&Vec::new(), b"z") {
        largest = largest.max(piece.len());
    }
    assert_eq!(largest, ZERO_CHUNK, "a hole comes in small pieces");
    assert!(WRITE_SPOOL_THRESHOLD > ZERO_CHUNK);
}

#[test]
fn an_upload_from_a_file_is_like_one_from_memory() {
    let content: Vec<u8> = (0..23u8).collect();
    for (len, part_size) in [(0, 5), (1, 5), (5, 5), (6, 5), (20, 5), (23, 7), (23, 100)] {
        let body = content[..len].to_vec();
        let plan = multipart_plan(len as u64, part_size);
        let memory: Vec<UploadPart> = plan.into_iter().map(|range| cut_part(&body, range, true)).collect();
        let mut reader = PartReader::new(len as u64, part_size, true, true);
        let mut file = Vec::new();
        let mut at = 0;
        while let Some(n) = reader.next_len() {
            file.push(reader.part(body[at..at + n].to_vec()));
            at += n;
        }
        assert_eq!(file.len(), memory.len());
        for (a, b) in file.iter().zip(&memory) {
            assert_eq!((a.number, &a.data, &a.md5), (b.number, &b.data, &b.md5));
        }
        assert_eq!(file.iter().flat_map(|p| p.data.iter().copied()).collect::<Vec<u8>>(), body);
        assert_eq!(reader.finish(), crc_for(true, &body));
    }
}
