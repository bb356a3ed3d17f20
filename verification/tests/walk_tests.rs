use mp4scan::ByteCursor;
use mp4scan::ParseError;
use mp4scan::boxes::read_box_header;
use mp4scan::decode::parse_stco;
use mp4scan::decode::parse_stss;
use mp4scan::decode::parse_stsz;
use mp4scan::events::Event;
use mp4scan::walker::parse_boxes;
use mp4scan::walker::parse_stream;

fn tag(t: &[u8; 4]) -> u32 {
    u32::from_be_bytes(*t)
}

/// An 8-byte header followed by the payload.
fn boxed(size: u32, t: &[u8; 4], payload: &[u8]) -> Vec<u8> {
    let mut v = Vec::new();
    v.extend_from_slice(&size.to_be_bytes());
    v.extend_from_slice(t);
    v.extend_from_slice(payload);
    v
}

fn be32s(values: &[u32]) -> Vec<u8> {
    let mut v = Vec::new();
    for x in values {
        v.extend_from_slice(&x.to_be_bytes());
    }
    v
}

#[test]
fn header_decoding_basic() {
    let data = boxed(16, b"free", &[0u8; 8]);
    let mut cursor = ByteCursor::new(data);
    let h = read_box_header(&mut cursor).unwrap();
    assert_eq!(h.size, 16);
    assert_eq!(h.box_type, tag(b"free"));
    assert_eq!(h.start, 0);
    assert_eq!(h.end, 16);
    assert_eq!(cursor.position(), 8);
}

#[test]
fn header_decoding_zero_size_sentinel() {
    let data = boxed(0, b"mdat", &[1, 2, 3, 4]);
    let mut cursor = ByteCursor::new(data);
    let h = read_box_header(&mut cursor).unwrap();
    assert_eq!(h.size, 0);
    assert_eq!(h.end, 8, "a zero size means header-only: end is start + 8");
    assert_eq!(cursor.position(), 8);
}

#[test]
fn header_decoding_is_big_endian() {
    // 0x00000100 = 256: any byte-order or pass-through mistake would differ
    let mut data = boxed(256, b"free", &[]);
    data.resize(256, 0);
    let mut cursor = ByteCursor::new(data);
    let h = read_box_header(&mut cursor).unwrap();
    assert_eq!(h.size, 256);
    assert_eq!(h.end, 256);
}

#[test]
fn header_decoding_at_offset() {
    let mut data = vec![0xAAu8; 4];
    data.extend_from_slice(&boxed(12, b"skip", &[0u8; 4]));
    let mut cursor = ByteCursor::new(data);
    cursor.seek_to(4);
    let h = read_box_header(&mut cursor).unwrap();
    assert_eq!(h.start, 4);
    assert_eq!(h.size, 12);
    assert_eq!(h.end, 16);
    assert_eq!(cursor.position(), 12);
}

#[test]
fn header_truncated_fails() {
    let data = vec![0u8, 0, 0, 16, b'f', b'r'];
    let mut cursor = ByteCursor::new(data);
    assert_eq!(read_box_header(&mut cursor), Err(ParseError::UnexpectedEof));
}

#[test]
fn classifier_containers_and_leaves() {
    let data = boxed(16, b"moov", &[0u8; 8]);
    let mut cursor = ByteCursor::new(data);
    let h = read_box_header(&mut cursor).unwrap();
    assert!(h.is_container());
    assert_eq!(h.get_skip_bytes(), 0);

    let data = boxed(16, b"free", &[0u8; 8]);
    let mut cursor = ByteCursor::new(data);
    let h = read_box_header(&mut cursor).unwrap();
    assert!(!h.is_container());
    assert_eq!(h.get_skip_bytes(), 0);
}

#[test]
fn classifier_fixed_skips() {
    let data = boxed(90, b"avc1", &[0u8; 82]);
    let mut cursor = ByteCursor::new(data);
    let h = read_box_header(&mut cursor).unwrap();
    assert!(h.is_container());
    assert_eq!(h.get_skip_bytes(), 78);

    let data = boxed(16, b"meta", &[0u8; 8]);
    let mut cursor = ByteCursor::new(data);
    let h = read_box_header(&mut cursor).unwrap();
    assert!(h.is_container());
    assert_eq!(h.get_skip_bytes(), 4);
}

#[test]
fn sync_sample_round_trip() {
    // version 1, flags 00 00 07, three entries
    let mut payload = vec![1u8, 0, 0, 7];
    payload.extend_from_slice(&be32s(&[3, 10, 20, 30]));
    let mut cursor = ByteCursor::new(payload.clone());
    let mut report = Vec::new();
    parse_stss(&mut cursor, 2, &mut report).unwrap();
    assert_eq!(cursor.position() as usize, payload.len());
    assert_eq!(report.len(), 1);
    match &report[0] {
        Event::SyncSampleTable { depth, version, flags, count, entries } => {
            assert_eq!(*depth, 2);
            assert_eq!(*version, 1);
            assert_eq!(*flags, 7);
            assert_eq!(*count, 3);
            assert_eq!(entries, &vec![10, 20, 30]);
        },
        _ => panic!("expected a sync-sample table event"),
    }
}

#[test]
fn chunk_offset_round_trip() {
    let mut payload = vec![0u8, 0, 0, 0];
    payload.extend_from_slice(&be32s(&[2, 0x1000, 0x2000]));
    let mut cursor = ByteCursor::new(payload.clone());
    let mut report = Vec::new();
    parse_stco(&mut cursor, 1, &mut report).unwrap();
    assert_eq!(cursor.position() as usize, payload.len());
    match &report[0] {
        Event::ChunkOffsetTable { count, entries, .. } => {
            assert_eq!(*count, 2);
            assert_eq!(entries, &vec![0x1000, 0x2000]);
        },
        _ => panic!("expected a chunk-offset table event"),
    }
}

#[test]
fn sync_sample_truncated_fails() {
    // declares four entries but holds only two
    let mut payload = vec![0u8, 0, 0, 0];
    payload.extend_from_slice(&be32s(&[4, 10, 20]));
    let mut cursor = ByteCursor::new(payload);
    let mut report = Vec::new();
    assert_eq!(parse_stss(&mut cursor, 0, &mut report), Err(ParseError::UnexpectedEof));
    assert!(report.is_empty());
}

#[test]
fn sample_size_uniform_shortcut() {
    // uniform size 4 and a count of 1000: no entry array follows, and none
    // must be read
    let mut payload = vec![0u8, 0, 0, 0];
    payload.extend_from_slice(&be32s(&[4, 1000]));
    let mut cursor = ByteCursor::new(payload.clone());
    let mut report = Vec::new();
    parse_stsz(&mut cursor, 0, &mut report).unwrap();
    assert_eq!(cursor.position() as usize, payload.len());
    match &report[0] {
        Event::SampleSizeTable { uniform_size, count, entries, .. } => {
            assert_eq!(*uniform_size, 4);
            assert_eq!(*count, 1000);
            assert!(entries.is_empty());
        },
        _ => panic!("expected a sample-size table event"),
    }
}

#[test]
fn sample_size_explicit_entries() {
    let mut payload = vec![0u8, 0, 0, 0];
    payload.extend_from_slice(&be32s(&[0, 3, 100, 200, 300]));
    let mut cursor = ByteCursor::new(payload.clone());
    let mut report = Vec::new();
    parse_stsz(&mut cursor, 0, &mut report).unwrap();
    assert_eq!(cursor.position() as usize, payload.len());
    match &report[0] {
        Event::SampleSizeTable { uniform_size, count, entries, .. } => {
            assert_eq!(*uniform_size, 0);
            assert_eq!(*count, 3);
            assert_eq!(entries, &vec![100, 200, 300]);
        },
        _ => panic!("expected a sample-size table event"),
    }
}

#[test]
fn flat_file_single_free_box() {
    let data = boxed(16, b"free", &[0u8; 8]);
    let (events, total) = parse_stream(data).unwrap();
    assert_eq!(total, 1);
    assert_eq!(events.len(), 1);
    match &events[0] {
        Event::BoxInfo { header, depth } => {
            assert_eq!(header.box_type, tag(b"free"));
            assert_eq!(header.start, 0);
            assert_eq!(header.size, 16);
            assert_eq!(header.end, 16);
            assert_eq!(*depth, 0);
        },
        _ => panic!("expected a box record"),
    }
}

#[test]
fn nested_container_depths() {
    let child = boxed(16, b"free", &[0u8; 8]);
    let data = boxed(24, b"moov", &child);
    let (events, total) = parse_stream(data).unwrap();
    assert_eq!(total, 2);
    assert_eq!(events.len(), 2);
    match (&events[0], &events[1]) {
        (
            Event::BoxInfo { header: parent, depth: d0 },
            Event::BoxInfo { header: inner, depth: d1 },
        ) => {
            assert_eq!(parent.box_type, tag(b"moov"));
            assert_eq!(*d0, 0);
            assert_eq!(inner.box_type, tag(b"free"));
            assert_eq!(inner.start, 8);
            assert_eq!(inner.end, 24);
            assert_eq!(*d1, *d0 + 1);
        },
        _ => panic!("expected two box records"),
    }
}

#[test]
fn corrupted_overlap_skipped_then_recovers() {
    // first header declares 100 bytes in a 32-byte file: skipped by the
    // 8-byte-stride recovery, unreported and uncounted; the scan resumes
    // 16 bytes in, where a valid sibling sits
    let mut data = boxed(100, b"junk", &[0u8; 8]);
    data.extend_from_slice(&boxed(16, b"free", &[0u8; 8]));
    assert_eq!(data.len(), 32);
    let (events, total) = parse_stream(data).unwrap();
    assert_eq!(total, 1);
    assert_eq!(events.len(), 1);
    match &events[0] {
        Event::BoxInfo { header, depth } => {
            assert_eq!(header.box_type, tag(b"free"));
            assert_eq!(header.start, 16);
            assert_eq!(header.end, 32);
            assert_eq!(*depth, 0);
        },
        _ => panic!("expected a box record"),
    }
}

#[test]
fn zero_size_box_reports_nothing_counts_nothing() {
    let data = boxed(0, b"free", &[]);
    let (events, total) = parse_stream(data).unwrap();
    assert_eq!(total, 0);
    assert!(events.is_empty());
}

#[test]
fn zero_size_fixed_skip_box_stays_counted() {
    // a zero-size box of a fixed-skip type takes the skip path before the
    // zero-size branch can take its count back: counted, never reported
    let data = boxed(0, b"meta", &[]);
    let (events, total) = parse_stream(data).unwrap();
    assert_eq!(total, 1);
    assert!(events.is_empty());
}

#[test]
fn fixed_skip_meta_descends_past_prefix() {
    // meta: 4 prefix bytes (version/flags), then one sub-box
    let mut payload = vec![0u8, 0, 0, 0];
    payload.extend_from_slice(&boxed(12, b"free", &[0u8; 4]));
    let data = boxed(24, b"meta", &payload);
    let (events, total) = parse_stream(data).unwrap();
    assert_eq!(total, 2);
    assert_eq!(events.len(), 2);
    match (&events[0], &events[1]) {
        (
            Event::BoxInfo { header: parent, depth: d0 },
            Event::BoxInfo { header: inner, depth: d1 },
        ) => {
            assert_eq!(parent.box_type, tag(b"meta"));
            assert_eq!(*d0, 0);
            assert_eq!(inner.box_type, tag(b"free"));
            assert_eq!(inner.start, 12, "the child begins exactly 4 bytes past the meta header");
            assert_eq!(*d1, 1);
        },
        _ => panic!("expected two box records"),
    }
}

#[test]
fn fixed_skip_avc1_descends_past_prefix() {
    // avc1: a 78-byte fixed structure past the header, then one sub-box
    let mut payload = vec![0u8; 78];
    payload.extend_from_slice(&boxed(12, b"free", &[0u8; 4]));
    let data = boxed(98, b"avc1", &payload);
    assert_eq!(data.len(), 98);
    let (events, total) = parse_stream(data).unwrap();
    assert_eq!(total, 2);
    assert_eq!(events.len(), 2);
    match &events[1] {
        Event::BoxInfo { header, depth } => {
            assert_eq!(header.box_type, tag(b"free"));
            assert_eq!(header.start, 86, "the child begins exactly 78 bytes past the avc1 header");
            assert_eq!(*depth, 1);
        },
        _ => panic!("expected the nested box record"),
    }
}

#[test]
fn typed_leaf_inside_container() {
    // moov > stss with two entries; the walk realigns and the sibling after
    // the table is still found
    let mut stss_payload = vec![0u8, 0, 0, 0];
    stss_payload.extend_from_slice(&be32s(&[2, 7, 9]));
    let stss = boxed(8 + 16, b"stss", &stss_payload);
    let mut moov_payload = stss;
    moov_payload.extend_from_slice(&boxed(8, b"free", &[]));
    let data = boxed(8 + 32, b"moov", &moov_payload);
    let (events, total) = parse_stream(data).unwrap();
    assert_eq!(total, 3);
    assert_eq!(events.len(), 4, "three boxes and one decoded table");
    match &events[2] {
        Event::SyncSampleTable { depth, count, entries, .. } => {
            assert_eq!(*depth, 2, "the table reports one level below its box");
            assert_eq!(*count, 2);
            assert_eq!(entries, &vec![7, 9]);
        },
        _ => panic!("expected the decoded table after its box record"),
    }
    match &events[3] {
        Event::BoxInfo { header, .. } => assert_eq!(header.box_type, tag(b"free")),
        _ => panic!("expected the sibling after the table"),
    }
}

#[test]
fn truncated_stream_is_fatal() {
    let data = vec![0u8, 0, 0, 16];
    assert!(matches!(parse_stream(data), Err(ParseError::UnexpectedEof)));
}

#[test]
fn truncated_table_aborts_walk() {
    // stss declares 5 entries but the stream ends after 1
    let mut payload = vec![0u8, 0, 0, 0];
    payload.extend_from_slice(&be32s(&[5, 42]));
    let data = boxed(100, b"stss", &payload);
    // declared size overruns the data, so shrink the declared size instead
    let mut data = data;
    data[3] = data.len() as u8;
    assert!(matches!(parse_stream(data), Err(ParseError::UnexpectedEof)));
}

#[test]
fn parse_boxes_reports_count_and_position() {
    let mut data = boxed(16, b"free", &[0u8; 8]);
    data.extend_from_slice(&boxed(8, b"skip", &[]));
    let len = data.len() as u64;
    let mut cursor = ByteCursor::new(data);
    let mut report = Vec::new();
    let count = parse_boxes(&mut cursor, len, 0, &mut report).unwrap();
    assert_eq!(count, 2);
    assert_eq!(cursor.position(), len);
    assert_eq!(report.len(), 2);
}

#[test]
fn small_declared_size_realigns_at_declared_end() {
    // a leaf whose declared size is below the 8 header bytes: the scan
    // realigns at its declared end and rescans from there
    let mut data = boxed(9, b"abcd", &[]);
    data.extend_from_slice(&boxed(15, b"free", &[0u8; 7]));
    assert_eq!(data.len(), 23);
    let (events, total) = parse_stream(data).unwrap();
    // the box at 0 ends at 9; rescanning at 9 reads a header from the
    // middle of the sibling, which overruns and is stride-skipped; nothing
    // valid remains
    assert_eq!(total, 1);
    assert_eq!(events.len(), 1);
    match &events[0] {
        Event::BoxInfo { header, .. } => {
            assert_eq!(header.box_type, tag(b"abcd"));
            assert_eq!(header.end, 9);
        },
        _ => panic!("expected a box record"),
    }
}
