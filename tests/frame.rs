use yodel::connection::{Connection, IoStatus, ReadOutcome};
use yodel::frame::{append_bytes, bytes_to_u32, drain_frames, encode_frame, try_extract_frame};

#[test]
fn bytes_to_u32_reads_little_endian() {
    assert_eq!(bytes_to_u32(&[0x78, 0x56, 0x34, 0x12]), 0x1234_5678);
    assert_eq!(bytes_to_u32(&[1, 0, 0, 0]), 1);
    assert_eq!(bytes_to_u32(&[0, 1, 0, 0]), 256);
    assert_eq!(bytes_to_u32(&[0xff, 0xff, 0xff, 0xff]), u32::MAX);
    assert_eq!(bytes_to_u32(&[2, 0, 0, 0, 9, 9]), 2);
}

#[test]
fn encode_frame_writes_header_then_bodies() {
    assert_eq!(encode_frame(b"X", b"YZ"), vec![1, 0, 0, 0, 2, 0, 0, 0, b'X', b'Y', b'Z']);
    assert_eq!(encode_frame(b"", b""), vec![0u8; 8]);
    let a = vec![7u8; 300];
    let f = encode_frame(&a, b"");
    assert_eq!(&f[0..8], &[44, 1, 0, 0, 0, 0, 0, 0]);
    assert_eq!(f.len(), 308);
}

#[test]
fn extract_needs_a_whole_header() {
    let mut buf = vec![1, 0, 0, 0, 2, 0, 0];
    assert_eq!(try_extract_frame(&mut buf), None);
    assert_eq!(buf, vec![1, 0, 0, 0, 2, 0, 0]);
    let mut empty: Vec<u8> = Vec::new();
    assert_eq!(try_extract_frame(&mut empty), None);
    assert!(empty.is_empty());
}

#[test]
fn extract_leaves_partial_body_untouched() {
    let full = encode_frame(b"ab", b"cde");
    for k in 0..full.len() {
        let mut buf = full[0..k].to_vec();
        assert_eq!(try_extract_frame(&mut buf), None);
        assert_eq!(buf, full[0..k].to_vec());
    }
}

#[test]
fn extract_takes_frame_and_keeps_the_rest() {
    let mut buf = encode_frame(b"X", b"YZ");
    buf.extend_from_slice(&[5, 6, 7]);
    let (key, frame) = try_extract_frame(&mut buf).unwrap();
    assert_eq!(key, vec![1, 0, 0, 0]);
    assert_eq!(frame, vec![1, 0, 0, 0, 2, 0, 0, 0, b'X', b'Y', b'Z']);
    assert_eq!(buf, vec![5, 6, 7]);
}

#[test]
fn extract_with_empty_bodies() {
    let mut buf = vec![0u8; 8];
    let (key, frame) = try_extract_frame(&mut buf).unwrap();
    assert_eq!(key, vec![0, 0, 0, 0]);
    assert_eq!(frame, vec![0u8; 8]);
    assert!(buf.is_empty());
}

#[test]
fn extract_with_largest_declared_lengths_waits() {
    let mut buf = vec![0xff, 0xff, 0xff, 0xff, 0xff, 0xff, 0xff, 0xff, 1, 2, 3];
    assert_eq!(try_extract_frame(&mut buf), None);
    assert_eq!(buf.len(), 11);
}

#[test]
fn append_bytes_appends_verbatim() {
    let mut out = vec![1, 2];
    append_bytes(&mut out, &[3, 4, 5]);
    assert_eq!(out, vec![1, 2, 3, 4, 5]);
    append_bytes(&mut out, &[]);
    assert_eq!(out, vec![1, 2, 3, 4, 5]);
}

fn feed_chunks(chunks: &[&[u8]]) -> (Vec<Vec<u8>>, Vec<u8>) {
    let mut conn = Connection::new(0u8);
    let mut frames = Vec::new();
    for c in chunks {
        let r = conn.record_read(IoStatus::Done(c.len()), c);
        if !c.is_empty() {
            assert_eq!(r, Ok(ReadOutcome::Progressed));
        }
        for (_, f) in conn.pop_messages() {
            frames.push(f);
        }
    }
    (frames, conn.inbound().to_vec())
}

#[test]
fn round_trip_under_any_chunking() {
    let full = encode_frame(b"hello", b"world!");
    for i in 0..=full.len() {
        for j in i..=full.len() {
            let (frames, rest) = feed_chunks(&[&full[0..i], &full[i..j], &full[j..]]);
            assert_eq!(frames, vec![full.clone()]);
            assert!(rest.is_empty());
        }
    }
    let singles: Vec<&[u8]> = full.chunks(1).collect();
    let (frames, rest) = feed_chunks(&singles);
    assert_eq!(frames, vec![full.clone()]);
    assert!(rest.is_empty());
}

#[test]
fn multi_frame_buffer_drains_in_order() {
    let f1 = encode_frame(b"a", b"bc");
    let f2 = encode_frame(b"", b"");
    let f3 = encode_frame(&[9, 9, 9, 9], b"z");
    let mut buf = Vec::new();
    buf.extend_from_slice(&f1);
    buf.extend_from_slice(&f2);
    buf.extend_from_slice(&f3);
    let got = drain_frames(&mut buf);
    assert_eq!(got.len(), 3);
    assert_eq!(got[0], (vec![1, 0, 0, 0], f1));
    assert_eq!(got[1], (vec![0, 0, 0, 0], f2));
    assert_eq!(got[2], (vec![4, 0, 0, 0], f3));
    assert!(buf.is_empty());
}

#[test]
fn drain_keeps_trailing_partial_frame() {
    let f1 = encode_frame(b"a", b"b");
    let mut buf = f1.clone();
    buf.extend_from_slice(&[3, 0, 0]);
    let got = drain_frames(&mut buf);
    assert_eq!(got, vec![(vec![1, 0, 0, 0], f1)]);
    assert_eq!(buf, vec![3, 0, 0]);
}

#[test]
fn concrete_scenario_two_writes() {
    let bytes = [1u8, 0, 0, 0, 2, 0, 0, 0, b'X', b'Y', b'Z'];
    let mut conn = Connection::new(0u8);
    assert_eq!(conn.record_read(IoStatus::Done(5), &bytes[0..5]), Ok(ReadOutcome::Progressed));
    assert_eq!(conn.pop_message(), None);
    assert_eq!(conn.inbound(), &bytes[0..5]);
    assert_eq!(conn.record_read(IoStatus::Done(6), &bytes[5..]), Ok(ReadOutcome::Progressed));
    let (key, frame) = conn.pop_message().unwrap();
    assert_eq!(key, vec![1, 0, 0, 0]);
    assert_eq!(&frame[8..], b"XYZ");
    assert_eq!(frame, bytes.to_vec());
    assert!(conn.inbound().is_empty());
    assert_eq!(conn.pop_message(), None);
}
