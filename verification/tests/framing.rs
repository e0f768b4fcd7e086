use zenoh_flow_perf::framing::{read_frame, read_messages};

fn framed(frames: &[&[u8]]) -> Vec<u8> {
    let mut out = Vec::new();
    for f in frames {
        out.extend_from_slice(&(f.len() as u16).to_le_bytes());
        out.extend_from_slice(f);
    }
    out
}

#[test]
fn read_frame_returns_payload_and_next_offset() {
    let data = [3u8, 0, 10, 20, 30, 99];
    let (frame, next) = read_frame(&data).unwrap();
    assert_eq!(frame, vec![10, 20, 30]);
    assert_eq!(next, 5);
}

#[test]
fn read_frame_reads_little_endian_length() {
    let mut data = vec![0x01u8, 0x01];
    data.extend(std::iter::repeat(7u8).take(257));
    let (frame, next) = read_frame(&data).unwrap();
    assert_eq!(frame.len(), 257);
    assert_eq!(next, 259);
}

#[test]
fn read_frame_rejects_empty_frame() {
    assert!(read_frame(&[0u8, 0, 1, 2]).is_none());
}

#[test]
fn read_frame_rejects_length_beyond_data() {
    assert!(read_frame(&[9u8, 0, 1, 2]).is_none());
}

#[test]
fn read_messages_splits_stream_in_order() {
    let stream = framed(&[&[1, 2, 3], &[4], &[5, 6]]);
    let frames = read_messages(stream);
    assert_eq!(frames, vec![vec![1, 2, 3], vec![4], vec![5, 6]]);
}

#[test]
fn read_messages_of_empty_stream() {
    assert!(read_messages(Vec::new()).is_empty());
}

#[test]
fn read_messages_stops_at_unreadable_frame() {
    let mut stream = framed(&[&[1, 2], &[3]]);
    stream.extend_from_slice(&[200, 0, 9, 9]);
    let frames = read_messages(stream);
    assert_eq!(frames, vec![vec![1, 2], vec![3]]);
}

#[test]
fn read_messages_stops_at_zero_length() {
    let mut stream = framed(&[&[8, 8]]);
    stream.extend_from_slice(&[0, 0]);
    stream.extend(framed(&[&[1]]));
    assert_eq!(read_messages(stream), vec![vec![8, 8]]);
}

#[test]
fn framing_roundtrip_on_large_frames() {
    let a: Vec<u8> = (0..1000u32).map(|i| (i % 251) as u8).collect();
    let b: Vec<u8> = vec![42; 65535];
    let stream = framed(&[&a, &b]);
    assert_eq!(read_messages(stream), vec![a, b]);
}
