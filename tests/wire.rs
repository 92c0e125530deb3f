use fileshare_core::wire::{
    reframe, decode_frame, encode_frame, encode_frame_prefix, read_be32, read_be64, FrameError,
};

#[test]
fn frame_round_trip() {
    let header = br#"{"packet_type":"FILE","source":"x","destination":"y","hop_count":0,"path":["x","y"]}"#;
    let filename = "report.pdf".as_bytes();
    let payload: Vec<u8> = (0..5000u32).map(|i| (i % 251) as u8).collect();
    let mut bytes = encode_frame(header, filename, &payload);
    bytes.extend_from_slice(b"trailing");
    let f = decode_frame(&bytes).unwrap();
    assert_eq!(f.header, header.to_vec());
    assert_eq!(f.filename, filename.to_vec());
    assert_eq!(f.payload, payload);
}

#[test]
fn frame_layout_is_big_endian_length_prefixed() {
    let bytes = encode_frame(b"HH", b"f", &[7, 8, 9]);
    assert_eq!(
        bytes,
        vec![0, 0, 0, 2, b'H', b'H', 0, 0, 0, 1, b'f', 0, 0, 0, 0, 0, 0, 0, 3, 7, 8, 9]
    );
    assert_eq!(encode_frame_prefix(b"HH", b"f", 3), bytes[..19].to_vec());
}

#[test]
fn empty_fields_round_trip() {
    let bytes = encode_frame(&[], &[], &[]);
    assert_eq!(bytes.len(), 16);
    let f = decode_frame(&bytes).unwrap();
    assert!(f.header.is_empty() && f.filename.is_empty() && f.payload.is_empty());
}

#[test]
fn every_short_stream_is_truncated() {
    let bytes = encode_frame(b"abc", b"name.txt", &[1, 2, 3, 4, 5]);
    for cut in 0..bytes.len() {
        assert!(matches!(decode_frame(&bytes[..cut]), Err(FrameError::Truncated)));
    }
    assert!(decode_frame(&bytes).is_ok());
}

#[test]
fn huge_declared_length_is_truncated() {
    let bytes = vec![0xff, 0xff, 0xff, 0xff, 1, 2, 3];
    assert!(matches!(decode_frame(&bytes), Err(FrameError::Truncated)));
}

#[test]
fn integers_read_big_endian() {
    assert_eq!(read_be32(&[0x12, 0x34, 0x56, 0x78], 0), 0x1234_5678);
    assert_eq!(read_be32(&[0, 0xff, 0, 0, 1], 1), 0xff00_0001);
    assert_eq!(read_be64(&[1, 2, 3, 4, 5, 6, 7, 8], 0), 0x0102_0304_0506_0708);
    assert_eq!(read_be64(&100_000u64.to_be_bytes(), 0), 100_000);
}

#[test]
fn relay_reframing_keeps_filename_and_payload() {
    let incoming = encode_frame(b"{old}", b"doc.txt", &[1, 2, 3, 4]);
    let frame = decode_frame(&incoming).unwrap();
    let out = reframe(b"{newer header}", &frame);
    let back = decode_frame(&out).unwrap();
    assert_eq!(back.header, b"{newer header}".to_vec());
    assert_eq!(back.filename, b"doc.txt".to_vec());
    assert_eq!(back.payload, vec![1, 2, 3, 4]);
}
