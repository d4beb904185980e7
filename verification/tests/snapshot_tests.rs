use lvie::snapshot::{
    decode_header, decode_preview, encode_header, encode_preview, read_snapshot, write_snapshot, ReadError, SnapshotHeader,
    HEADER_LEN,
};

#[test]
fn header_bytes_are_little_endian() {
    let h = SnapshotHeader { sample_size: 1, channels: 4, width: 0x0102, height: 3, content_len: 0x0A0B0C };
    let bytes = encode_header(&h);
    assert_eq!(bytes.len(), HEADER_LEN);
    assert_eq!(
        bytes,
        vec![1, 4, 0x02, 0x01, 0, 0, 3, 0, 0, 0, 0x0C, 0x0B, 0x0A, 0, 0, 0, 0, 0]
    );
}

#[test]
fn header_roundtrip() {
    let h = SnapshotHeader {
        sample_size: 2,
        channels: 3,
        width: u32::MAX,
        height: 1234567,
        content_len: u64::MAX - 5,
    };
    let mut bytes = encode_header(&h);
    assert_eq!(decode_header(&bytes), Some(h));
    bytes.extend_from_slice(&[9, 9, 9]);
    assert_eq!(decode_header(&bytes), Some(h));
}

#[test]
fn short_headers_are_refused() {
    assert_eq!(decode_header(&vec![0u8; 17]), None);
    assert_eq!(decode_header(&vec![]), None);
}

#[test]
fn preview_file_roundtrip() {
    let content: Vec<u8> = vec![9, 8, 7, 6, 5, 4, 3, 2];
    let h = SnapshotHeader { sample_size: 1, channels: 4, width: 2, height: 1, content_len: 8 };
    let bytes = encode_preview(&h, &content);
    assert_eq!(bytes.len(), HEADER_LEN + 8);
    assert_eq!(&bytes[HEADER_LEN..], &content[..]);
    let (got_h, got_c) = decode_preview(&bytes).unwrap();
    assert_eq!(got_h, h);
    assert_eq!(got_c, content);

    let mut longer = bytes.clone();
    longer.push(1);
    assert_eq!(decode_preview(&longer).unwrap().1, content);
    assert!(decode_preview(&bytes[..bytes.len() - 1].to_vec()).is_none());
    assert!(decode_preview(&vec![0u8; 10]).is_none());
}

#[test]
fn read_snapshot_undoes_write_snapshot_for_16_bit_samples() {
    // a 2 by 1 image of one 16-bit channel: samples 0x0102 and 0xfffe
    let content: Vec<u8> = [0x0102u16, 0xfffe].iter().flat_map(|s| s.to_ne_bytes()).collect();
    let bytes = write_snapshot(2, 1, 2, 1, &content);
    assert_eq!(bytes.len(), HEADER_LEN + 4);
    assert_eq!(&bytes[..2], &[2, 1]);
    assert_eq!(read_snapshot(&bytes, 1), Ok((2, 1, content.clone())));
    assert_eq!(read_snapshot(&bytes, 4), Err(ReadError::WrongChannels));
}

#[test]
fn read_snapshot_refuses_a_truncated_file() {
    let bytes = write_snapshot(1, 4, 1, 1, &vec![1, 2, 3, 4]);
    assert_eq!(read_snapshot(&bytes[..HEADER_LEN + 3].to_vec(), 4), Err(ReadError::Truncated));
    assert_eq!(read_snapshot(&bytes[..5].to_vec(), 4), Err(ReadError::Truncated));
    // the channel count is checked before the samples are read
    assert_eq!(read_snapshot(&bytes[..HEADER_LEN].to_vec(), 3), Err(ReadError::WrongChannels));
}
