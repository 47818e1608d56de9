use fs_transfer::chunking::{sections_needed, CHUNK_CAPACITY};
use fs_transfer::transfer::Transfer;
use fs_transfer::wire::{
    decode_header, decode_name, decode_prefix, encode_header, push_be_u64, read_be_u64,
    PREFIX_LEN,
};
use fs_transfer::TransferError;

/// Runs the receiving side over `stream`, handing it at most `piece` bytes
/// per read, and returns the decoded name and the bytes it would write.
fn receive(stream: &[u8], piece: usize) -> Result<(String, Vec<u8>), TransferError> {
    let (header, used) = decode_header(stream)?;
    let mut transfer = Transfer::new(header.content_length);
    let mut pos = used;
    let mut out = Vec::new();
    while !transfer.is_complete() {
        let want = transfer.next_request().min(piece);
        let end = (pos + want).min(stream.len());
        let chunk = &stream[pos..end];
        transfer.record(chunk)?;
        out.extend_from_slice(chunk);
        pos = end;
    }
    Ok((header.name, out))
}

#[test]
fn header_round_trip_photo() {
    let bytes = encode_header("photo.jpg", 123456);
    let (header, used) = decode_header(&bytes).unwrap();
    assert_eq!(header.name, "photo.jpg");
    assert_eq!(header.content_length, 123456);
    assert_eq!(used, 16 + 9);
}

#[test]
fn header_bytes_for_a_txt() {
    let bytes = encode_header("a.txt", 5);
    let expected: Vec<u8> = vec![
        0, 0, 0, 0, 0, 0, 0, 5, 0, 0, 0, 0, 0, 0, 0, 5, 0x61, 0x2e, 0x74, 0x78, 0x74,
    ];
    assert_eq!(bytes, expected);
}

#[test]
fn receive_a_txt_hello() {
    let mut stream = encode_header("a.txt", 5);
    stream.extend_from_slice(&[0x68, 0x65, 0x6c, 0x6c, 0x6f]);
    let (name, content) = receive(&stream, 4000).unwrap();
    assert_eq!(name, "a.txt");
    assert_eq!(content, b"hello".to_vec());
}

#[test]
fn receive_in_small_pieces_reassembles() {
    let content: Vec<u8> = (0..10_000u32).map(|i| (i % 251) as u8).collect();
    let mut stream = encode_header("data.bin", content.len() as u64);
    stream.extend_from_slice(&content);
    let (name, got) = receive(&stream, 777).unwrap();
    assert_eq!(name, "data.bin");
    assert_eq!(got, content);
}

#[test]
fn receive_empty_file() {
    let stream = encode_header("empty", 0);
    let (name, got) = receive(&stream, 4000).unwrap();
    assert_eq!(name, "empty");
    assert!(got.is_empty());
    assert_eq!(sections_needed(0, CHUNK_CAPACITY), 0);
}

#[test]
fn receive_fails_when_content_ends_early() {
    let mut stream = encode_header("short", 10);
    stream.extend_from_slice(b"abc");
    assert_eq!(receive(&stream, 4000), Err(TransferError::Io));
}

#[test]
fn non_utf8_name_is_a_decode_error() {
    let mut stream = Vec::new();
    push_be_u64(&mut stream, 2);
    push_be_u64(&mut stream, 3);
    stream.extend_from_slice(&[0xff, 0xfe]);
    stream.extend_from_slice(b"xyz");
    assert!(matches!(decode_header(&stream), Err(TransferError::Decode)));
    assert!(matches!(receive(&stream, 4000), Err(TransferError::Decode)));
}

#[test]
fn decode_name_checks_utf8() {
    assert_eq!(decode_name(b"caf\xc3\xa9".to_vec()), Ok("café".to_string()));
    assert_eq!(decode_name(vec![0x80]), Err(TransferError::Decode));
    assert_eq!(decode_name(vec![0xed, 0xa0, 0x80]), Err(TransferError::Decode));
}

#[test]
fn truncated_headers_are_decode_errors() {
    let full = encode_header("photo.jpg", 7);
    assert!(matches!(decode_header(&full[..10]), Err(TransferError::Decode)));
    assert!(matches!(decode_header(&full[..20]), Err(TransferError::Decode)));
    assert_eq!(decode_prefix(&full[..15]), Err(TransferError::Decode));
    assert_eq!(decode_prefix(&full[..PREFIX_LEN]), Ok((9, 7)));
}

#[test]
fn utf8_name_length_counts_bytes() {
    let bytes = encode_header("ß.txt", 1);
    assert_eq!(read_be_u64(&bytes, 0), 6);
    assert_eq!(read_be_u64(&bytes, 8), 1);
    let (header, used) = decode_header(&bytes).unwrap();
    assert_eq!(header.name, "ß.txt");
    assert_eq!(used, 22);
}

#[test]
fn big_endian_fields() {
    let mut out = vec![0xaa];
    push_be_u64(&mut out, 0x0102_0304_0506_0708);
    assert_eq!(out, vec![0xaa, 1, 2, 3, 4, 5, 6, 7, 8]);
    assert_eq!(read_be_u64(&out, 1), 0x0102_0304_0506_0708);
    let mut max = Vec::new();
    push_be_u64(&mut max, u64::MAX);
    assert_eq!(max, vec![0xff; 8]);
    assert_eq!(read_be_u64(&max, 0), u64::MAX);
}
