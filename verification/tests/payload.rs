use std::io::Write;

use esm_terrain::esm::payload::check_inflated;
use esm_terrain::esm::{ByteReader, EsmError, RecordHeader};
use flate2::write::ZlibEncoder;
use flate2::Compression;

fn deflate(data: &[u8]) -> Vec<u8> {
    let mut encoder = ZlibEncoder::new(Vec::new(), Compression::default());
    encoder.write_all(data).unwrap();
    encoder.finish().unwrap()
}

fn header(data_size: u32, flags: u32) -> RecordHeader {
    RecordHeader {
        ty: *b"CELL",
        data_size,
        flags,
        id: 1,
        timestamp: Some(0),
        version_control: 0,
        internal_version: Some(0),
        misc: Some(0),
    }
}

fn packed(declared: u32, stream: &[u8]) -> Vec<u8> {
    let mut bytes = declared.to_le_bytes().to_vec();
    bytes.extend_from_slice(stream);
    bytes
}

#[test]
fn a_raw_payload_is_handed_on_as_it_is() {
    let mut reader = ByteReader::new(vec![1, 2, 3, 4, 5, 6]);
    let payload = header(4, 0).read_payload(&mut reader);
    assert_eq!(payload, Ok(vec![1, 2, 3, 4]));
    assert_eq!(reader.position(), 4);
}

#[test]
fn an_empty_raw_payload_is_empty() {
    let mut reader = ByteReader::new(Vec::new());
    assert_eq!(header(0, 0).read_payload(&mut reader), Ok(Vec::new()));
    assert_eq!(reader.position(), 0);
}

#[test]
fn a_compressed_payload_is_inflated_to_its_declared_length() {
    let plain: Vec<u8> = (0..2000u32).map(|i| (i % 7) as u8).collect();
    let stream = deflate(&plain);
    assert_ne!(stream, plain);
    let mut bytes = packed(2000, &stream);
    let size = bytes.len() as u32;
    bytes.extend_from_slice(b"rest");
    let mut reader = ByteReader::new(bytes);
    let payload = header(size, 0x0004_0000).read_payload(&mut reader).unwrap();
    assert_eq!(payload.len(), 2000);
    assert_eq!(payload, plain);
    assert_eq!(reader.position(), u64::from(size));
}

#[test]
fn a_declared_length_that_is_too_small_is_an_error() {
    let stream = deflate(b"twelve bytes");
    let bytes = packed(11, &stream);
    let size = bytes.len() as u32;
    let mut reader = ByteReader::new(bytes);
    assert_eq!(header(size, 0x0004_0000).read_payload(&mut reader), Err(EsmError::Decompress));
    assert_eq!(reader.position(), u64::from(size));
}

#[test]
fn a_declared_length_that_is_too_large_is_an_error() {
    let stream = deflate(b"twelve bytes");
    let bytes = packed(13, &stream);
    let size = bytes.len() as u32;
    let mut reader = ByteReader::new(bytes);
    assert_eq!(header(size, 0x0004_0000).read_payload(&mut reader), Err(EsmError::Decompress));
}

#[test]
fn a_malformed_stream_is_an_error() {
    let bytes = packed(4, &[0xde, 0xad, 0xbe, 0xef, 0x00]);
    let size = bytes.len() as u32;
    let mut reader = ByteReader::new(bytes);
    assert_eq!(header(size, 0x0004_0000).read_payload(&mut reader), Err(EsmError::Decompress));
}

#[test]
fn a_stream_that_is_cut_short_is_an_error() {
    let plain = vec![7u8; 500];
    let mut stream = deflate(&plain);
    stream.truncate(stream.len() - 4);
    let bytes = packed(500, &stream);
    let size = bytes.len() as u32;
    let mut reader = ByteReader::new(bytes);
    assert_eq!(header(size, 0x0004_0000).read_payload(&mut reader), Err(EsmError::Decompress));
}

#[test]
fn a_compressed_payload_without_room_for_its_length_is_truncated() {
    let mut reader = ByteReader::new(vec![1, 2, 3, 4]);
    assert_eq!(header(3, 0x0004_0000).read_payload(&mut reader), Err(EsmError::Truncated));
    assert_eq!(reader.position(), 0);
}

#[test]
fn a_payload_beyond_the_stream_is_truncated() {
    let mut reader = ByteReader::new(vec![1, 2, 3, 4]);
    assert_eq!(header(5, 0).read_payload(&mut reader), Err(EsmError::Truncated));
    assert_eq!(reader.position(), 0);
    let stream = deflate(b"abc");
    let bytes = packed(3, &stream);
    let size = bytes.len() as u32;
    let mut reader = ByteReader::new(bytes);
    assert_eq!(header(size + 1, 0x0004_0000).read_payload(&mut reader), Err(EsmError::Truncated));
    assert_eq!(reader.position(), 0);
}

#[test]
fn the_outcome_of_inflating_is_held_against_the_declared_length() {
    assert_eq!(check_inflated(Some(vec![1, 2, 3]), 3), Ok(vec![1, 2, 3]));
    assert_eq!(check_inflated(Some(Vec::new()), 0), Ok(Vec::new()));
    assert_eq!(check_inflated(Some(vec![1, 2, 3]), 2), Err(EsmError::Decompress));
    assert_eq!(check_inflated(Some(vec![1, 2, 3]), 4), Err(EsmError::Decompress));
    assert_eq!(check_inflated(None, 0), Err(EsmError::Decompress));
}
