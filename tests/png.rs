use pngme::chunk::Chunk;
use pngme::chunk_type::ChunkType;
use pngme::error::PngError;
use pngme::png::Png;
use std::convert::TryFrom;

fn header() -> Vec<u8> {
    Png::STANDARD_HEADER.to_vec()
}

fn chunk(tag: &str, data: &[u8]) -> Chunk {
    Chunk::new(ChunkType::from_str(tag).unwrap(), data.to_vec())
}

#[test]
fn header_only_file_has_no_chunks() {
    let png = Png::parse(&header()).unwrap();
    assert_eq!(png.chunks().len(), 0);
    assert_eq!(png.as_bytes(), header());
}

#[test]
fn container_round_trip_keeps_order() {
    let mut png = Png::parse(&header()).unwrap();
    png.append_chunk(chunk("IHDR", b"one"));
    png.append_chunk(chunk("RuSt", b"two"));
    png.append_chunk(chunk("ruSt", b""));
    png.append_chunk(chunk("RuSt", b"four"));
    let bytes = png.as_bytes();
    let back = Png::try_from(bytes.as_slice()).unwrap();
    assert_eq!(back.chunks().len(), 4);
    let expected: Vec<(&str, &[u8])> =
        vec![("IHDR", b"one"), ("RuSt", b"two"), ("ruSt", b""), ("RuSt", b"four")];
    for (c, (tag, data)) in back.chunks().iter().zip(expected) {
        assert_eq!(c.chunk_type().to_string(), tag);
        assert_eq!(c.data(), data);
    }
    assert_eq!(back.as_bytes(), bytes);
}

#[test]
fn bad_magic_is_rejected() {
    for i in 0..8 {
        let mut bytes = header();
        bytes[i] = bytes[i].wrapping_add(1);
        assert_eq!(Png::parse(&bytes).unwrap_err(), PngError::BadMagic);
    }
}

#[test]
fn short_file_is_rejected() {
    assert_eq!(Png::parse(&header()[..7]).unwrap_err(), PngError::TooShort);
    assert_eq!(Png::parse(&[]).unwrap_err(), PngError::TooShort);
}

#[test]
fn truncated_chunk_is_rejected() {
    let mut png = Png::parse(&header()).unwrap();
    png.append_chunk(chunk("RuSt", b"hello"));
    let bytes = png.as_bytes();
    let cut = &bytes[..bytes.len() - 1];
    assert_eq!(Png::parse(cut).unwrap_err(), PngError::TooShort);
    // Four to eleven bytes left cannot hold a chunk.
    let mut odd = header();
    odd.extend_from_slice(&[0, 0, 0, 0, b'R']);
    assert_eq!(Png::parse(&odd).unwrap_err(), PngError::TooShort);
}

#[test]
fn fewer_than_four_trailing_bytes_end_the_file() {
    let mut png = Png::parse(&header()).unwrap();
    png.append_chunk(chunk("RuSt", b"hello"));
    let mut bytes = png.as_bytes();
    bytes.extend_from_slice(&[1, 2, 3]);
    let back = Png::parse(&bytes).unwrap();
    assert_eq!(back.chunks().len(), 1);
}

#[test]
fn bad_chunk_fails_the_whole_file() {
    let mut png = Png::parse(&header()).unwrap();
    png.append_chunk(chunk("RuSt", b"hello"));
    png.append_chunk(chunk("ruSt", b"world"));
    let mut bytes = png.as_bytes();
    let last = bytes.len() - 1;
    bytes[last] ^= 0xff;
    assert!(matches!(Png::parse(&bytes), Err(PngError::ChecksumMismatch { .. })));
}

#[test]
fn find_append_remove() {
    let mut png = Png::parse(&header()).unwrap();
    assert!(png.chunk_by_type("RuSt").is_none());
    png.append_chunk(chunk("RuSt", b"payload"));
    let found = png.chunk_by_type("RuSt").unwrap();
    assert_eq!(found.data(), b"payload");
    let removed = png.remove_chunk("RuSt").unwrap();
    assert_eq!(removed.data(), b"payload");
    assert!(png.chunk_by_type("RuSt").is_none());
    assert_eq!(png.remove_chunk("RuSt").unwrap_err(), PngError::NotFound);
}

#[test]
fn find_and_remove_take_the_first_match() {
    let mut png = Png::parse(&header()).unwrap();
    png.append_chunk(chunk("RuSt", b"first"));
    png.append_chunk(chunk("abCd", b"other"));
    png.append_chunk(chunk("RuSt", b"second"));
    assert_eq!(png.chunk_by_type("RuSt").unwrap().data(), b"first");
    assert_eq!(png.remove_chunk("RuSt").unwrap().data(), b"first");
    assert_eq!(png.chunks().len(), 2);
    assert_eq!(png.chunk_by_type("RuSt").unwrap().data(), b"second");
    assert_eq!(png.chunks()[0].data(), b"other");
}

#[test]
fn end_to_end_hidden_message() {
    let mut png = Png::parse(&header()).unwrap();
    png.append_chunk(chunk("ruSt", b"hello"));
    let bytes = png.as_bytes();
    let back = Png::parse(&bytes).unwrap();
    let found = back.chunk_by_type("ruSt").unwrap();
    assert_eq!(found.data_as_string().unwrap(), "hello");
}

#[test]
fn signature_constants_agree() {
    assert_eq!(Png::STANDAR_HEADER, Png::STANDARD_HEADER);
    assert_eq!(Png::STD_HEADER_LENGTH, Png::STANDARD_HEADER.len());
    assert_eq!(Png::try_from(&header()[..7]).unwrap_err(), PngError::TooShort);
}
