use pngme::chunk::Chunk;
use pngme::chunk_type::ChunkType;
use pngme::error::PngError;
use std::convert::TryFrom;
use std::str::FromStr;

fn testing_chunk() -> Chunk {
    let data_length: u32 = 42;
    let chunk_type = "RuSt".as_bytes();
    let message_bytes = "This is where your secret message will be!".as_bytes();
    let crc: u32 = 2882656334;

    let chunk_data: Vec<u8> = data_length
        .to_be_bytes()
        .iter()
        .chain(chunk_type.iter())
        .chain(message_bytes.iter())
        .chain(crc.to_be_bytes().iter())
        .copied()
        .collect();

    Chunk::try_from(chunk_data.as_ref()).unwrap()
}

fn encoded(len: u32, chunk_type: &[u8], data: &[u8], crc: u32) -> Vec<u8> {
    len.to_be_bytes()
        .iter()
        .chain(chunk_type.iter())
        .chain(data.iter())
        .chain(crc.to_be_bytes().iter())
        .copied()
        .collect()
}

#[test]
fn test_new_chunk() {
    let chunk_type = ChunkType::from_str("RuSt").unwrap();
    let data = "This is where your secret message will be!"
        .as_bytes()
        .to_vec();
    let chunk = Chunk::new(chunk_type, data);
    assert_eq!(chunk.length(), 42);
    assert_eq!(chunk.crc(), 2882656334);
}

#[test]
fn test_chunk_length() {
    let chunk = testing_chunk();
    assert_eq!(chunk.length(), 42);
}

#[test]
fn test_chunk_type() {
    let chunk = testing_chunk();
    assert_eq!(chunk.chunk_type().to_string(), String::from("RuSt"));
}

#[test]
fn test_chunk_string() {
    let chunk = testing_chunk();
    let chunk_string = chunk.data_as_string().unwrap();
    let expected_chunk_string = String::from("This is where your secret message will be!");
    assert_eq!(chunk_string, expected_chunk_string);
}

#[test]
fn test_chunk_crc() {
    let chunk = testing_chunk();
    assert_eq!(chunk.crc(), 2882656334);
}

#[test]
fn test_valid_chunk_from_bytes() {
    let data_length: u32 = 42;
    let chunk_type = "RuSt".as_bytes();
    let message_bytes = "This is where your secret message will be!".as_bytes();
    let crc: u32 = 2882656334;

    let chunk_data: Vec<u8> = data_length
        .to_be_bytes()
        .iter()
        .chain(chunk_type.iter())
        .chain(message_bytes.iter())
        .chain(crc.to_be_bytes().iter())
        .copied()
        .collect();

    let chunk = Chunk::try_from(chunk_data.as_ref()).unwrap();

    let chunk_string = chunk.data_as_string().unwrap();
    let expected_chunk_string = String::from("This is where your secret message will be!");

    assert_eq!(chunk.length(), 42);
    assert_eq!(chunk.chunk_type().to_string(), String::from("RuSt"));
    assert_eq!(chunk_string, expected_chunk_string);
    assert_eq!(chunk.crc(), 2882656334);
}

#[test]
fn test_invalid_chunk_from_bytes() {
    let data_length: u32 = 42;
    let chunk_type = "RuSt".as_bytes();
    let message_bytes = "This is where your secret message will be!".as_bytes();
    let crc: u32 = 2882656333;

    let chunk_data: Vec<u8> = data_length
        .to_be_bytes()
        .iter()
        .chain(chunk_type.iter())
        .chain(message_bytes.iter())
        .chain(crc.to_be_bytes().iter())
        .copied()
        .collect();

    let chunk = Chunk::try_from(chunk_data.as_ref());

    assert!(chunk.is_err());
}

#[test]
pub fn test_chunk_trait_impls() {
    let data_length: u32 = 42;
    let chunk_type = "RuSt".as_bytes();
    let message_bytes = "This is where your secret message will be!".as_bytes();
    let crc: u32 = 2882656334;

    let chunk_data: Vec<u8> = data_length
        .to_be_bytes()
        .iter()
        .chain(chunk_type.iter())
        .chain(message_bytes.iter())
        .chain(crc.to_be_bytes().iter())
        .copied()
        .collect();

    let _chunk: Chunk = TryFrom::try_from(chunk_data.as_ref()).unwrap();
}

#[test]
fn checksum_of_known_message() {
    let t = ChunkType::from_str("RuSt").unwrap();
    let c = Chunk::new(t, b"This is where your secret message will be!".to_vec());
    assert_eq!(c.crc(), 2882656334);
}

#[test]
fn checksum_of_empty_data() {
    // CRC-32 of the four bytes "IEND".
    let t = ChunkType::from_str("IEND").unwrap();
    let c = Chunk::new(t, Vec::new());
    assert_eq!(c.crc(), 0xAE42_6082);
    assert_eq!(c.length(), 0);
}

#[test]
fn new_then_parse_gives_same_chunk() {
    for (tag, data) in [("RuSt", b"hello".to_vec()), ("ruSt", Vec::new()), ("ABCd", vec![0u8, 255, 7])] {
        let c = Chunk::new(ChunkType::from_str(tag).unwrap(), data.clone());
        let bytes = c.as_bytes();
        assert_eq!(bytes.len(), 12 + data.len());
        let back = Chunk::parse(&bytes).unwrap();
        assert_eq!(back.length(), c.length());
        assert_eq!(back.chunk_type(), c.chunk_type());
        assert_eq!(back.data(), c.data());
        assert_eq!(back.crc(), c.crc());
        assert_eq!(back.as_bytes(), bytes);
    }
}

#[test]
fn as_bytes_layout() {
    let c = Chunk::new(ChunkType::from_str("RuSt").unwrap(), b"hi".to_vec());
    let bytes = c.as_bytes();
    assert_eq!(&bytes[0..4], &[0, 0, 0, 2]);
    assert_eq!(&bytes[4..8], b"RuSt");
    assert_eq!(&bytes[8..10], b"hi");
    assert_eq!(&bytes[10..14], &c.crc().to_be_bytes());
}

#[test]
fn tampered_crc_is_detected() {
    let c = Chunk::new(ChunkType::from_str("RuSt").unwrap(), b"secret".to_vec());
    let bytes = c.as_bytes();
    let n = bytes.len();
    for i in n - 4..n {
        let mut t = bytes.clone();
        t[i] ^= 0x01;
        match Chunk::parse(&t) {
            Err(PngError::ChecksumMismatch { expected, actual }) => {
                assert_eq!(actual, c.crc());
                assert_ne!(expected, actual);
            }
            other => panic!("unexpected {:?}", other),
        }
    }
}

#[test]
fn parse_too_short() {
    assert_eq!(Chunk::parse(&[0u8; 11]).unwrap_err(), PngError::TooShort);
    // The length field asks for more data than there is.
    let bytes = encoded(10, b"RuSt", b"abc", 0);
    assert_eq!(Chunk::parse(&bytes).unwrap_err(), PngError::TooShort);
}

#[test]
fn parse_rejects_invalid_type() {
    let c = Chunk::new(ChunkType::from_str("Rust").unwrap(), b"x".to_vec());
    assert_eq!(Chunk::parse(&c.as_bytes()).unwrap_err(), PngError::InvalidType);
    let bytes = encoded(0, &[b'R', 200, b'S', b't'], b"", 0);
    assert_eq!(Chunk::parse(&bytes).unwrap_err(), PngError::InvalidType);
}

#[test]
fn parse_rejects_bytes_after_the_crc() {
    let c = Chunk::new(ChunkType::from_str("RuSt").unwrap(), b"abc".to_vec());
    let mut bytes = c.as_bytes();
    bytes.extend_from_slice(&[1, 2, 3]);
    assert_eq!(Chunk::parse(&bytes).unwrap_err(), PngError::InvalidLength);
    assert_eq!(Chunk::try_from(bytes.as_slice()).unwrap_err(), PngError::InvalidLength);
}

#[test]
fn field_sizes() {
    assert_eq!(Chunk::CHUNK_TYPE_BYTES_LEN, 4);
    assert_eq!(Chunk::DATA_LEN_BYTES_LEN, 4);
    assert_eq!(Chunk::CRC_BYTES_LEN, 4);
}

#[test]
fn data_as_string_rejects_invalid_utf8() {
    let c = Chunk::new(ChunkType::from_str("RuSt").unwrap(), vec![0xff, 0xfe]);
    assert_eq!(c.data_as_string(), Err(PngError::NotUtf8));
    let c = Chunk::new(ChunkType::from_str("RuSt").unwrap(), "héllo".as_bytes().to_vec());
    assert_eq!(c.data_as_string().unwrap(), "héllo");
}
