use vstd::prelude::*;
use vstd::utf8::{decode_utf8, valid_utf8};

use crate::bytes::{
    append_slice, be_u32, lemma_be_u32_injective, lemma_be_u32_of_u32_be, push_be_u32,
    read_be_u32, string_from_utf8, u32_be,
};
use crate::chunk_type::{all_ascii, spec_is_valid, ChunkType};
use crate::error::PngError;

verus! {

/// The CRC-32 of a byte sequence, in the variant that PNG uses (ISO-HDLC:
/// reflected polynomial 0xEDB88320, initial value and final XOR all ones).
pub uninterp spec fn crc32_of(b: Seq<u8>) -> u32;

/// Relies on crc::Crc::<u32>::checksum under crc::CRC_32_ISO_HDLC: the checksum
/// is a function of the bytes alone.
#[verifier::external_body]
fn crc32(bytes: &[u8]) -> (r: u32)
    ensures
        r == crc32_of(bytes@),
{
    crc::Crc::<u32>::new(&crc::CRC_32_ISO_HDLC).checksum(bytes)
}

/// Bytes taken by the length field, the type field and the CRC field together.
pub const ENVELOPE_LEN: usize = 12;

/// What a chunk holds: its type bytes, its data and its CRC.
pub struct ChunkView {
    pub chunk_type: Seq<u8>,
    pub data: Seq<u8>,
    pub crc: u32,
}

/// A chunk as every `Chunk` value is: an ASCII type, data whose length fits
/// the 32-bit length field, and a CRC over the type and the data.
pub open spec fn chunk_view_wf(c: ChunkView) -> bool {
    &&& c.chunk_type.len() == 4
    &&& all_ascii(c.chunk_type)
    &&& c.data.len() <= u32::MAX
    &&& c.crc == crc32_of(c.chunk_type + c.data)
}

/// The encoding of a chunk: length, type, data and CRC, with both integers big-endian.
pub open spec fn chunk_bytes(c: ChunkView) -> Seq<u8> {
    u32_be(c.data.len() as u32) + c.chunk_type + c.data + u32_be(c.crc)
}

/// The chunk that `b` encodes, or why it encodes none. Its length field must
/// account for every byte of `b`.
pub open spec fn parse_chunk_spec(b: Seq<u8>) -> Result<ChunkView, PngError> {
    if b.len() < ENVELOPE_LEN || b.len() < ENVELOPE_LEN + be_u32(b) {
        Err(PngError::TooShort)
    } else if b.len() > ENVELOPE_LEN + be_u32(b) {
        Err(PngError::InvalidLength)
    } else {
        let len = be_u32(b) as int;
        let chunk_type = b.subrange(4, 8);
        let data = b.subrange(8, 8 + len);
        let stored = be_u32(b.subrange(8 + len, 12 + len));
        let actual = crc32_of(chunk_type + data);
        if !spec_is_valid(chunk_type) {
            Err(PngError::InvalidType)
        } else if stored != actual {
            Err(PngError::ChecksumMismatch { expected: stored, actual })
        } else {
            Ok(ChunkView { chunk_type, data, crc: stored })
        }
    }
}

/// A chunk of a PNG-style file.
#[derive(Debug)]
pub struct Chunk {
    chunk_type: ChunkType,
    data: Vec<u8>,
    crc: u32,
}

impl View for Chunk {
    type V = ChunkView;

    closed spec fn view(&self) -> ChunkView {
        ChunkView { chunk_type: self.chunk_type@, data: self.data@, crc: self.crc }
    }
}

/// Encoding a well-formed chunk with a valid type and parsing the bytes gives the chunk back.
pub proof fn lemma_chunk_round_trip(c: ChunkView)
    requires
        chunk_view_wf(c),
        spec_is_valid(c.chunk_type),
    ensures
        parse_chunk_spec(chunk_bytes(c)) == Ok::<ChunkView, PngError>(c),
{
    let b = chunk_bytes(c);
    let len = c.data.len() as int;
    lemma_be_u32_of_u32_be(c.data.len() as u32);
    lemma_be_u32_of_u32_be(c.crc);
    assert(b.subrange(0, 4) =~= u32_be(c.data.len() as u32));
    assert(be_u32(b) == be_u32(b.subrange(0, 4)));
    assert(b.subrange(4, 8) =~= c.chunk_type);
    assert(b.subrange(8, 8 + len) =~= c.data);
    assert(b.subrange(8 + len, 12 + len) =~= u32_be(c.crc));
}

/// The length field of an encoded chunk gives the size of the whole encoding.
pub proof fn lemma_chunk_bytes_len(c: ChunkView)
    requires
        c.chunk_type.len() == 4,
        c.data.len() <= u32::MAX,
    ensures
        chunk_bytes(c).len() >= ENVELOPE_LEN,
        chunk_bytes(c).len() == ENVELOPE_LEN + be_u32(chunk_bytes(c)),
{
    let b = chunk_bytes(c);
    lemma_be_u32_of_u32_be(c.data.len() as u32);
    assert(b.subrange(0, 4) =~= u32_be(c.data.len() as u32));
    assert(be_u32(b) == be_u32(b.subrange(0, 4)));
}

/// Changing any byte of the CRC field of an encoded chunk makes parsing fail
/// with a CRC mismatch, reporting the CRC of the untouched type and data.
pub proof fn lemma_crc_tamper_detected(c: ChunkView, i: int, x: u8)
    requires
        chunk_view_wf(c),
        spec_is_valid(c.chunk_type),
        0 <= i < 4,
        x != chunk_bytes(c)[8 + c.data.len() + i],
    ensures
        parse_chunk_spec(chunk_bytes(c).update(8 + c.data.len() + i, x)) matches Err(
            PngError::ChecksumMismatch { expected, actual },
        ) && expected != actual && actual == c.crc,
{
    let b = chunk_bytes(c);
    let t = b.update(8 + c.data.len() + i, x);
    let len = c.data.len() as int;
    lemma_be_u32_of_u32_be(c.data.len() as u32);
    lemma_be_u32_of_u32_be(c.crc);
    assert(t.subrange(0, 4) =~= u32_be(c.data.len() as u32));
    assert(be_u32(t) == be_u32(t.subrange(0, 4)));
    assert(t.subrange(4, 8) =~= c.chunk_type);
    assert(t.subrange(8, 8 + len) =~= c.data);
    assert(b.subrange(8 + len, 12 + len) =~= u32_be(c.crc));
    let stored = t.subrange(8 + len, 12 + len);
    assert(stored[i] == x);
    if be_u32(stored) == c.crc {
        lemma_be_u32_injective(stored, u32_be(c.crc));
        assert(stored[i] == b[8 + len + i]);
    }
}

impl Chunk {
    /// Bytes of the type field.
    pub const CHUNK_TYPE_BYTES_LEN: usize = 4;

    /// Bytes of the length field.
    pub const DATA_LEN_BYTES_LEN: usize = 4;

    /// Bytes of the CRC field.
    pub const CRC_BYTES_LEN: usize = 4;

    #[verifier::type_invariant]
    spec fn inv(&self) -> bool {
        chunk_view_wf(self@)
    }

    /// What every chunk satisfies.
    pub fn well_formed(&self)
        ensures
            chunk_view_wf(self@),
    {
        proof {
            use_type_invariant(self);
            use_type_invariant(&self.chunk_type);
            self.chunk_type.lemma_len();
        }
    }

    /// The CRC-32 over `chunk_type` followed by `data`.
    fn checksum_of(chunk_type: &ChunkType, data: &[u8]) -> (r: u32)
        ensures
            r == crc32_of(chunk_type@ + data@),
    {
        let tb = chunk_type.bytes();
        let mut buf: Vec<u8> = Vec::new();
        append_slice(&mut buf, tb.as_slice());
        append_slice(&mut buf, data);
        crc32(buf.as_slice())
    }

    /// Makes a chunk of the given type and data, with its CRC computed.
    pub fn new(chunk_type: ChunkType, data: Vec<u8>) -> (r: Chunk)
        requires
            data@.len() <= u32::MAX,
        ensures
            r@ == (ChunkView {
                chunk_type: chunk_type@,
                data: data@,
                crc: crc32_of(chunk_type@ + data@),
            }),
    {
        let crc = Chunk::checksum_of(&chunk_type, data.as_slice());
        proof {
            use_type_invariant(&chunk_type);
            chunk_type.lemma_len();
        }
        Chunk { chunk_type, data, crc }
    }

    /// Reads the chunk that `bytes` encodes, which must hold that one chunk and nothing else.
    pub fn parse(bytes: &[u8]) -> (r: Result<Chunk, PngError>)
        ensures
            match r {
                Ok(c) => parse_chunk_spec(bytes@) == Ok::<ChunkView, PngError>(c@),
                Err(e) => parse_chunk_spec(bytes@) == Err::<ChunkView, PngError>(e),
            },
    {
        if bytes.len() < ENVELOPE_LEN {
            return Err(PngError::TooShort);
        }
        let len = read_be_u32(bytes, 0);
        assert(be_u32(bytes@) == be_u32(bytes@.subrange(0, 4)));
        if bytes.len() - ENVELOPE_LEN < len as usize {
            return Err(PngError::TooShort);
        }
        if bytes.len() - ENVELOPE_LEN > len as usize {
            return Err(PngError::InvalidLength);
        }
        let len = len as usize;
        let tb: [u8; 4] = [bytes[4], bytes[5], bytes[6], bytes[7]];
        assert(tb@ =~= bytes@.subrange(4, 8));
        let chunk_type = match ChunkType::from_bytes(tb) {
            Ok(t) => t,
            Err(_) => {
                return Err(PngError::InvalidType);
            },
        };
        if !chunk_type.is_valid() {
            return Err(PngError::InvalidType);
        }
        let data = vstd::slice::slice_to_vec(vstd::slice::slice_subrange(bytes, 8, 8 + len));
        let stored = read_be_u32(bytes, 8 + len);
        let actual = Chunk::checksum_of(&chunk_type, data.as_slice());
        if stored != actual {
            return Err(PngError::ChecksumMismatch { expected: stored, actual });
        }
        proof {
            use_type_invariant(&chunk_type);
            chunk_type.lemma_len();
        }
        Ok(Chunk { chunk_type, data, crc: stored })
    }

    /// The CRC-32 over the type and the data, computed anew.
    pub fn crc(&self) -> (r: u32)
        ensures
            r == crc32_of(self@.chunk_type + self@.data),
            r == self@.crc,
    {
        proof {
            use_type_invariant(self);
        }
        Chunk::checksum_of(&self.chunk_type, self.data.as_slice())
    }

    /// The number of data bytes.
    pub fn length(&self) -> (r: u32)
        ensures
            r == self@.data.len(),
    {
        proof {
            use_type_invariant(self);
        }
        self.data.len() as u32
    }

    pub fn chunk_type(&self) -> (r: &ChunkType)
        ensures
            r@ == self@.chunk_type,
    {
        &self.chunk_type
    }

    pub fn data(&self) -> (r: &[u8])
        ensures
            r@ == self@.data,
    {
        self.data.as_slice()
    }

    /// The data read as UTF-8 text.
    pub fn data_as_string(&self) -> (r: Result<String, PngError>)
        ensures
            valid_utf8(self@.data) ==> (r matches Ok(s) && s@ == decode_utf8(self@.data)),
            !valid_utf8(self@.data) ==> r == Err::<String, PngError>(PngError::NotUtf8),
    {
        match string_from_utf8(self.data.clone()) {
            Some(s) => Ok(s),
            None => Err(PngError::NotUtf8),
        }
    }

    /// The encoding of the chunk: length, type, data and CRC.
    pub fn as_bytes(&self) -> (r: Vec<u8>)
        ensures
            r@ == chunk_bytes(self@),
    {
        proof {
            use_type_invariant(self);
        }
        let mut out: Vec<u8> = Vec::new();
        push_be_u32(&mut out, self.data.len() as u32);
        let tb = self.chunk_type.bytes();
        append_slice(&mut out, tb.as_slice());
        append_slice(&mut out, self.data.as_slice());
        push_be_u32(&mut out, self.crc);
        out
    }
}

impl<'a> TryFrom<&'a [u8]> for Chunk {
    type Error = PngError;

    fn try_from(bytes: &'a [u8]) -> (r: Result<Chunk, PngError>)
        ensures
            match r {
                Ok(c) => parse_chunk_spec(bytes@) == Ok::<ChunkView, PngError>(c@),
                Err(e) => parse_chunk_spec(bytes@) == Err::<ChunkView, PngError>(e),
            },
    {
        Chunk::parse(bytes)
    }
}

/// The `ensures` of `try_from` above carries the contract of this conversion,
/// over the chunk's view; no spec-level `Chunk` value is named here.
impl<'a> vstd::std_specs::convert::TryFromSpecImpl<&'a [u8]> for Chunk {
    open spec fn obeys_try_from_spec() -> bool {
        false
    }

    closed spec fn try_from_spec(bytes: &'a [u8]) -> Result<Chunk, PngError> {
        arbitrary()
    }
}

} // verus!
