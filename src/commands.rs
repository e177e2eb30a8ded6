use vstd::prelude::*;

use crate::chunk::{crc32_of, Chunk, ChunkView};
use crate::chunk_type::{all_alpha, text_bytes, ChunkType};
use crate::error::PngError;
use crate::png::{is_first_match, none_before, parse_png_spec, png_bytes, Png};

verus! {

/// The chunk that hides `msg` under the type written `tag`.
pub open spec fn message_chunk(tag: Seq<char>, msg: Seq<u8>) -> ChunkView {
    ChunkView {
        chunk_type: text_bytes(tag),
        data: msg,
        crc: crc32_of(text_bytes(tag) + msg),
    }
}

/// The file `bytes` with a chunk of type `tag` holding `msg` added at its end,
/// or why that cannot be done.
pub open spec fn encode_spec(bytes: Seq<u8>, tag: Seq<char>, msg: Seq<u8>) -> Result<
    Seq<u8>,
    PngError,
> {
    if tag.len() != 4 {
        Err(PngError::InvalidLength)
    } else if !all_alpha(tag) {
        Err(PngError::InvalidCharacter)
    } else {
        match parse_png_spec(bytes) {
            Err(e) => Err(e),
            Ok(cs) => Ok(png_bytes(cs.push(message_chunk(tag, msg)))),
        }
    }
}

/// Adds a chunk of type `chunk_type` holding `message` to the end of the file
/// `bytes`, and returns the new file.
pub fn encode(bytes: &[u8], chunk_type: &str, message: &[u8]) -> (r: Result<Vec<u8>, PngError>)
    requires
        message@.len() <= u32::MAX,
    ensures
        match r {
            Ok(out) => encode_spec(bytes@, chunk_type@, message@) == Ok::<Seq<u8>, PngError>(
                out@,
            ),
            Err(e) => encode_spec(bytes@, chunk_type@, message@) == Err::<Seq<u8>, PngError>(e),
        },
{
    let t = match ChunkType::from_str(chunk_type) {
        Ok(t) => t,
        Err(e) => {
            return Err(e);
        },
    };
    let mut png = match Png::parse(bytes) {
        Ok(p) => p,
        Err(e) => {
            return Err(e);
        },
    };
    let chunk = Chunk::new(t, vstd::slice::slice_to_vec(message));
    png.append_chunk(chunk);
    Ok(png.as_bytes())
}

/// The data of the first chunk of type `chunk_type` in the file `bytes`, if
/// there is one.
pub fn decode(bytes: &[u8], chunk_type: &str) -> (r: Result<Option<Vec<u8>>, PngError>)
    ensures
        match r {
            Ok(Some(d)) => parse_png_spec(bytes@) matches Ok(cs) && (exists|i: int|
                #[trigger] is_first_match(cs, chunk_type@, i) && d@ == cs[i].data),
            Ok(None) => parse_png_spec(bytes@) matches Ok(cs) && none_before(
                cs,
                chunk_type@,
                cs.len() as int,
            ),
            Err(e) => parse_png_spec(bytes@) == Err::<Seq<ChunkView>, PngError>(e),
        },
{
    let png = match Png::parse(bytes) {
        Ok(p) => p,
        Err(e) => {
            return Err(e);
        },
    };
    match png.chunk_by_type(chunk_type) {
        Some(c) => {
            let d = vstd::slice::slice_to_vec(c.data());
            proof {
                let i = choose|i: int| is_first_match(png@, chunk_type@, i) && c@ == png@[i];
                assert(is_first_match(png@, chunk_type@, i) && d@ == png@[i].data);
                assert(parse_png_spec(bytes@) matches Ok(cs) && cs == png@);
            }
            Ok(Some(d))
        },
        None => Ok(None),
    }
}

/// Removes the first chunk of type `chunk_type` from the file `bytes`, and
/// returns the new file.
pub fn remove(bytes: &[u8], chunk_type: &str) -> (r: Result<Vec<u8>, PngError>)
    ensures
        match r {
            Ok(out) => parse_png_spec(bytes@) matches Ok(cs) && (exists|i: int|
                #[trigger] is_first_match(cs, chunk_type@, i) && out@ == png_bytes(cs.remove(i))),
            Err(e) => match parse_png_spec(bytes@) {
                Err(pe) => e == pe,
                Ok(cs) => e == PngError::NotFound && none_before(cs, chunk_type@, cs.len() as int),
            },
        },
{
    let mut png = match Png::parse(bytes) {
        Ok(p) => p,
        Err(e) => {
            return Err(e);
        },
    };
    let ghost before = png@;
    match png.remove_chunk(chunk_type) {
        Ok(_) => {
            let out = png.as_bytes();
            proof {
                let i = choose|i: int|
                    is_first_match(before, chunk_type@, i) && png@ == before.remove(i);
                assert(is_first_match(before, chunk_type@, i) && out@ == png_bytes(before.remove(i)));
                assert(parse_png_spec(bytes@) matches Ok(cs) && cs == before);
            }
            Ok(out)
        },
        Err(e) => Err(e),
    }
}

} // verus!
