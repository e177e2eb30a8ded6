use vstd::prelude::*;

use crate::bytes::{append_slice, be_u32, lemma_be_u32_prefix, read_be_u32};
use crate::chunk::{
    chunk_bytes, chunk_view_wf, lemma_chunk_bytes_len, lemma_chunk_round_trip, parse_chunk_spec, Chunk, ChunkView,
    ENVELOPE_LEN,
};
use crate::chunk_type::{spec_is_valid, tag_text};
use crate::error::PngError;

verus! {

/// Length of the file signature.
pub const HEADER_LEN: usize = 8;

/// The eight bytes every PNG file starts with.
pub open spec fn png_signature() -> Seq<u8> {
    seq![137u8, 80u8, 78u8, 71u8, 13u8, 10u8, 26u8, 10u8]
}

/// The encoding of a sequence of chunks, one after the other.
pub open spec fn chunks_bytes(cs: Seq<ChunkView>) -> Seq<u8>
    decreases cs.len(),
{
    if cs.len() == 0 {
        Seq::empty()
    } else {
        chunk_bytes(cs[0]) + chunks_bytes(cs.drop_first())
    }
}

/// The encoding of a file: the signature, then its chunks.
pub open spec fn png_bytes(cs: Seq<ChunkView>) -> Seq<u8> {
    png_signature() + chunks_bytes(cs)
}

/// The chunks that `b` holds, read until fewer than four bytes are left, or why
/// they cannot be read.
pub open spec fn parse_chunks_spec(b: Seq<u8>) -> Result<Seq<ChunkView>, PngError>
    decreases b.len(),
{
    if b.len() < 4 {
        Ok(Seq::empty())
    } else if b.len() < ENVELOPE_LEN + be_u32(b) {
        Err(PngError::TooShort)
    } else {
        let span = ENVELOPE_LEN + be_u32(b);
        match parse_chunk_spec(b.subrange(0, span)) {
            Err(e) => Err(e),
            Ok(c) => match parse_chunks_spec(b.subrange(span, b.len() as int)) {
                Err(e) => Err(e),
                Ok(cs) => Ok(seq![c] + cs),
            },
        }
    }
}

/// The chunks of the file `b`, or why it cannot be read.
pub open spec fn parse_png_spec(b: Seq<u8>) -> Result<Seq<ChunkView>, PngError> {
    if b.len() < HEADER_LEN {
        Err(PngError::TooShort)
    } else if b.subrange(0, HEADER_LEN as int) != png_signature() {
        Err(PngError::BadMagic)
    } else {
        parse_chunks_spec(b.subrange(HEADER_LEN as int, b.len() as int))
    }
}

/// Whether the type of `c` reads as the text `s`.
pub open spec fn type_is(c: ChunkView, s: Seq<char>) -> bool {
    tag_text(c.chunk_type) == s
}

/// No chunk before position `n` has type `s`.
pub open spec fn none_before(cs: Seq<ChunkView>, s: Seq<char>, n: int) -> bool {
    forall|j: int| 0 <= j < n ==> !type_is(#[trigger] cs[j], s)
}

/// Position `i` holds the first chunk of type `s`.
pub open spec fn is_first_match(cs: Seq<ChunkView>, s: Seq<char>, i: int) -> bool {
    0 <= i < cs.len() && type_is(cs[i], s) && none_before(cs, s, i)
}

spec fn with_prefix(acc: Seq<ChunkView>, r: Result<Seq<ChunkView>, PngError>) -> Result<
    Seq<ChunkView>,
    PngError,
> {
    match r {
        Ok(cs) => Ok(acc + cs),
        Err(e) => Err(e),
    }
}

/// Encoding one more chunk appends its bytes.
pub proof fn lemma_chunks_bytes_push(cs: Seq<ChunkView>, c: ChunkView)
    ensures
        chunks_bytes(cs.push(c)) == chunks_bytes(cs) + chunk_bytes(c),
    decreases cs.len(),
{
    if cs.len() == 0 {
        assert(cs.push(c).drop_first() =~= Seq::<ChunkView>::empty());
        assert(chunks_bytes(cs.push(c).drop_first()) == Seq::<u8>::empty());
        assert(chunks_bytes(cs) == Seq::<u8>::empty());
        assert(chunks_bytes(cs.push(c)) =~= chunks_bytes(cs) + chunk_bytes(c));
    } else {
        assert(cs.push(c).drop_first() =~= cs.drop_first().push(c));
        lemma_chunks_bytes_push(cs.drop_first(), c);
        assert(chunks_bytes(cs.push(c)) =~= chunks_bytes(cs) + chunk_bytes(c));
    }
}

/// Splitting an encoding after its first chunk.
proof fn lemma_split_first(cb: Seq<u8>, tail: Seq<u8>)
    requires
        cb.len() >= 4,
    ensures
        be_u32(cb + tail) == be_u32(cb),
        (cb + tail).subrange(0, cb.len() as int) == cb,
        (cb + tail).subrange(cb.len() as int, (cb + tail).len() as int) == tail,
{
    let b = cb + tail;
    lemma_be_u32_prefix(b);
    lemma_be_u32_prefix(cb);
    assert(b.subrange(0, 4) =~= cb.subrange(0, 4));
    assert(b.subrange(0, cb.len() as int) =~= cb);
    assert(b.subrange(cb.len() as int, b.len() as int) =~= tail);
}

/// Reading the chunks of `b` reads its first chunk, then the rest.
proof fn lemma_parse_chunks_step(b: Seq<u8>, c: ChunkView)
    requires
        b.len() >= 4,
        ENVELOPE_LEN + be_u32(b) <= b.len(),
        parse_chunk_spec(b.subrange(0, ENVELOPE_LEN + be_u32(b))) == Ok::<ChunkView, PngError>(c),
    ensures
        parse_chunks_spec(b) == with_prefix(
            seq![c],
            parse_chunks_spec(b.subrange(ENVELOPE_LEN + be_u32(b), b.len() as int)),
        ),
{
}

/// Encoding well-formed chunks with valid types and parsing the bytes gives the chunks back.
pub proof fn lemma_chunks_round_trip(cs: Seq<ChunkView>)
    requires
        forall|i: int|
            0 <= i < cs.len() ==> chunk_view_wf(#[trigger] cs[i]) && spec_is_valid(
                cs[i].chunk_type,
            ),
    ensures
        parse_chunks_spec(chunks_bytes(cs)) == Ok::<Seq<ChunkView>, PngError>(cs),
    decreases cs.len(),
{
    let b = chunks_bytes(cs);
    if cs.len() == 0 {
        assert(cs =~= Seq::<ChunkView>::empty());
    } else {
        let c = cs[0];
        let cb = chunk_bytes(c);
        let rest = cs.drop_first();
        assert(chunk_view_wf(c) && spec_is_valid(c.chunk_type));
        lemma_chunk_round_trip(c);
        lemma_chunk_bytes_len(c);
        assert(b == cb + chunks_bytes(rest));
        lemma_split_first(cb, chunks_bytes(rest));
        lemma_parse_chunks_step(b, c);
        assert forall|i: int| 0 <= i < rest.len() implies chunk_view_wf(#[trigger] rest[i])
            && spec_is_valid(rest[i].chunk_type) by {
            assert(rest[i] == cs[i + 1]);
        }
        lemma_chunks_round_trip(rest);
        assert(seq![c] + rest =~= cs);
    }
}

/// Encoding a file of well-formed chunks with valid types and parsing the
/// bytes gives the same chunks, in the same order.
pub proof fn lemma_png_round_trip(cs: Seq<ChunkView>)
    requires
        forall|i: int|
            0 <= i < cs.len() ==> chunk_view_wf(#[trigger] cs[i]) && spec_is_valid(
                cs[i].chunk_type,
            ),
    ensures
        parse_png_spec(png_bytes(cs)) == Ok::<Seq<ChunkView>, PngError>(cs),
{
    let b = png_bytes(cs);
    assert(b.subrange(0, HEADER_LEN as int) =~= png_signature());
    assert(b.subrange(HEADER_LEN as int, b.len() as int) =~= chunks_bytes(cs));
    lemma_chunks_round_trip(cs);
}

/// A file whose first eight bytes are not the signature is refused as such.
pub proof fn lemma_bad_signature(b: Seq<u8>)
    requires
        b.len() >= HEADER_LEN,
        b.subrange(0, HEADER_LEN as int) != png_signature(),
    ensures
        parse_png_spec(b) == Err::<Seq<ChunkView>, PngError>(PngError::BadMagic),
{
}

/// In a file with no chunk of type `s`, a chunk of that type once appended is
/// the first of its type, and removing the first chunk of type `s` then leaves
/// the file as it was, with no chunk of that type.
pub proof fn lemma_append_then_remove(cs: Seq<ChunkView>, c: ChunkView, s: Seq<char>)
    requires
        type_is(c, s),
        none_before(cs, s, cs.len() as int),
    ensures
        is_first_match(cs.push(c), s, cs.len() as int),
        forall|i: int| is_first_match(cs.push(c), s, i) ==> i == cs.len(),
        cs.push(c).remove(cs.len() as int) == cs,
{
    let p = cs.push(c);
    assert(forall|j: int| 0 <= j < cs.len() ==> p[j] == cs[j]);
    assert(p.remove(cs.len() as int) =~= cs);
}

/// A PNG-style file: the signature, then a sequence of chunks.
#[derive(Debug)]
pub struct Png {
    chunks: Vec<Chunk>,
}

impl View for Png {
    type V = Seq<ChunkView>;

    closed spec fn view(&self) -> Seq<ChunkView> {
        self.chunks@.map_values(|c: Chunk| c@)
    }
}

impl Png {
    /// The eight bytes every PNG file starts with.
    pub const STANDARD_HEADER: [u8; 8] = [137, 80, 78, 71, 13, 10, 26, 10];

    /// The signature, under the name that earlier callers use.
    pub const STANDAR_HEADER: [u8; 8] = [137, 80, 78, 71, 13, 10, 26, 10];

    /// Length of the signature.
    pub const STD_HEADER_LENGTH: usize = 8;

    /// What every file satisfies: each of its chunks is well formed.
    pub fn well_formed(&self)
        ensures
            forall|i: int| 0 <= i < self@.len() ==> chunk_view_wf(#[trigger] self@[i]),
    {
        let mut i: usize = 0;
        while i < self.chunks.len()
            invariant
                0 <= i <= self.chunks@.len(),
                self@.len() == self.chunks@.len(),
                forall|j: int| 0 <= j < i ==> chunk_view_wf(#[trigger] self@[j]),
            decreases self.chunks@.len() - i,
        {
            self.chunks[i].well_formed();
            assert(self@[i as int] == self.chunks@[i as int]@);
            i += 1;
        }
    }

    /// Reads a file: the signature, then chunks until fewer than four bytes are left.
    pub fn parse(bytes: &[u8]) -> (r: Result<Png, PngError>)
        ensures
            match r {
                Ok(p) => parse_png_spec(bytes@) == Ok::<Seq<ChunkView>, PngError>(p@),
                Err(e) => parse_png_spec(bytes@) == Err::<Seq<ChunkView>, PngError>(e),
            },
    {
        if bytes.len() < HEADER_LEN {
            return Err(PngError::TooShort);
        }
        let mut k: usize = 0;
        while k < HEADER_LEN
            invariant
                0 <= k <= HEADER_LEN,
                bytes@.len() >= HEADER_LEN,
                forall|j: int| 0 <= j < k ==> bytes@[j] == #[trigger] png_signature()[j],
            decreases HEADER_LEN - k,
        {
            let expected: [u8; 8] = Png::STANDARD_HEADER;
            assert(expected@ =~= png_signature());
            if bytes[k] != expected[k] {
                assert(bytes@.subrange(0, HEADER_LEN as int)[k as int] != png_signature()[k as int]);
                return Err(PngError::BadMagic);
            }
            k += 1;
        }
        assert(bytes@.subrange(0, HEADER_LEN as int) =~= png_signature());
        let ghost all = bytes@.subrange(HEADER_LEN as int, bytes@.len() as int);
        let mut chunks: Vec<Chunk> = Vec::new();
        let mut pos: usize = HEADER_LEN;
        assert(bytes@.subrange(pos as int, bytes@.len() as int) =~= all);
        assert(chunks@.map_values(|c: Chunk| c@) =~= Seq::<ChunkView>::empty());
        assert(Seq::<ChunkView>::empty() + parse_chunks_spec(all)->Ok_0 =~= parse_chunks_spec(
            all,
        )->Ok_0);
        while bytes.len() - pos >= 4
            invariant
                HEADER_LEN <= pos <= bytes@.len(),
                all == bytes@.subrange(HEADER_LEN as int, bytes@.len() as int),
                bytes@.subrange(0, HEADER_LEN as int) == png_signature(),
                parse_chunks_spec(all) == with_prefix(
                    chunks@.map_values(|c: Chunk| c@),
                    parse_chunks_spec(bytes@.subrange(pos as int, bytes@.len() as int)),
                ),
            decreases bytes@.len() - pos,
        {
            let ghost rest = bytes@.subrange(pos as int, bytes@.len() as int);
            let len = read_be_u32(bytes, pos);
            proof {
                lemma_be_u32_prefix(rest);
                assert(rest.subrange(0, 4) =~= bytes@.subrange(pos as int, pos + 4));
            }
            if bytes.len() - pos < ENVELOPE_LEN || bytes.len() - pos - ENVELOPE_LEN < len as usize {
                assert(parse_chunks_spec(rest) == Err::<Seq<ChunkView>, PngError>(
                    PngError::TooShort,
                ));
                return Err(PngError::TooShort);
            }
            let span: usize = ENVELOPE_LEN + len as usize;
            let piece = vstd::slice::slice_subrange(bytes, pos, pos + span);
            assert(piece@ =~= rest.subrange(0, span as int));
            let chunk = match Chunk::parse(piece) {
                Ok(c) => c,
                Err(e) => {
                    assert(parse_chunks_spec(rest) == Err::<Seq<ChunkView>, PngError>(e));
                    return Err(e);
                },
            };
            let ghost before = chunks@.map_values(|c: Chunk| c@);
            chunks.push(chunk);
            assert(chunks@.map_values(|c: Chunk| c@) =~= before.push(chunk@));
            assert(rest.subrange(span as int, rest.len() as int) =~= bytes@.subrange(
                pos + span,
                bytes@.len() as int,
            ));
            pos = pos + span;
            proof {
                let tail = parse_chunks_spec(bytes@.subrange(pos as int, bytes@.len() as int));
                if let Ok(cs) = tail {
                    assert(before + (seq![chunk@] + cs) =~= before.push(chunk@) + cs);
                }
            }
        }
        assert(chunks@.map_values(|c: Chunk| c@) + Seq::<ChunkView>::empty() =~= chunks@.map_values(
            |c: Chunk| c@,
        ));
        Ok(Png { chunks })
    }

    /// Position of the first chunk whose type reads as `chunk_type`.
    fn position(&self, chunk_type: &str) -> (r: Option<usize>)
        ensures
            match r {
                Some(i) => is_first_match(self@, chunk_type@, i as int),
                None => none_before(self@, chunk_type@, self@.len() as int),
            },
    {
        let mut i: usize = 0;
        while i < self.chunks.len()
            invariant
                0 <= i <= self.chunks@.len(),
                self@.len() == self.chunks@.len(),
                none_before(self@, chunk_type@, i as int),
            decreases self.chunks@.len() - i,
        {
            assert(self@[i as int] == self.chunks@[i as int]@);
            if self.chunks[i].chunk_type().matches_str(chunk_type) {
                return Some(i);
            }
            i += 1;
        }
        None
    }

    /// The first chunk whose type reads as `chunk_type`, if any.
    pub fn chunk_by_type(&self, chunk_type: &str) -> (r: Option<&Chunk>)
        ensures
            match r {
                Some(c) => exists|i: int|
                    is_first_match(self@, chunk_type@, i) && c@ == #[trigger] self@[i],
                None => none_before(self@, chunk_type@, self@.len() as int),
            },
    {
        match self.position(chunk_type) {
            Some(i) => {
                assert(self@[i as int] == self.chunks@[i as int]@);
                Some(&self.chunks[i])
            },
            None => None,
        }
    }

    /// Adds `chunk` after the last chunk.
    pub fn append_chunk(&mut self, chunk: Chunk)
        ensures
            final(self)@ == old(self)@.push(chunk@),
    {
        self.chunks.push(chunk);
        assert(self@ =~= old(self)@.push(chunk@));
    }

    /// Removes the first chunk whose type reads as `chunk_type` and returns it.
    pub fn remove_chunk(&mut self, chunk_type: &str) -> (r: Result<Chunk, PngError>)
        ensures
            match r {
                Ok(c) => exists|i: int|
                    is_first_match(old(self)@, chunk_type@, i) && c@ == #[trigger] old(self)@[i]
                        && final(self)@ == old(self)@.remove(i),
                Err(e) => e == PngError::NotFound && none_before(
                    old(self)@,
                    chunk_type@,
                    old(self)@.len() as int,
                ) && final(self)@ == old(self)@,
            },
    {
        match self.position(chunk_type) {
            Some(i) => {
                let c = self.chunks.remove(i);
                assert(self@ =~= old(self)@.remove(i as int));
                assert(c@ == old(self)@[i as int]);
                Ok(c)
            },
            None => Err(PngError::NotFound),
        }
    }

    /// The chunks, in file order.
    pub fn chunks(&self) -> (r: &[Chunk])
        ensures
            r@.map_values(|c: Chunk| c@) == self@,
    {
        self.chunks.as_slice()
    }

    /// The encoding of the file: the signature, then each chunk in order.
    pub fn as_bytes(&self) -> (r: Vec<u8>)
        ensures
            r@ == png_bytes(self@),
    {
        let header: [u8; 8] = Png::STANDARD_HEADER;
        assert(header@ =~= png_signature());
        let mut out: Vec<u8> = Vec::new();
        append_slice(&mut out, header.as_slice());
        let mut i: usize = 0;
        assert(self@.take(0) =~= Seq::<ChunkView>::empty());
        assert(out@ =~= png_signature() + chunks_bytes(self@.take(0)));
        while i < self.chunks.len()
            invariant
                0 <= i <= self.chunks@.len(),
                self@.len() == self.chunks@.len(),
                out@ == png_signature() + chunks_bytes(self@.take(i as int)),
            decreases self.chunks@.len() - i,
        {
            let b = self.chunks[i].as_bytes();
            append_slice(&mut out, b.as_slice());
            proof {
                assert(self@.take(i + 1) =~= self@.take(i as int).push(self@[i as int]));
                lemma_chunks_bytes_push(self@.take(i as int), self@[i as int]);
            }
            i += 1;
        }
        assert(self@.take(i as int) =~= self@);
        out
    }
}

impl<'a> TryFrom<&'a [u8]> for Png {
    type Error = PngError;

    fn try_from(bytes: &'a [u8]) -> (r: Result<Png, PngError>)
        ensures
            match r {
                Ok(p) => parse_png_spec(bytes@) == Ok::<Seq<ChunkView>, PngError>(p@),
                Err(e) => parse_png_spec(bytes@) == Err::<Seq<ChunkView>, PngError>(e),
            },
    {
        Png::parse(bytes)
    }
}

/// The `ensures` of `try_from` above carries the contract of this conversion,
/// over the file's view; no spec-level `Png` value is named here.
impl<'a> vstd::std_specs::convert::TryFromSpecImpl<&'a [u8]> for Png {
    open spec fn obeys_try_from_spec() -> bool {
        false
    }

    closed spec fn try_from_spec(bytes: &'a [u8]) -> Result<Png, PngError> {
        arbitrary()
    }
}

} // verus!
