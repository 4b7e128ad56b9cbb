//! Chunks: a length, a type, a payload and the CRC of type and payload.
use vstd::prelude::*;

use crate::chunk_type::{ChunkType, type_is_valid, lemma_chunk_type_len};
use crate::codec::{
    be32, crc32, crc32_iso_hdlc, decimal, decimal_text, from_be32, lemma_be32_round_trip, lossy_text,
    push_all, push_be32, read_be32, utf8_lossy,
};
use vstd::string::StringExecFns;
use crate::error::PngError;

verus! {

broadcast use {crate::codec::lemma_be32_len, lemma_chunk_type_len};

/// What a chunk holds, as plain values.
pub struct ChunkView {
    pub length: u32,
    pub chunk_type: Seq<u8>,
    pub data: Seq<u8>,
    pub crc: u32,
}

impl ChunkView {
    /// The length is the payload's and the CRC is that of type and payload.
    pub open spec fn wf(self) -> bool {
        &&& self.chunk_type.len() == 4
        &&& self.data.len() == self.length as nat
        &&& self.crc == crc32_iso_hdlc(self.chunk_type + self.data)
    }

    /// Big-endian length, type, payload, big-endian CRC.
    pub open spec fn serialize(self) -> Seq<u8> {
        be32(self.length) + self.chunk_type + self.data + be32(self.crc)
    }
}

/// The chunk that holds `data` under type `t`.
pub open spec fn chunk_of(t: Seq<u8>, data: Seq<u8>) -> ChunkView {
    ChunkView { length: data.len() as u32, chunk_type: t, data, crc: crc32_iso_hdlc(t + data) }
}

/// The length field of the chunk bytes `b`.
pub open spec fn stored_length(b: Seq<u8>) -> u32 {
    from_be32(b.subrange(0, 4))
}

/// The type field of the chunk bytes `b`.
pub open spec fn stored_type(b: Seq<u8>) -> Seq<u8> {
    b.subrange(4, 8)
}

/// The payload of the chunk bytes `b`: all between the type and the last four bytes.
pub open spec fn stored_data(b: Seq<u8>) -> Seq<u8> {
    b.subrange(8, b.len() - 4)
}

/// The CRC field of the chunk bytes `b`: its last four bytes.
pub open spec fn stored_crc(b: Seq<u8>) -> u32 {
    from_be32(b.subrange(b.len() - 4, b.len() as int))
}

/// The CRC computed over type and payload of the chunk bytes `b`.
pub open spec fn computed_crc(b: Seq<u8>) -> u32 {
    crc32_iso_hdlc(b.subrange(4, b.len() - 4))
}

/// Whether `b` is rejected as a chunk.
pub open spec fn chunk_fails(b: Seq<u8>) -> bool {
    ||| b.len() < 12
    ||| stored_length(b) as int != b.len() - 12
    ||| !type_is_valid(stored_type(b))
    ||| computed_crc(b) != stored_crc(b)
}

/// The error reported for the rejected chunk bytes `b`: the first check that fails,
/// in the order size, length field, type, CRC.
pub open spec fn chunk_error(b: Seq<u8>, e: PngError) -> bool {
    if b.len() < 12 {
        e == PngError::UnexpectedEnd
    } else if stored_length(b) as int != b.len() - 12 {
        e == PngError::LengthMismatch
    } else if !type_is_valid(stored_type(b)) {
        e matches PngError::InvalidChunkType(t) && t@ == stored_type(b)
    } else {
        e == PngError::InvalidChecksum(computed_crc(b))
    }
}

/// The chunk read from the accepted chunk bytes `b`.
pub open spec fn parsed_chunk(b: Seq<u8>) -> ChunkView {
    ChunkView {
        length: stored_length(b),
        chunk_type: stored_type(b),
        data: stored_data(b),
        crc: stored_crc(b),
    }
}

/// The text shown for a chunk: its length, type, payload text and CRC, each on
/// a line of its own.
pub open spec fn chunk_text(c: ChunkView) -> Seq<char> {
    "length: "@ + decimal(c.length as nat) + "\nchunk_type: "@ + utf8_lossy(c.chunk_type) + "\ndata: "@
        + utf8_lossy(c.data) + "\ncrc: "@ + decimal(c.crc as nat) + "\n"@
}

/// The bytes of a well-formed chunk whose type is valid are accepted, and
/// read back as that same chunk.
pub proof fn lemma_serialized_chunk_parses(c: ChunkView)
    requires
        c.wf(),
        type_is_valid(c.chunk_type),
    ensures
        !chunk_fails(c.serialize()),
        parsed_chunk(c.serialize()) == c,
{
    let b = c.serialize();
    lemma_be32_round_trip(c.length);
    lemma_be32_round_trip(c.crc);
    assert(b.subrange(0, 4) =~= be32(c.length));
    assert(stored_type(b) =~= c.chunk_type);
    assert(stored_data(b) =~= c.data);
    assert(b.subrange(b.len() - 4, b.len() as int) =~= be32(c.crc));
    assert(b.subrange(4, b.len() - 4) =~= c.chunk_type + c.data);
}

/// Round trip: building a chunk from a valid type `t` and a payload `p`, writing
/// it out and reading the bytes back gives the chunk with length `|p|`, type `t`,
/// payload `p` and the CRC of `t ++ p`.
pub proof fn lemma_chunk_round_trip(t: Seq<u8>, p: Seq<u8>)
    requires
        t.len() == 4,
        p.len() <= u32::MAX,
        type_is_valid(t),
    ensures
        !chunk_fails(chunk_of(t, p).serialize()),
        parsed_chunk(chunk_of(t, p).serialize()) == chunk_of(t, p),
        chunk_of(t, p) == (ChunkView {
            length: p.len() as u32,
            chunk_type: t,
            data: p,
            crc: crc32_iso_hdlc(t + p),
        }),
{
    lemma_serialized_chunk_parses(chunk_of(t, p));
}

/// Changing one byte of the type or payload in a chunk's bytes leaves its length
/// and CRC fields as they were; where the type stays valid and the CRC of the
/// altered type and payload differs from the stored one, the bytes are rejected
/// with that CRC.
pub proof fn lemma_altered_byte_rejected(c: ChunkView, i: int, v: u8)
    requires
        c.wf(),
        4 <= i < c.serialize().len() - 4,
        type_is_valid(stored_type(c.serialize().update(i, v))),
        computed_crc(c.serialize().update(i, v)) != c.crc,
    ensures
        chunk_fails(c.serialize().update(i, v)),
        chunk_error(
            c.serialize().update(i, v),
            PngError::InvalidChecksum(computed_crc(c.serialize().update(i, v))),
        ),
{
    let b = c.serialize();
    let b2 = b.update(i, v);
    lemma_be32_round_trip(c.length);
    lemma_be32_round_trip(c.crc);
    assert(b2.subrange(0, 4) =~= be32(c.length));
    assert(b2.subrange(b2.len() - 4, b2.len() as int) =~= be32(c.crc));
}

/// A chunk; its length and CRC always agree with its type and payload.
pub struct Chunk {
    length: u32,
    chunk_type: ChunkType,
    data: Vec<u8>,
    crc: u32,
}

impl View for Chunk {
    type V = ChunkView;

    closed spec fn view(&self) -> ChunkView {
        ChunkView { length: self.length, chunk_type: self.chunk_type@, data: self.data@, crc: self.crc }
    }
}

impl Chunk {
    #[verifier::type_invariant]
    closed spec fn inv(self) -> bool {
        self@.wf()
    }

    /// A chunk of type `chunk_type` holding `data`; length and CRC are derived.
    pub fn new(chunk_type: ChunkType, data: Vec<u8>) -> (r: Chunk)
        requires
            data@.len() <= u32::MAX,
        ensures
            r@ == chunk_of(chunk_type@, data@),
            r@.wf(),
    {
        let length = data.len() as u32;
        let mut bytes: Vec<u8> = Vec::new();
        let tb = chunk_type.bytes();
        push_all(&mut bytes, tb.as_slice());
        push_all(&mut bytes, data.as_slice());
        let crc = crc32(bytes.as_slice());
        assert(bytes@ =~= chunk_type@ + data@);
        Chunk { length, chunk_type, data, crc }
    }

    /// Reads a chunk from exactly its bytes, checking size, length field,
    /// type and CRC in that order. The payload is what lies between the type
    /// and the last four bytes, and the length field must give its size.
    pub fn try_from(bytes: &[u8]) -> (r: Result<Chunk, PngError>)
        ensures
            r is Ok <==> !chunk_fails(bytes@),
            r matches Ok(c) ==> c@ == parsed_chunk(bytes@) && c@.wf(),
            r matches Err(e) ==> chunk_error(bytes@, e),
    {
        let n = bytes.len();
        if n < 12 {
            return Err(PngError::UnexpectedEnd);
        }
        let length = read_be32(bytes, 0);
        if length as usize != n - 12 {
            return Err(PngError::LengthMismatch);
        }
        let chunk_type = ChunkType::from([bytes[4], bytes[5], bytes[6], bytes[7]]);
        assert(chunk_type@ =~= stored_type(bytes@));
        if !chunk_type.is_valid() {
            return Err(PngError::InvalidChunkType(chunk_type.bytes()));
        }
        let stored = read_be32(bytes, n - 4);
        let computed = crc32(&bytes[4..n - 4]);
        if computed != stored {
            return Err(PngError::InvalidChecksum(computed));
        }
        let data = vstd::slice::slice_to_vec(&bytes[8..n - 4]);
        assert(bytes@.subrange(4, n - 4) =~= chunk_type@ + data@);
        Ok(Chunk { length, chunk_type, data, crc: stored })
    }

    /// The payload decoded as UTF-8, invalid sequences replaced.
    pub fn data_as_string(&self) -> (r: Result<String, PngError>)
        ensures
            r matches Ok(s) && s@ == utf8_lossy(self@.data),
    {
        Ok(lossy_text(self.data.as_slice()))
    }

    pub fn length(&self) -> (r: u32)
        ensures
            r == self@.length,
    {
        self.length
    }

    pub fn crc(&self) -> (r: u32)
        ensures
            r == self@.crc,
    {
        self.crc
    }

    pub fn chunk_type(&self) -> (r: &ChunkType)
        ensures
            r@ == self@.chunk_type,
    {
        &self.chunk_type
    }

    /// The chunk as text: length, type, payload text and CRC on lines of their own.
    pub fn to_string(&self) -> (r: String)
        ensures
            r@ == chunk_text(self@),
    {
        let mut s = "length: ".to_owned();
        s.append(decimal_text(self.length).as_str());
        s.append("\nchunk_type: ");
        s.append(self.chunk_type.to_string().as_str());
        s.append("\ndata: ");
        s.append(lossy_text(self.data.as_slice()).as_str());
        s.append("\ncrc: ");
        s.append(decimal_text(self.crc).as_str());
        s.append("\n");
        s
    }

    /// The chunk's bytes: length, type, payload, CRC.
    pub fn as_bytes(&self) -> (r: Vec<u8>)
        ensures
            r@ == self@.serialize(),
    {
        let mut out: Vec<u8> = Vec::new();
        push_be32(&mut out, self.length);
        let tb = self.chunk_type.bytes();
        push_all(&mut out, tb.as_slice());
        push_all(&mut out, self.data.as_slice());
        push_be32(&mut out, self.crc);
        assert(out@ =~= self@.serialize());
        out
    }
}

} // verus!
