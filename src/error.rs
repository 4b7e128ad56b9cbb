//! The errors of reading and editing containers.
use vstd::prelude::*;

use crate::codec::{decimal, decimal_text, lossy_text, utf8_lossy};
use vstd::string::StringExecFns;

verus! {

/// Everything that can go wrong while reading or editing a container.
#[derive(Debug, Clone, PartialEq, Eq)]
pub enum PngError {
    /// A textual chunk type is not exactly four bytes long; holds the text.
    InvalidChunkLength(String),
    /// A chunk type byte is not an ASCII letter.
    InvalidByte(u8),
    /// A chunk's type has its reserved bit set; holds the four type bytes.
    InvalidChunkType([u8; 4]),
    /// A chunk's stored CRC differs from the one computed; holds the computed value.
    InvalidChecksum(u32),
    /// A chunk's length field disagrees with the size of its payload.
    LengthMismatch,
    /// The bytes end before a whole chunk has been read.
    UnexpectedEnd,
    /// The bytes do not start with the container signature.
    InvalidHeader,
    /// No chunk has the requested type.
    ChunkTypeDontExist,
}

/// The message shown for an error.
pub open spec fn error_text(e: PngError) -> Seq<char> {
    match e {
        PngError::InvalidChunkLength(s) => "Invalid string length! The length must be 4: "@ + s@,
        PngError::InvalidByte(b) => "Invalid byte!: "@ + decimal(b as nat),
        PngError::InvalidChunkType(t) => "Invalid chunk type!: "@ + utf8_lossy(t@),
        PngError::InvalidChecksum(c) => "Invalid checksum!: "@ + decimal(c as nat),
        PngError::LengthMismatch => "Length field does not match the payload!"@,
        PngError::UnexpectedEnd => "Unexpected end of data!"@,
        PngError::InvalidHeader => "Invalid header!"@,
        PngError::ChunkTypeDontExist => "Chunk type don't exist!"@,
    }
}

impl PngError {
    /// A message that says what went wrong.
    pub fn to_string(&self) -> (r: String)
        ensures
            r@ == error_text(*self),
    {
        match self {
            PngError::InvalidChunkLength(s) => {
                let mut m = "Invalid string length! The length must be 4: ".to_owned();
                m.append(s.as_str());
                m
            },
            PngError::InvalidByte(b) => {
                let mut m = "Invalid byte!: ".to_owned();
                m.append(decimal_text(*b as u32).as_str());
                m
            },
            PngError::InvalidChunkType(t) => {
                let mut m = "Invalid chunk type!: ".to_owned();
                m.append(lossy_text(t.as_slice()).as_str());
                m
            },
            PngError::InvalidChecksum(c) => {
                let mut m = "Invalid checksum!: ".to_owned();
                m.append(decimal_text(*c).as_str());
                m
            },
            PngError::LengthMismatch => "Length field does not match the payload!".to_owned(),
            PngError::UnexpectedEnd => "Unexpected end of data!".to_owned(),
            PngError::InvalidHeader => "Invalid header!".to_owned(),
            PngError::ChunkTypeDontExist => "Chunk type don't exist!".to_owned(),
        }
    }
}

} // verus!
