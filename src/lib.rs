//! Reading, checking, building and writing chunk containers: an eight-byte
//! signature followed by length-prefixed, type-tagged, CRC-32-checked chunks.
pub mod codec;
pub mod error;
pub mod chunk_type;
pub mod chunk;
pub mod png;
pub mod commands;
