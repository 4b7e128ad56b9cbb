//! The work behind each command, from a container's bytes to the bytes or
//! text that the command writes out.
use vstd::prelude::*;

use crate::chunk::{Chunk, ChunkView, chunk_of, chunk_text};
use crate::chunk_type::{ChunkType, type_text_accepted, type_text_error};
use crate::codec::utf8_lossy;
use crate::error::PngError;
use crate::png::{
    Png, has_type, is_first_of_type, png_accepts, png_chunks, png_error, serialize_all, signature,
    views,
};
use vstd::string::{StringExecFns, StringSliceAdditionalSpecFns};

verus! {

/// The text shown for chunks `cs`: each chunk's text followed by a line break.
pub open spec fn chunks_text(cs: Seq<ChunkView>) -> Seq<char>
    decreases cs.len(),
{
    if cs.len() == 0 {
        Seq::empty()
    } else {
        chunks_text(cs.drop_last()) + chunk_text(cs.last()) + "\n"@
    }
}

/// Adds a chunk of type `chunk_type` holding the bytes of `message` after the
/// chunks of the container `file`; returns the container's new bytes.
pub fn encode_handler(file: &[u8], chunk_type: &str, message: &str) -> (r: Result<Vec<u8>, PngError>)
    requires
        message.spec_bytes().len() <= u32::MAX,
    ensures
        r is Ok <==> png_accepts(file@) && type_text_accepted(chunk_type.spec_bytes()),
        r matches Ok(out) ==> out@ == signature() + serialize_all(
            png_chunks(file@).push(chunk_of(chunk_type.spec_bytes(), message.spec_bytes())),
        ),
        r matches Err(e) ==> if !png_accepts(file@) {
            png_error(file@, e)
        } else {
            type_text_error(chunk_type, e)
        },
{
    let mut png = match Png::try_from(file) {
        Ok(p) => p,
        Err(e) => return Err(e),
    };
    let t = match ChunkType::from_text(chunk_type) {
        Ok(t) => t,
        Err(e) => return Err(e),
    };
    let data = vstd::slice::slice_to_vec(message.as_bytes());
    png.append_chunk(Chunk::new(t, data));
    Ok(png.as_bytes())
}

/// The payload text of the first chunk of type `chunk_type` in the container `file`.
pub fn decode_handler(file: &[u8], chunk_type: &str) -> (r: Result<String, PngError>)
    ensures
        r is Ok <==> png_accepts(file@) && has_type(png_chunks(file@), chunk_type.spec_bytes()),
        r matches Ok(s) ==> exists|i: int|
            is_first_of_type(png_chunks(file@), chunk_type.spec_bytes(), i) && s@ == utf8_lossy(
                #[trigger] png_chunks(file@)[i].data,
            ),
        r matches Err(e) ==> if !png_accepts(file@) {
            png_error(file@, e)
        } else {
            e == PngError::ChunkTypeDontExist
        },
{
    let png = match Png::try_from(file) {
        Ok(p) => p,
        Err(e) => return Err(e),
    };
    match png.chunk_by_type(chunk_type) {
        None => Err(PngError::ChunkTypeDontExist),
        Some(c) => c.data_as_string(),
    }
}

/// Removes the first chunk of type `chunk_type` from the container `file`;
/// returns the container's new bytes.
pub fn remove_handler(file: &[u8], chunk_type: &str) -> (r: Result<Vec<u8>, PngError>)
    ensures
        r is Ok <==> png_accepts(file@) && has_type(png_chunks(file@), chunk_type.spec_bytes()),
        r matches Ok(out) ==> exists|i: int|
            is_first_of_type(png_chunks(file@), chunk_type.spec_bytes(), i) && out@ == signature()
                + serialize_all(#[trigger] png_chunks(file@).remove(i)),
        r matches Err(e) ==> if !png_accepts(file@) {
            png_error(file@, e)
        } else {
            e == PngError::ChunkTypeDontExist
        },
{
    let mut png = match Png::try_from(file) {
        Ok(p) => p,
        Err(e) => return Err(e),
    };
    match png.remove_chunk(chunk_type) {
        Ok(_) => Ok(png.as_bytes()),
        Err(e) => Err(e),
    }
}

/// The text of every chunk of the container `file`, in order, each followed
/// by a line break.
pub fn print_handler(file: &[u8]) -> (r: Result<String, PngError>)
    ensures
        r is Ok <==> png_accepts(file@),
        r matches Ok(s) ==> s@ == chunks_text(png_chunks(file@)),
        r matches Err(e) ==> png_error(file@, e),
{
    let png = match Png::try_from(file) {
        Ok(p) => p,
        Err(e) => return Err(e),
    };
    let chunks = png.chunks();
    let mut out = String::new();
    let mut i: usize = 0;
    while i < chunks.len()
        invariant
            0 <= i <= chunks@.len(),
            views(chunks@) == png_chunks(file@),
            out@ == chunks_text(png_chunks(file@).subrange(0, i as int)),
        decreases chunks@.len() - i,
    {
        let ghost cs = png_chunks(file@);
        out.append(chunks[i].to_string().as_str());
        out.append("\n");
        assert(cs.subrange(0, i + 1).drop_last() =~= cs.subrange(0, i as int));
        assert(cs[i as int] == chunks@[i as int]@);
        i = i + 1;
    }
    assert(png_chunks(file@).subrange(0, i as int) =~= png_chunks(file@));
    Ok(out)
}

} // verus!
