use png_secret::chunk::Chunk;
use png_secret::chunk_type::ChunkType;
use png_secret::commands::{decode_handler, encode_handler, print_handler, remove_handler};
use png_secret::error::PngError;
use png_secret::png::Png;
use std::str::FromStr;

fn chunk(t: &str, data: &str) -> Chunk {
    Chunk::new(ChunkType::from_str(t).unwrap(), data.as_bytes().to_vec())
}

#[test]
fn empty_container_is_the_signature() {
    let png = Png::from_chunks(Vec::new());
    assert_eq!(png.as_bytes(), vec![137, 80, 78, 71, 13, 10, 26, 10]);
    assert_eq!(Png::standard_header(), vec![137, 80, 78, 71, 13, 10, 26, 10]);
    let back = Png::try_from(&png.as_bytes()).unwrap();
    assert_eq!(back.chunks().len(), 0);
}

#[test]
fn container_round_trip_keeps_order() {
    let mut png = Png::from_chunks(Vec::new());
    png.append_chunk(chunk("FrSt", "first"));
    png.append_chunk(chunk("miDl", ""));
    png.append_chunk(chunk("LaSt", "last one"));
    let bytes = png.as_bytes();
    let back = Png::try_from(&bytes).unwrap();
    let cs = back.chunks();
    assert_eq!(cs.len(), 3);
    assert_eq!(cs[0].chunk_type().to_string(), "FrSt");
    assert_eq!(cs[1].chunk_type().to_string(), "miDl");
    assert_eq!(cs[2].chunk_type().to_string(), "LaSt");
    assert_eq!(cs[0].data_as_string().unwrap(), "first");
    assert_eq!(cs[1].length(), 0);
    assert_eq!(cs[2].length(), 8);
    for (a, b) in cs.iter().zip(png.chunks().iter()) {
        assert_eq!(a.as_bytes(), b.as_bytes());
        assert_eq!(a.crc(), b.crc());
    }
    assert_eq!(back.as_bytes(), bytes);
}

#[test]
fn lookup_and_removal() {
    let mut png = Png::from_chunks(Vec::new());
    png.append_chunk(chunk("teSt", "message"));
    let found = png.chunk_by_type("teSt").unwrap();
    assert_eq!(found.data_as_string().unwrap(), "message");
    let removed = png.remove_chunk("teSt").unwrap();
    assert_eq!(removed.data_as_string().unwrap(), "message");
    assert!(png.chunk_by_type("teSt").is_none());
    assert_eq!(png.remove_chunk("teSt").err(), Some(PngError::ChunkTypeDontExist));
}

#[test]
fn lookup_and_removal_take_the_first_match() {
    let mut png = Png::from_chunks(vec![chunk("AbCd", "one"), chunk("teSt", "two"), chunk("teSt", "three")]);
    assert_eq!(png.chunk_by_type("teSt").unwrap().data_as_string().unwrap(), "two");
    png.remove_chunk("teSt").unwrap();
    assert_eq!(png.chunks().len(), 2);
    assert_eq!(png.chunks()[0].data_as_string().unwrap(), "one");
    assert_eq!(png.chunks()[1].data_as_string().unwrap(), "three");
    assert!(png.chunk_by_type("nOne").is_none());
    assert!(png.chunk_by_type("teStX").is_none());
}

#[test]
fn end_to_end_hello() {
    let mut png = Png::from_chunks(Vec::new());
    png.append_chunk(chunk("teSt", "hello"));
    let bytes = png.as_bytes();
    let back = Png::try_from(&bytes).unwrap();
    assert_eq!(back.chunks().len(), 1);
    let c = &back.chunks()[0];
    assert_eq!(c.length(), 5);
    assert_eq!(c.chunk_type().to_string(), "teSt");
    assert_eq!(c.data_as_string().unwrap(), "hello");
    let expected_crc = Chunk::new(ChunkType::from([b't', b'e', b'S', b't']), b"hello".to_vec()).crc();
    assert_eq!(c.crc(), expected_crc);
}

#[test]
fn wrong_signature_is_rejected() {
    assert_eq!(Png::try_from(&[137, 80, 78, 71, 13, 10, 26, 11]).err(), Some(PngError::InvalidHeader));
    assert_eq!(Png::try_from(&[137, 80, 78]).err(), Some(PngError::InvalidHeader));
}

#[test]
fn trailing_partial_chunk_is_rejected() {
    let mut png = Png::from_chunks(Vec::new());
    png.append_chunk(chunk("teSt", "hello"));
    let mut bytes = png.as_bytes();
    bytes.push(0);
    assert_eq!(Png::try_from(&bytes).err(), Some(PngError::UnexpectedEnd));
    let mut bytes = png.as_bytes();
    bytes.pop();
    assert_eq!(Png::try_from(&bytes).err(), Some(PngError::UnexpectedEnd));
}

#[test]
fn bad_chunk_error_propagates() {
    let mut png = Png::from_chunks(Vec::new());
    png.append_chunk(chunk("teSt", "hello"));
    let mut bytes = png.as_bytes();
    let last = bytes.len() - 1;
    bytes[last] ^= 1;
    assert!(matches!(Png::try_from(&bytes), Err(PngError::InvalidChecksum(_))));
}

#[test]
fn commands_work_on_bytes() {
    let empty = Png::from_chunks(Vec::new()).as_bytes();
    let encoded = encode_handler(&empty, "teSt", "hello").unwrap();
    assert_eq!(decode_handler(&encoded, "teSt").unwrap(), "hello");
    assert_eq!(decode_handler(&encoded, "nOne").err(), Some(PngError::ChunkTypeDontExist));
    let text = print_handler(&encoded).unwrap();
    assert!(text.starts_with("length: 5\nchunk_type: teSt\ndata: hello\ncrc: "));
    assert!(text.ends_with("\n\n"));
    let removed = remove_handler(&encoded, "teSt").unwrap();
    assert_eq!(removed, empty);
    assert_eq!(remove_handler(&removed, "teSt").err(), Some(PngError::ChunkTypeDontExist));
    assert_eq!(encode_handler(&empty, "te1t", "x").err(), Some(PngError::InvalidByte(49)));
    assert_eq!(encode_handler(&[1, 2], "teSt", "x").err(), Some(PngError::InvalidHeader));
}

#[test]
fn error_messages() {
    assert_eq!(PngError::InvalidByte(49).to_string(), "Invalid byte!: 49");
    assert_eq!(PngError::InvalidChecksum(2882656334).to_string(), "Invalid checksum!: 2882656334");
    assert_eq!(
        PngError::InvalidChunkLength(String::from("abc")).to_string(),
        "Invalid string length! The length must be 4: abc"
    );
    assert_eq!(PngError::InvalidChunkType(*b"Rust").to_string(), "Invalid chunk type!: Rust");
    assert_eq!(PngError::InvalidHeader.to_string(), "Invalid header!");
    assert_eq!(PngError::ChunkTypeDontExist.to_string(), "Chunk type don't exist!");
}
