use png_secret::chunk::Chunk;
use png_secret::chunk_type::ChunkType;
use png_secret::error::PngError;
use std::str::FromStr;

fn testing_chunk() -> Chunk {
    let data_length: u32 = 42;
    let chunk_type = "RuSt".as_bytes();
    let message_bytes = "This is where your secret message will be!".as_bytes();
    let crc: u32 = 2882656334;

    let chunk_data: Vec<u8> = data_length
        .to_be_bytes()
        .iter()
        .chain(chunk_type.iter())
        .chain(message_bytes.iter())
        .chain(crc.to_be_bytes().iter())
        .copied()
        .collect();

    Chunk::try_from(chunk_data.as_ref()).unwrap()
}

fn chunk_bytes(length: u32, chunk_type: &[u8], data: &[u8], crc: u32) -> Vec<u8> {
    length
        .to_be_bytes()
        .iter()
        .chain(chunk_type.iter())
        .chain(data.iter())
        .chain(crc.to_be_bytes().iter())
        .copied()
        .collect()
}

#[test]
fn test_new_chunk() {
    let chunk_type = ChunkType::from_str("RuSt").unwrap();
    let data = "This is where your secret message will be!"
        .as_bytes()
        .to_vec();
    let chunk = Chunk::new(chunk_type, data);
    assert_eq!(chunk.length(), 42);
    assert_eq!(chunk.crc(), 2882656334);
}

#[test]
fn test_chunk_length() {
    let chunk = testing_chunk();
    assert_eq!(chunk.length(), 42);
}

#[test]
fn test_chunk_type() {
    let chunk = testing_chunk();
    assert_eq!(chunk.chunk_type().to_string(), String::from("RuSt"));
}

#[test]
fn test_chunk_string() {
    let chunk = testing_chunk();
    let chunk_string = chunk.data_as_string().unwrap();
    let expected_chunk_string = String::from("This is where your secret message will be!");
    assert_eq!(chunk_string, expected_chunk_string);
}

#[test]
fn test_chunk_crc() {
    let chunk = testing_chunk();
    assert_eq!(chunk.crc(), 2882656334);
}

#[test]
fn test_valid_chunk_from_bytes() {
    let data_length: u32 = 42;
    let chunk_type = "RuSt".as_bytes();
    let message_bytes = "This is where your secret message will be!".as_bytes();
    let crc: u32 = 2882656334;

    let chunk_data: Vec<u8> = data_length
        .to_be_bytes()
        .iter()
        .chain(chunk_type.iter())
        .chain(message_bytes.iter())
        .chain(crc.to_be_bytes().iter())
        .copied()
        .collect();

    let chunk = Chunk::try_from(chunk_data.as_ref()).unwrap();

    let chunk_string = chunk.data_as_string().unwrap();
    let expected_chunk_string = String::from("This is where your secret message will be!");

    assert_eq!(chunk.length(), 42);
    assert_eq!(chunk.chunk_type().to_string(), String::from("RuSt"));
    assert_eq!(chunk_string, expected_chunk_string);
    assert_eq!(chunk.crc(), 2882656334);
}

#[test]
fn test_invalid_chunk_from_bytes() {
    let data_length: u32 = 42;
    let chunk_type = "RuSt".as_bytes();
    let message_bytes = "This is where your secret message will be!".as_bytes();
    let crc: u32 = 2882656333;

    let chunk_data: Vec<u8> = data_length
        .to_be_bytes()
        .iter()
        .chain(chunk_type.iter())
        .chain(message_bytes.iter())
        .chain(crc.to_be_bytes().iter())
        .copied()
        .collect();

    let chunk = Chunk::try_from(chunk_data.as_ref());

    assert!(chunk.is_err());
}

#[test]
pub fn test_chunk_trait_impls() {
    let data_length: u32 = 42;
    let chunk_type = "RuSt".as_bytes();
    let message_bytes = "This is where your secret message will be!".as_bytes();
    let crc: u32 = 2882656334;

    let chunk_data: Vec<u8> = data_length
        .to_be_bytes()
        .iter()
        .chain(chunk_type.iter())
        .chain(message_bytes.iter())
        .chain(crc.to_be_bytes().iter())
        .copied()
        .collect();

    let chunk: Chunk = Chunk::try_from(chunk_data.as_ref()).unwrap();

    let _chunk_string = chunk.to_string();
}

#[test]
fn crc_matches_the_standard_check_value() {
    let t = ChunkType::from([b'1', b'2', b'3', b'4']);
    let chunk = Chunk::new(t, b"56789".to_vec());
    assert_eq!(chunk.crc(), 0xCBF43926);
    assert_eq!(chunk.length(), 5);
}

#[test]
fn round_trip_of_a_new_chunk() {
    let t = ChunkType::from_str("RuSt").unwrap();
    let payload = vec![0u8, 1, 2, 255, 128, 7];
    let chunk = Chunk::new(t, payload.clone());
    let bytes = chunk.as_bytes();
    assert_eq!(bytes.len(), 12 + payload.len());
    let back = Chunk::try_from(bytes.as_slice()).unwrap();
    assert_eq!(back.length(), 6);
    assert_eq!(back.chunk_type().bytes(), *b"RuSt");
    assert_eq!(back.crc(), chunk.crc());
    assert_eq!(back.as_bytes(), bytes);
}

#[test]
fn round_trip_of_an_empty_payload() {
    let t = ChunkType::from_str("teSt").unwrap();
    let chunk = Chunk::new(t, Vec::new());
    let bytes = chunk.as_bytes();
    assert_eq!(bytes.len(), 12);
    assert_eq!(&bytes[0..8], &[0, 0, 0, 0, b't', b'e', b'S', b't']);
    let back = Chunk::try_from(bytes.as_slice()).unwrap();
    assert_eq!(back.length(), 0);
    assert_eq!(back.crc(), chunk.crc());
}

#[test]
fn flipped_payload_bit_fails_the_checksum() {
    let t = ChunkType::from_str("RuSt").unwrap();
    let chunk = Chunk::new(t, b"hello".to_vec());
    let bytes = chunk.as_bytes();
    for i in 4..bytes.len() - 4 {
        for bit in 0..8 {
            if i == 6 && bit == 5 {
                continue;
            }
            let mut altered = bytes.clone();
            altered[i] ^= 1u8 << bit;
            let mut typed_and_data = altered[4..altered.len() - 4].to_vec();
            let expected = Chunk::new(
                ChunkType::from([typed_and_data[0], typed_and_data[1], typed_and_data[2], typed_and_data[3]]),
                typed_and_data.split_off(4),
            )
            .crc();
            assert_eq!(
                Chunk::try_from(altered.as_slice()).err(),
                Some(PngError::InvalidChecksum(expected))
            );
        }
    }
}

#[test]
fn reserved_bit_set_is_an_invalid_type() {
    let t = ChunkType::from_str("Rust").unwrap();
    let chunk = Chunk::new(t, b"hello".to_vec());
    let bytes = chunk.as_bytes();
    assert_eq!(
        Chunk::try_from(bytes.as_slice()).err(),
        Some(PngError::InvalidChunkType(*b"Rust"))
    );
}

#[test]
fn too_few_bytes_end_early() {
    assert_eq!(
        Chunk::try_from(&[0u8, 0, 0, 0, b'R', b'u', b'S', b't', 0, 0, 0][..]).err(),
        Some(PngError::UnexpectedEnd)
    );
}

#[test]
fn length_field_must_match_payload() {
    let bytes = chunk_bytes(41, b"RuSt", b"This is where your secret message will be!", 2882656334);
    assert_eq!(Chunk::try_from(bytes.as_slice()).err(), Some(PngError::LengthMismatch));
}

#[test]
fn invalid_utf8_is_replaced() {
    let t = ChunkType::from_str("RuSt").unwrap();
    let chunk = Chunk::new(t, vec![b'a', 0xff, b'b']);
    assert_eq!(chunk.data_as_string().unwrap(), "a\u{FFFD}b");
}

#[test]
fn chunk_text_lists_its_fields() {
    let t = ChunkType::from_str("teSt").unwrap();
    let chunk = Chunk::new(t, b"hello".to_vec());
    let expected = format!("length: 5\nchunk_type: teSt\ndata: hello\ncrc: {}\n", chunk.crc());
    assert_eq!(chunk.to_string(), expected);
}
