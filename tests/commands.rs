use pngme::chunk::Chunk;
use pngme::chunk_type::ChunkType;
use pngme::commands::{decode, encode, remove};
use pngme::error::PngError;
use pngme::png::Png;

fn base_file() -> Vec<u8> {
    Png::from_chunks(vec![
        Chunk::new(ChunkType::from_str("IHDR").unwrap(), vec![0, 0, 0, 1, 0, 0, 0, 1, 8, 2, 0, 0, 0]),
        Chunk::new(ChunkType::from_str("IEND").unwrap(), vec![]),
    ])
    .as_bytes()
}

#[test]
fn encode_then_decode_finds_the_message() {
    let file = encode(&base_file(), "RuSt", "hello there").unwrap();
    let chunk = decode(&file, "RuSt").unwrap().unwrap();
    assert_eq!(chunk.data_as_string().unwrap(), "hello there");
    assert_eq!(chunk.length(), 11);
    let png = Png::try_from(file.as_slice()).unwrap();
    assert_eq!(png.chunks().len(), 3);
    assert_eq!(png.chunks()[2].chunk_type().to_string().unwrap(), "RuSt");
}

#[test]
fn encode_with_a_bad_label_fails() {
    assert_eq!(encode(&base_file(), "Ru1t", "x").unwrap_err(), PngError::InvalidByte);
    assert_eq!(encode(&base_file(), "RuStt", "x").unwrap_err(), PngError::InvalidLength);
}

#[test]
fn encode_on_a_file_that_is_not_png_fails() {
    assert_eq!(encode(b"not a png at all", "RuSt", "x").unwrap_err(), PngError::BadSignature);
}

#[test]
fn decode_of_an_absent_type_is_none() {
    assert!(decode(&base_file(), "RuSt").unwrap().is_none());
}

#[test]
fn remove_undoes_encode() {
    let original = base_file();
    let file = encode(&original, "RuSt", "secret").unwrap();
    assert_eq!(remove(&file, "RuSt").unwrap(), original);
}

#[test]
fn remove_of_an_absent_type_is_not_found() {
    assert_eq!(remove(&base_file(), "RuSt").unwrap_err(), PngError::ChunkNotFound);
}
