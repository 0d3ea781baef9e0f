use pngme::chunk::{Chunk, ChunkError};
use pngme::chunk_type::{ChunkType, ChunkTypeError};
use pngme::png::{signature, Png, PngError};

fn chunk_from_strings(chunk_type: &str, data: &str) -> Chunk {
    let chunk_type = ChunkType::from_str(chunk_type).unwrap();
    let data = data.as_bytes().to_vec();
    Chunk::new(chunk_type, data)
}

fn testing_png() -> Png {
    let mut png = Png::new();
    png.append_chunk(chunk_from_strings("FrSt", "I am the first chunk"));
    png.append_chunk(chunk_from_strings("miDl", "I am another chunk"));
    png.append_chunk(chunk_from_strings("LASt", "I am the last chunk"));
    png
}

#[test]
fn test_png_round_trip() {
    let png = testing_png();
    let bytes = png.as_bytes();
    let parsed = Png::try_from(bytes.as_ref()).unwrap();
    assert_eq!(parsed.chunks().len(), 3);
    for (a, b) in png.chunks().iter().zip(parsed.chunks().iter()) {
        assert_eq!(a.length(), b.length());
        assert_eq!(a.chunk_type().bytes(), b.chunk_type().bytes());
        assert_eq!(a.data(), b.data());
        assert_eq!(a.crc(), b.crc());
    }
}

#[test]
fn test_chunk_round_trip() {
    let chunk = chunk_from_strings("RuSt", "Round and round it goes");
    let bytes = chunk.as_bytes();
    let parsed = Chunk::try_from(bytes.as_ref()).unwrap();
    assert_eq!(parsed.length(), chunk.length());
    assert_eq!(parsed.chunk_type().bytes(), chunk.chunk_type().bytes());
    assert_eq!(parsed.data(), chunk.data());
    assert_eq!(parsed.crc(), chunk.crc());
}

#[test]
fn test_remove_first_matching_chunk() {
    let mut png = Png::new();
    png.append_chunk(chunk_from_strings("teSt", "first payload"));
    png.append_chunk(chunk_from_strings("ruSt", "second payload"));
    let removed = png.remove_chunk("ruSt").unwrap();
    assert_eq!(removed.chunk_type().to_string(), "ruSt");
    assert_eq!(removed.data_as_string().unwrap(), "second payload");
    assert_eq!(png.chunks().len(), 1);
    assert_eq!(png.chunks()[0].chunk_type().to_string(), "teSt");
    assert!(png.chunk_by_type("ruSt").is_none());
}

#[test]
fn test_chunk_not_found() {
    let mut png = testing_png();
    let err = png.remove_chunk("ruSt").unwrap_err();
    assert!(matches!(err, PngError::ChunkNotFound(_)));
    assert_eq!(png.chunks().len(), 3);
}

#[test]
fn test_remove_chunk_invalid_type_string() {
    let mut png = testing_png();
    let err = png.remove_chunk("abc").unwrap_err();
    assert_eq!(
        err,
        PngError::ChunkError(ChunkError::ChunkTypeError(ChunkTypeError::InvalidLength))
    );
    let err = png.remove_chunk("ab1c").unwrap_err();
    assert_eq!(
        err,
        PngError::ChunkError(ChunkError::ChunkTypeError(ChunkTypeError::InvalidByte(49)))
    );
}

#[test]
fn test_chunk_by_type() {
    let png = testing_png();
    let chunk = png.chunk_by_type("miDl").unwrap();
    assert_eq!(chunk.chunk_type().to_string(), "miDl");
    assert_eq!(chunk.data_as_string().unwrap(), "I am another chunk");
    assert!(png.chunk_by_type("noNe").is_none());
    assert!(png.chunk_by_type("not a tag").is_none());
}

#[test]
fn test_signature_mismatch() {
    let mut bytes: Vec<u8> = signature().to_vec();
    bytes[0] = 0x88;
    let err = Png::try_from(bytes.as_ref()).unwrap_err();
    assert_eq!(err, PngError::SignatureMismatch);

    let err = Png::try_from([1u8, 2, 3].as_ref()).unwrap_err();
    assert_eq!(err, PngError::SignatureMismatch);
}

#[test]
fn test_empty_container() {
    let bytes: Vec<u8> = signature().to_vec();
    let png = Png::try_from(bytes.as_ref()).unwrap();
    assert_eq!(png.chunks().len(), 0);
    assert_eq!(png.as_bytes(), bytes);
}

#[test]
fn test_input_too_small() {
    for n in 0..12usize {
        let bytes = vec![0u8; n];
        let err = Chunk::try_from(bytes.as_ref()).unwrap_err();
        assert_eq!(err, ChunkError::InputTooSmall);
    }
}

#[test]
fn test_truncated_payload() {
    let mut bytes: Vec<u8> = 100u32.to_be_bytes().to_vec();
    bytes.extend_from_slice("RuSt".as_bytes());
    bytes.extend_from_slice(&[1, 2, 3, 4]);
    let err = Chunk::try_from(bytes.as_ref()).unwrap_err();
    assert_eq!(err, ChunkError::TruncatedPayload);
}

#[test]
fn test_invalid_type_byte_in_chunk() {
    let mut bytes: Vec<u8> = 0u32.to_be_bytes().to_vec();
    bytes.extend_from_slice("Ru1t".as_bytes());
    bytes.extend_from_slice(&[0, 0, 0, 0]);
    let err = Chunk::try_from(bytes.as_ref()).unwrap_err();
    assert_eq!(
        err,
        ChunkError::ChunkTypeError(ChunkTypeError::InvalidByte(49))
    );
}

#[test]
fn test_crc_bit_flips_detected() {
    let chunk = chunk_from_strings("RuSt", "guarded by a checksum");
    let good = chunk.as_bytes();
    let crc = chunk.crc();
    for byte_pos in good.len() - 4..good.len() {
        for bit in 0..8u8 {
            let mut corrupted = good.clone();
            corrupted[byte_pos] ^= 1 << bit;
            match Chunk::try_from(corrupted.as_ref()) {
                Err(ChunkError::InvalidCRC(computed, stored)) => {
                    assert_eq!(computed, crc);
                    assert_ne!(stored, crc);
                }
                other => panic!("expected a checksum mismatch, got {:?}", other),
            }
        }
    }
}

#[test]
fn test_not_utf8_payload() {
    let chunk_type = ChunkType::from_str("RuSt").unwrap();
    let chunk = Chunk::new(chunk_type, vec![0xff, 0xfe, 0xfd]);
    let err = chunk.data_as_string().unwrap_err();
    assert_eq!(err, ChunkError::Utf8Error);
}

#[test]
fn test_multibyte_utf8_payload() {
    let chunk_type = ChunkType::from_str("RuSt").unwrap();
    let message = "h\u{e9}llo \u{1f980}";
    let chunk = Chunk::new(chunk_type, message.as_bytes().to_vec());
    let decoded = chunk.data_as_string().unwrap();
    assert_eq!(decoded, message);
    assert_ne!(decoded.chars().count(), chunk.data().len());
}

#[test]
fn test_encode_and_decode_message() {
    let bytes: Vec<u8> = signature().to_vec();
    let mut png = Png::try_from(bytes.as_ref()).unwrap();

    let message = "This is where your secret message will be!";
    let chunk_type = ChunkType::from_str("RuSt").unwrap();
    png.append_chunk(Chunk::new(chunk_type, message.as_bytes().to_vec()));

    let file_bytes = png.as_bytes();
    let reread = Png::try_from(file_bytes.as_ref()).unwrap();
    let chunk = reread.chunk_by_type("RuSt").unwrap();
    assert_eq!(chunk.length(), 42);
    assert_eq!(chunk.crc(), 2882656334);
    assert_eq!(chunk.data_as_string().unwrap(), message);
}
