use learning::huffman::HuffmanCodec;

#[test]
fn test_huffman_codec_creation() {
    let codec = HuffmanCodec::new();
    assert!(codec.leaf_count() != 0);
    assert!(codec.node_count() != 0);
}

#[test]
fn test_encode_decode_string() {
    let codec = HuffmanCodec::new();

    let test_strings = vec!["Tribes", "Server", "Player", "Hello World", "test123"];

    for s in test_strings {
        let encoded = codec.encode_string(s).unwrap();
        let (decoded, _) = codec.decode_string(&encoded).unwrap();
        assert_eq!(decoded, s, "Failed for string: {}", s);
    }
}

#[test]
fn test_empty_string() {
    let codec = HuffmanCodec::new();
    let encoded = codec.encode_string("").unwrap();
    let (decoded, _) = codec.decode_string(&encoded).unwrap();
    assert_eq!(decoded, "");
}

#[test]
fn test_single_char() {
    let codec = HuffmanCodec::new();
    let encoded = codec.encode_string("a").unwrap();
    let (decoded, _) = codec.decode_string(&encoded).unwrap();
    assert_eq!(decoded, "a");
}

#[test]
fn test_numbers() {
    let codec = HuffmanCodec::new();
    let s = "12345";
    let encoded = codec.encode_string(s).unwrap();
    let (decoded, _) = codec.decode_string(&encoded).unwrap();
    assert_eq!(decoded, s);
}

// Further cases.

#[test]
fn huffman_tree_shape() {
    let codec = HuffmanCodec::new();
    // 256 leaves joined pairwise give 255 nodes, plus the root copy.
    assert_eq!(codec.leaf_count(), 256);
    assert_eq!(codec.node_count(), 256);
}

#[test]
fn huffman_roundtrip_consumes_whole_encoding() {
    let codec = HuffmanCodec::new();
    let encoded = codec.encode_string("Tribes").unwrap();
    let (decoded, consumed) = codec.decode_string(&encoded).unwrap();
    assert_eq!(decoded, "Tribes");
    assert_eq!(consumed, encoded.len());
    // Flag bit set, then the length 6 in the next 8 bits.
    assert_eq!(encoded[0] & 1, 1);
    assert_eq!((encoded[0] >> 1) | ((encoded[1] & 1) << 7), 6);
}

#[test]
fn huffman_empty_string_layout() {
    let codec = HuffmanCodec::new();
    let encoded = codec.encode_string("").unwrap();
    // Flag bit and a zero length: two bytes, both consumed by decoding.
    assert_eq!(encoded, vec![0x01, 0x00]);
    let (decoded, consumed) = codec.decode_string(&encoded).unwrap();
    assert_eq!(decoded, "");
    assert_eq!(consumed, 2);
    // An uncompressed empty block is two bytes as well.
    let (decoded, consumed) = codec.decode_string(&[0x00, 0x00, 0xAB]).unwrap();
    assert_eq!(decoded, "");
    assert_eq!(consumed, 2);
}

#[test]
fn huffman_decode_uncompressed_block() {
    let codec = HuffmanCodec::new();
    // Flag 0, length 2, then "Hi" as raw 8-bit characters.
    let mut w = learning::bitstream::BitStreamWriter::new();
    w.write_bit(false).unwrap();
    w.write_byte(2).unwrap();
    w.write_byte(b'H').unwrap();
    w.write_byte(b'i').unwrap();
    let bytes = w.into_bytes();
    let (s, consumed) = codec.decode_string(&bytes).unwrap();
    assert_eq!(s, "Hi");
    assert_eq!(consumed, 4);
}

#[test]
fn huffman_decode_errors() {
    let codec = HuffmanCodec::new();
    assert_eq!(codec.decode_string(&[]).unwrap_err(), learning::error::NetError::UnexpectedEof);
    // Uncompressed, with a length beyond the bytes present.
    assert_eq!(
        codec.decode_string(&[0x06, 0x41]).unwrap_err(),
        learning::error::NetError::UnexpectedEof
    );
}

#[test]
fn huffman_high_first_byte_adds_padding() {
    let codec = HuffmanCodec::new();
    let plain = codec.encode_string("e").unwrap();
    let high = codec.encode_string("\u{e9}").unwrap();
    // A first byte of 128 or more is followed by 32 zero bits.
    assert!(high.len() >= plain.len() + 4);
    let (decoded, consumed) = codec.decode_string(&high).unwrap();
    assert_eq!(decoded, "\u{e9}");
    assert_eq!(consumed, high.len());
}

#[test]
fn huffman_codes_every_byte_that_text_can_hold() {
    let codec = HuffmanCodec::new();
    // Every one-byte character, every lead byte and continuation byte of the
    // longer UTF-8 encodings.
    let samples = ['\u{80}', '\u{7FF}', '\u{800}', '\u{FFFF}', '\u{10000}', '\u{10FFFF}', 'é', '€'];
    for c in (0u32..128).filter_map(char::from_u32).chain(samples) {
        let s = c.to_string();
        let encoded = codec.encode_string(&s).unwrap();
        let (decoded, consumed) = codec.decode_string(&encoded).unwrap();
        assert_eq!(decoded, s);
        assert_eq!(consumed, encoded.len());
    }
    for lead in 0xC2u32..=0xF4 {
        for cont in [0x80u32, 0xBF, 0x9F, 0x90] {
            let bytes: Vec<u8> = match lead {
                0xC2..=0xDF => vec![lead as u8, cont as u8],
                0xE0 => vec![0xE0, 0xA0 | (cont as u8 & 0x1F), 0x80],
                0xED => vec![0xED, 0x80 | (cont as u8 & 0x1F), 0xBF],
                0xE1..=0xEF => vec![lead as u8, cont as u8, cont as u8],
                0xF0 => vec![0xF0, 0x90 | (cont as u8 & 0x2F), 0x80, 0xBF],
                0xF4 => vec![0xF4, 0x80 | (cont as u8 & 0x0F), 0x80, 0x80],
                _ => vec![lead as u8, cont as u8, cont as u8, cont as u8],
            };
            let s = String::from_utf8(bytes).unwrap();
            let encoded = codec.encode_string(&s).unwrap();
            assert_eq!(codec.decode_string(&encoded).unwrap().0, s);
        }
    }
}
