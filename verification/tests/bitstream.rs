use learning::bitstream::{BitStreamReader, BitStreamWriter};

#[test]
fn test_read_write_single_bits() {
    let mut writer = BitStreamWriter::new();
    writer.write_bit(true).unwrap();
    writer.write_bit(false).unwrap();
    writer.write_bit(true).unwrap();
    writer.write_bit(true).unwrap();
    writer.align();

    let bytes = writer.as_bytes();
    assert_eq!(bytes[0], 0b00001101);

    let mut reader = BitStreamReader::new(bytes);
    assert_eq!(reader.read_bit().unwrap(), true);
    assert_eq!(reader.read_bit().unwrap(), false);
    assert_eq!(reader.read_bit().unwrap(), true);
    assert_eq!(reader.read_bit().unwrap(), true);
}

#[test]
fn test_read_write_bytes() {
    let mut writer = BitStreamWriter::new();
    writer.write_byte(0xAB).unwrap();
    writer.write_byte(0xCD).unwrap();

    let bytes = writer.as_bytes();
    assert_eq!(bytes, &[0xAB, 0xCD]);

    let mut reader = BitStreamReader::new(bytes);
    assert_eq!(reader.read_byte().unwrap(), 0xAB);
    assert_eq!(reader.read_byte().unwrap(), 0xCD);
}

#[test]
fn test_read_write_arbitrary_bits() {
    let mut writer = BitStreamWriter::new();
    writer.write_bits(0xF, 4).unwrap();
    writer.write_bits(0x3, 2).unwrap();
    writer.write_bits(0x0, 2).unwrap();
    writer.align();

    let bytes = writer.as_bytes();
    assert_eq!(bytes[0], 0x3F);

    let mut reader = BitStreamReader::new(bytes);
    assert_eq!(reader.read_bits(4).unwrap(), 0xF);
    assert_eq!(reader.read_bits(2).unwrap(), 0x3);
    assert_eq!(reader.read_bits(2).unwrap(), 0x0);
}

#[test]
fn test_bit_spanning_bytes() {
    let mut writer = BitStreamWriter::new();
    writer.write_bits(0x1FF, 9).unwrap();
    writer.align();

    let bytes = writer.as_bytes();
    assert_eq!(bytes.len(), 2);
    assert_eq!(bytes[0], 0xFF);
    assert_eq!(bytes[1], 0x01);

    let mut reader = BitStreamReader::new(bytes);
    assert_eq!(reader.read_bits(9).unwrap(), 0x1FF);
}

#[test]
fn test_bits_remaining() {
    let data = vec![0xFF, 0xFF];
    let mut reader = BitStreamReader::new(&data);
    assert_eq!(reader.bits_remaining(), 16);
    reader.read_bits(5).unwrap();
    assert_eq!(reader.bits_remaining(), 11);
}

#[test]
fn test_alignment() {
    let mut writer = BitStreamWriter::new();
    writer.write_bits(0x1, 3).unwrap();
    assert_eq!(writer.bit_position(), 3);
    writer.align();
    assert_eq!(writer.bit_position(), 8);
}

#[test]
fn test_write_u16_u32() {
    let mut writer = BitStreamWriter::new();
    writer.write_u16(0xABCD).unwrap();
    writer.write_u32(0x12345678).unwrap();

    let bytes = writer.as_bytes();
    let mut reader = BitStreamReader::new(bytes);
    assert_eq!(reader.read_u16().unwrap(), 0xABCD);
    assert_eq!(reader.read_u32().unwrap(), 0x12345678);
}

#[test]
fn bitstream_test_padding() {
    let mut writer = BitStreamWriter::new();
    writer.write_byte(0xFF).unwrap();
    writer.pad_to_minimum(8);
    assert_eq!(writer.len(), 8);
    assert_eq!(writer.as_bytes()[0], 0xFF);
    assert!(writer.as_bytes()[1..].iter().all(|&b| b == 0));
}

#[test]
fn test_error_on_overflow() {
    let data = vec![0xFF];
    let mut reader = BitStreamReader::new(&data);
    reader.skip_bits(8).unwrap();
    assert!(reader.read_bit().is_err());
}

#[test]
fn test_error_on_invalid_bit_count() {
    let mut writer = BitStreamWriter::new();
    assert!(writer.write_bits(0xFF, 0).is_err());
    assert!(writer.write_bits(0xFF, 33).is_err());
}

// Further cases.

#[test]
fn bitstream_write_then_read_wraps_to_width() {
    // A value wider than the field keeps only its low bits.
    let mut writer = BitStreamWriter::new();
    writer.write_bits(0x1234, 8).unwrap();
    let bytes = writer.as_bytes().to_vec();
    let mut reader = BitStreamReader::new(&bytes);
    assert_eq!(reader.read_bits(8).unwrap(), 0x34);
}

#[test]
fn bitstream_read_errors_leave_position() {
    let data = vec![0x0F];
    let mut reader = BitStreamReader::new(&data);
    assert!(reader.read_bits(0).is_err());
    assert!(reader.read_bits(9).is_err());
    assert_eq!(reader.bit_position(), 0);
    assert_eq!(reader.read_bits(4).unwrap(), 0xF);
    assert_eq!(reader.bit_position(), 4);
    assert_eq!(reader.byte_position(), 1);
    assert_eq!(reader.bytes_remaining(), 1);
}

#[test]
fn bitstream_reader_align_and_remaining_bytes() {
    let data = vec![0x01, 0x02, 0x03];
    let mut reader = BitStreamReader::new(&data);
    reader.read_bits(3).unwrap();
    reader.align();
    assert_eq!(reader.bit_position(), 8);
    assert_eq!(reader.remaining_bytes(), &[0x02, 0x03]);
    assert!(reader.skip_bits(17).is_err());
    assert!(reader.skip_bits(16).is_ok());
    assert_eq!(reader.remaining_bytes(), &[] as &[u8]);
}

#[test]
fn bitstream_writer_sizes() {
    let mut writer = BitStreamWriter::with_capacity(4);
    assert!(writer.is_empty());
    writer.write_bits(0x5, 3).unwrap();
    assert_eq!(writer.byte_position(), 1);
    assert_eq!(writer.len(), 1);
    assert!(!writer.is_empty());
    writer.pad_to_minimum(0);
    assert_eq!(writer.len(), 1);
    let bytes = writer.into_bytes();
    assert_eq!(bytes, vec![0x05]);
}

#[test]
fn bitstream_default_writer_is_empty() {
    let writer = BitStreamWriter::default();
    assert_eq!(writer.bit_position(), 0);
    assert!(writer.as_bytes().is_empty());
}

#[test]
fn fields_read_back_in_order() {
    let fields: [(u32, usize); 7] = [
        (5, 3),
        (0xFFFF_FFFF, 32),
        (0x1FF, 8),
        (1, 1),
        (0xABCD, 16),
        (0x1234_5678, 31),
        (0, 2),
    ];
    let mut w = BitStreamWriter::new();
    for (v, n) in fields {
        w.write_bits(v, n).unwrap();
    }
    let total: usize = fields.iter().map(|f| f.1).sum();
    let bytes = w.into_bytes();
    assert_eq!(bytes.len(), (total + 7) / 8);
    let mut r = BitStreamReader::new(&bytes);
    for (v, n) in fields {
        let mask = if n == 32 { u32::MAX } else { (1u32 << n) - 1 };
        assert_eq!(r.read_bits(n).unwrap(), v & mask);
    }
    assert_eq!(r.bit_position(), total);
    assert!(r.bits_remaining() < 8);
}
