use learning::bitstream::BitStreamWriter;
use learning::error::NetError;
use learning::packet::Packet;

const MIN_PACKET_SIZE: usize = 8;

#[test]
fn test_packet_creation() {
    let packet = Packet::new(0x10);
    assert_eq!(packet.magic, 0x10);
    assert_eq!(packet.key_echo, 0);
    assert!(packet.payload.is_empty());
}

#[test]
fn test_packet_roundtrip() {
    let mut sent = Packet::new(0x08);
    sent.key_echo = 0x1234;
    sent.payload = vec![0xAA, 0xBB, 0xCC];

    let bytes = sent.to_bytes();
    let parsed = Packet::from_bytes(&bytes).unwrap();

    assert_eq!(parsed.magic, sent.magic);
    assert_eq!(parsed.key_echo, sent.key_echo);
    assert_eq!(parsed.payload, sent.payload);
}

#[test]
fn packet_test_padding() {
    let mut packet = Packet::new(0x10);
    packet.payload = vec![0x01, 0x02];
    packet.apply_padding();

    let total_size = packet.packet_size();
    assert!(total_size >= MIN_PACKET_SIZE);
    assert_eq!(total_size, MIN_PACKET_SIZE);
}

#[test]
fn test_padding_already_large() {
    let mut packet = Packet::new(0x10);
    packet.payload = vec![0; 20];
    let original_size = packet.packet_size();

    packet.apply_padding();

    assert_eq!(packet.packet_size(), original_size);
}

#[test]
fn test_packet_size() {
    let mut packet = Packet::new(0x08);
    assert_eq!(packet.packet_size(), 3);

    packet.payload = vec![1, 2, 3, 4, 5];
    assert_eq!(packet.packet_size(), 8);
}

#[test]
fn test_bitstream_payload() {
    let mut writer = BitStreamWriter::new();
    writer.write_byte(0xFF).unwrap();
    writer.write_u16(0x1234).unwrap();

    let mut packet = Packet::new(0x07);
    packet = packet.with_bitstream_payload(&writer);

    let mut reader = packet.payload_as_bitstream();
    assert_eq!(reader.read_byte().unwrap(), 0xFF);
    assert_eq!(reader.read_u16().unwrap(), 0x1234);
}

// Further cases.

#[test]
fn packet_wire_layout() {
    let mut p = Packet::new(0x03);
    p.key_echo = 0xBEEF;
    p.payload = vec![9];
    assert_eq!(p.to_bytes(), vec![0x03, 0xEF, 0xBE, 9]);
}

#[test]
fn packet_short_inputs() {
    assert_eq!(Packet::from_bytes(&[]).unwrap_err(), NetError::InvalidData);
    // Below three bytes the key echo reads as 0.
    let short = Packet::from_bytes(&[1, 2]).unwrap();
    assert_eq!(short.magic, 1);
    assert_eq!(short.key_echo, 0);
    assert!(short.payload.is_empty());
    let p = Packet::from_bytes(&[1, 2, 3]).unwrap();
    assert_eq!(p.magic, 1);
    assert_eq!(p.key_echo, 0x0302);
    assert!(p.payload.is_empty());
}

#[test]
fn packet_padding_to_size() {
    let mut p = Packet::new(1);
    p.apply_padding_to(12);
    assert_eq!(p.packet_size(), 12);
    assert!(p.payload.iter().all(|&b| b == 0));
}
