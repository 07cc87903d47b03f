use learning::bitstream::{BitStreamReader, BitStreamWriter};
use learning::error::NetError;
use learning::protocol::gameinfo::{GameInfo, PlayerInfo};

#[test]
fn test_gameinfo_creation() {
    let info = GameInfo::new();
    assert_eq!(info.player_count, 0);
    assert_eq!(info.max_players, 0);
    assert!(info.players.is_empty());
}

#[test]
fn test_gameinfo_roundtrip() {
    let mut original = GameInfo::new();
    original.name = "Test".to_string();
    original.game_type = "CTF".to_string();
    original.mission = "Map".to_string();
    original.player_count = 2;
    original.max_players = 8;

    let mut writer = BitStreamWriter::new();
    original.to_bitstream(&mut writer).unwrap();
    let bytes = writer.as_bytes().to_vec();

    println!("Serialized {} bytes", bytes.len());

    let mut reader = BitStreamReader::new(&bytes);
    let parsed = GameInfo::from_bitstream(&mut reader).unwrap();

    assert_eq!(parsed.name, original.name);
    assert_eq!(parsed.game_type, original.game_type);
    assert_eq!(parsed.mission, original.mission);
}

// Further cases.

#[test]
fn gameinfo_roundtrip_with_players() {
    let mut original = GameInfo::default();
    original.flags = 0xDEAD_BEEF;
    original.name = "Tribes Server".to_string();
    original.game_type = "CTF".to_string();
    original.mission = "Raindance".to_string();
    original.max_players = 16; // capped to 15 on the wire
    original.cpu_speed = 70000; // capped to 65535
    original.bandwidth = 128;
    original.players = vec![
        PlayerInfo { name: "Alpha".to_string(), score: 10, ping: 50 },
        PlayerInfo { name: "Bravo".to_string(), score: -1, ping: 100_000 },
    ];
    original.player_count = 2;

    let mut writer = BitStreamWriter::new();
    original.to_bitstream(&mut writer).unwrap();
    let end = writer.bit_position();
    let bytes = writer.into_bytes();
    let mut reader = BitStreamReader::new(&bytes);
    let parsed = GameInfo::from_bitstream(&mut reader).unwrap();

    assert_eq!(reader.bit_position(), end);
    assert_eq!(parsed.flags, 0xDEAD_BEEF);
    assert_eq!(parsed.name, "Tribes Server");
    assert_eq!(parsed.mission, "Raindance");
    assert_eq!(parsed.player_count, 2);
    assert_eq!(parsed.max_players, 15);
    assert_eq!(parsed.cpu_speed, 65535);
    assert_eq!(parsed.bandwidth, 128);
    assert_eq!(parsed.players.len(), 2);
    assert_eq!(parsed.players[0].name, "Alpha");
    assert_eq!(parsed.players[0].score, 10);
    assert_eq!(parsed.players[0].ping, 50);
    // The low 16 bits of -1, and a ping capped at 65535.
    assert_eq!(parsed.players[1].score, 65535);
    assert_eq!(parsed.players[1].ping, 65535);
}

#[test]
fn gameinfo_truncated_input_fails() {
    let data = [0u8; 3];
    let mut reader = BitStreamReader::new(&data);
    assert_eq!(GameInfo::from_bitstream(&mut reader).unwrap_err(), NetError::UnexpectedEof);

    let mut original = GameInfo::new();
    original.name = "A".to_string();
    original.game_type = "B".to_string();
    original.mission = "C".to_string();
    let mut writer = BitStreamWriter::new();
    original.to_bitstream(&mut writer).unwrap();
    let bytes = writer.into_bytes();
    let cut = &bytes[..bytes.len() - 1];
    let mut reader = BitStreamReader::new(cut);
    assert_eq!(GameInfo::from_bitstream(&mut reader).unwrap_err(), NetError::UnexpectedEof);
}

#[test]
fn gameinfo_empty_strings_roundtrip() {
    // Each empty string is a two-byte block: 4 + 3 * 2 + 1 + 4 bytes in all.
    let original = GameInfo::new();
    let mut writer = BitStreamWriter::new();
    original.to_bitstream(&mut writer).unwrap();
    let bytes = writer.into_bytes();
    assert_eq!(bytes.len(), 15);
    let mut reader = BitStreamReader::new(&bytes);
    let parsed = GameInfo::from_bitstream(&mut reader).unwrap();
    assert_eq!(parsed.flags, 0);
    assert_eq!(parsed.name, "");
    assert_eq!(parsed.game_type, "");
    assert_eq!(parsed.mission, "");
    assert_eq!(parsed.player_count, 0);
    assert_eq!(parsed.max_players, 0);
    assert_eq!(parsed.cpu_speed, 0);
    assert_eq!(parsed.bandwidth, 0);
    assert!(parsed.players.is_empty());

    let mut mixed = GameInfo::new();
    mixed.game_type = "CTF".to_string();
    mixed.players.push(PlayerInfo { name: String::new(), score: 3, ping: 40 });
    mixed.player_count = 1;
    let mut writer = BitStreamWriter::new();
    mixed.to_bitstream(&mut writer).unwrap();
    let bytes = writer.into_bytes();
    let mut reader = BitStreamReader::new(&bytes);
    let parsed = GameInfo::from_bitstream(&mut reader).unwrap();
    assert_eq!(parsed.name, "");
    assert_eq!(parsed.game_type, "CTF");
    assert_eq!(parsed.players.len(), 1);
    assert_eq!(parsed.players[0].name, "");
    assert_eq!(parsed.players[0].score, 3);
    assert_eq!(parsed.players[0].ping, 40);
}

#[test]
fn gameinfo_rejects_more_than_fifteen_players() {
    let mut info = GameInfo::new();
    for k in 0..16 {
        info.players.push(PlayerInfo { name: format!("p{k}"), score: k, ping: 10 });
    }
    let mut writer = BitStreamWriter::new();
    assert_eq!(info.to_bitstream(&mut writer).unwrap_err(), NetError::InvalidInput);
    assert!(writer.is_empty());
    info.players.pop();
    let mut writer = BitStreamWriter::new();
    assert!(info.to_bitstream(&mut writer).is_ok());
}
