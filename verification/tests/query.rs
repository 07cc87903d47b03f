use learning::protocol::a2s::{
    build_info_request, build_player_request, build_rules_request, parse_response_opcode,
    ChallengeManager, FragmentBuffer, A2S_HEADER, A2S_INFO,
};
use learning::connection::PeerAddr;
use learning::protocol::query::{Query, QueryType};
use learning::protocol::PacketType;

#[test]
fn test_ping_request_creation() {
    let query = Query::ping_request();
    assert_eq!(query.magic, 0x01);
    assert_eq!(query.query_type, QueryType::Ping);
}

#[test]
fn test_ping_response_creation() {
    let query = Query::ping_response(0x1234);
    assert_eq!(query.magic, 0x02);
    assert_eq!(query.key_echo, 0x1234);
    assert_eq!(query.query_type, QueryType::Ping);
}

#[test]
fn test_gameinfo_request_creation() {
    let query = Query::gameinfo_request();
    assert_eq!(query.magic, 0x07);
    assert_eq!(query.query_type, QueryType::GameInfo);
}

#[test]
fn test_query_roundtrip() {
    let original = Query::ping_request();
    let bytes = original.to_bytes();
    let parsed = Query::from_bytes(&bytes).unwrap();

    assert_eq!(parsed.magic, original.magic);
    assert_eq!(parsed.query_type, original.query_type);
}

#[test]
fn test_query_with_key_echo() {
    let mut original = Query::gameinfo_request();
    original.key_echo = 0xABCD;
    original.payload = vec![0x01, 0x02, 0x03];

    let bytes = original.to_bytes();
    let parsed = Query::from_bytes(&bytes).unwrap();

    assert_eq!(parsed.key_echo, 0xABCD);
    assert_eq!(parsed.payload, vec![0x01, 0x02, 0x03]);
}

#[test]
fn test_steamworks_queries() {
    let req = Query::steamworks_info_request();
    assert_eq!(req.magic, 0x62);
    assert_eq!(req.query_type, QueryType::Steamworks);
    assert_eq!(req.payload[0], 0x54);

    let player = Query::steamworks_player_request(-1);
    assert_eq!(player.payload[0], 0x55);
    assert_eq!(&player.payload[1..5], &(-1_i32).to_le_bytes());

    let resp = Query::steamworks_response(0x5678, vec![0x49, 0x00]);
    assert_eq!(resp.magic, 0x63);
    assert_eq!(resp.key_echo, 0x5678);
    assert_eq!(resp.payload, vec![0x49, 0x00]);
}

#[test]
fn test_steamworks_a2s_packet_roundtrip() {
    let query = Query::steamworks_info_request();
    let wire = query.to_a2s_packet().unwrap();
    let parsed = Query::steamworks_from_a2s_packet(&wire).unwrap();

    assert_eq!(parsed.query_type, QueryType::Steamworks);
    assert_eq!(parsed.payload, query.payload);
}

#[test]
fn test_info_request_format() {
    let pkt = build_info_request();
    assert_eq!(&pkt[0..4], &A2S_HEADER);
    assert_eq!(pkt[4], A2S_INFO);
    assert!(pkt.ends_with(b"Source Engine Query\0"));
}

fn localhost(port: u16) -> PeerAddr {
    PeerAddr { ip: 0x7F00_0001, port, is_ipv6: false }
}

#[test]
fn test_challenge_validation() {
    // A time-to-live of 60 seconds, in nanoseconds.
    let mut manager = ChallengeManager::new(60_000_000_000);
    let peer = localhost(28000);
    let challenge = manager.issue(peer);
    assert!(manager.validate(peer, challenge));
    assert!(!manager.validate(peer, challenge.wrapping_add(1)));
}

// Further cases.

#[test]
fn a2s_challenge_value_and_expiry() {
    let mut manager = ChallengeManager::new(10);
    let peer = localhost(28000);
    let c = manager.issue_at(peer, 100);
    assert_eq!(c, (28000i32) ^ 0x5A5A_1234);
    assert!(manager.validate_at(peer, c, 110));
    // Eleven units later the challenge has expired and is forgotten.
    assert!(!manager.validate_at(peer, c, 121));
    assert!(!manager.validate_at(peer, c, 110));
    // Unknown peers never validate.
    assert!(!manager.validate_at(localhost(1), c, 100));
}

#[test]
fn a2s_requests_and_opcodes() {
    let p = build_player_request(7);
    assert_eq!(p, vec![0xFF, 0xFF, 0xFF, 0xFF, 0x55, 7, 0, 0, 0]);
    let r = build_rules_request(-1);
    assert_eq!(r, vec![0xFF, 0xFF, 0xFF, 0xFF, 0x56, 0xFF, 0xFF, 0xFF, 0xFF]);
    assert_eq!(parse_response_opcode(&[0xFF, 0xFF, 0xFF, 0xFF, 0x41]), Some(0x41));
    assert_eq!(parse_response_opcode(&[0xFF, 0xFF, 0xFF, 0xFF]), None);
    assert_eq!(parse_response_opcode(&[0xFE, 0xFF, 0xFF, 0xFF, 0x41]), None);
}

#[test]
fn a2s_fragments_reassemble_in_arrival_order() {
    let mut buf = FragmentBuffer::new();
    buf.insert(5, vec![1, 2]);
    buf.insert(6, vec![9]);
    buf.insert(5, vec![3]);
    assert_eq!(buf.take_reassembled(5), Some(vec![1, 2, 3]));
    assert_eq!(buf.take_reassembled(5), None);
    assert_eq!(buf.take_reassembled(6), Some(vec![9]));
}

#[test]
fn query_errors() {
    assert!(Query::from_bytes(&[1, 2]).is_err());
    assert!(Query::steamworks_from_a2s_packet(&[0xFF, 0xFF, 0xFF]).is_err());
    assert!(Query::ping_request().to_a2s_packet().is_err());
}

#[test]
fn packet_type_names() {
    assert_eq!(PacketType::Ping.text(), "Ping");
    assert_eq!(PacketType::GameInfo.text(), "GameInfo");
    assert_eq!(PacketType::Steamworks.text(), "Steamworks");
    assert_eq!(PacketType::MasterServer.text(), "MasterServer");
    assert_eq!(PacketType::Unknown(0x1f).text(), "Unknown(0x1f)");
    assert_eq!(PacketType::Unknown(0x05).text(), "Unknown(0x05)");
    for b in 0..=255u8 {
        assert_eq!(PacketType::Unknown(b).text(), format!("Unknown(0x{:02x})", b));
    }
}
