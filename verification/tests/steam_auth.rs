use learning::auth::{make_auth_proof, session_token_at, verify_auth_proof, AuthProof};
use learning::auth_codec::{
    decode_auth_accept, decode_auth_challenge, decode_auth_proof, decode_input_packet,
    encode_auth_accept, encode_auth_challenge, encode_auth_hello, encode_auth_proof,
    encode_input_packet, encode_input_payload,
};
use learning::lan_sync::{InputVerdict, STEAM_SYNC_MAGIC, SYNC_MAGIC, SYNC_VERSION};
use learning::steam_auth::{
    format_metrics_overlay_text, metrics_log_line, role_label, SteamNetMetrics, is_enabled_flag, parse_steam_id, parse_steam_ids, steam_role, HostAuthAction, HostPacketAction,
    SteamAuthState, SteamClientAction, SteamClientAuthState, SteamRole,
};

const SECRET: &str = "steam-secret";
const HOST: u64 = 7656119800000001;
const PEER: u64 = 7656119800000002;

fn hello(pid: u64) -> Vec<u8> {
    encode_auth_hello(STEAM_SYNC_MAGIC, SYNC_VERSION, pid)
}

fn reply_bytes(a: HostAuthAction) -> Vec<u8> {
    match a {
        HostAuthAction::Reply(b) => b,
        other => panic!("expected a reply, got {:?}", other),
    }
}

#[test]
fn steam_host_handshake_issues_a_token() {
    let mut host = SteamAuthState::new(None);
    let challenge = reply_bytes(host.process_host_auth_service_packet_at(SECRET, PEER, &hello(42), 999, 5));
    let nonce = decode_auth_challenge(STEAM_SYNC_MAGIC, SYNC_VERSION, &challenge).unwrap();
    assert_eq!(nonce, 999);
    assert_eq!(host.auth_sessions[&PEER].player_id, 42);
    // A second hello keeps the peer's nonce.
    let again = reply_bytes(host.process_host_auth_service_packet_at(SECRET, PEER, &hello(42), 123, 5));
    assert_eq!(decode_auth_challenge(STEAM_SYNC_MAGIC, SYNC_VERSION, &again), Some(999));

    let proof = make_auth_proof(SECRET, 42, nonce);
    let proof_packet = encode_auth_proof(STEAM_SYNC_MAGIC, SYNC_VERSION, proof);
    let accept = reply_bytes(host.process_host_auth_service_packet_at(SECRET, PEER, &proof_packet, 0, 77));
    let token = decode_auth_accept(STEAM_SYNC_MAGIC, SYNC_VERSION, &accept).unwrap();
    assert_eq!(token, session_token_at(SECRET, 42, 999, 77));
    assert_eq!(host.token_to_player[&token], 42);
    assert_eq!(host.auth_sessions[&PEER].token, Some(token));
    assert_eq!(host.metrics.host_auth_hello_received, 2);
    assert_eq!(host.metrics.host_auth_challenges_sent, 2);
    assert_eq!(host.metrics.host_auth_proofs_received, 1);
    assert_eq!(host.metrics.host_auth_accepts_sent, 1);
    assert_eq!(host.metrics.host_auth_rejects, 0);
}

#[test]
fn steam_host_refuses_bad_proofs() {
    let mut host = SteamAuthState::new(None);
    // No session yet.
    let proof = make_auth_proof(SECRET, 42, 5);
    let packet = encode_auth_proof(STEAM_SYNC_MAGIC, SYNC_VERSION, proof);
    assert!(matches!(
        host.process_host_auth_service_packet_at(SECRET, PEER, &packet, 0, 0),
        HostAuthAction::Rejected
    ));
    host.process_host_auth_service_packet_at(SECRET, PEER, &hello(42), 5, 0);
    // Wrong secret, wrong player, wrong nonce.
    for p in [
        make_auth_proof("other", 42, 5),
        make_auth_proof(SECRET, 43, 5),
        make_auth_proof(SECRET, 42, 6),
    ] {
        let packet = encode_auth_proof(STEAM_SYNC_MAGIC, SYNC_VERSION, p);
        assert!(matches!(
            host.process_host_auth_service_packet_at(SECRET, PEER, &packet, 0, 0),
            HostAuthAction::Rejected
        ));
    }
    assert_eq!(host.metrics.host_auth_rejects, 4);
    assert!(host.token_to_player.is_empty());
    // A LAN-tagged hello is not the Steam service's.
    let lan_hello = encode_auth_hello(SYNC_MAGIC, SYNC_VERSION, 42);
    assert!(matches!(
        host.process_host_auth_service_packet_at(SECRET, PEER, &lan_hello, 0, 0),
        HostAuthAction::NotAuth
    ));
}

fn authenticated_host() -> (SteamAuthState, u128) {
    let mut host = SteamAuthState::new(None);
    host.process_host_auth_service_packet_at(SECRET, PEER, &hello(42), 9, 0);
    let proof = encode_auth_proof(STEAM_SYNC_MAGIC, SYNC_VERSION, make_auth_proof(SECRET, 42, 9));
    let accept = reply_bytes(host.process_host_auth_service_packet_at(SECRET, PEER, &proof, 0, 1));
    let token = decode_auth_accept(STEAM_SYNC_MAGIC, SYNC_VERSION, &accept).unwrap();
    (host, token)
}

fn input(token: u128, seq: u32) -> Vec<u8> {
    let payload = encode_input_payload(1, 2, true, [3, 4, 5]);
    encode_input_packet(STEAM_SYNC_MAGIC, SYNC_VERSION, token, seq, &payload)
}

#[test]
fn steam_host_admits_input_once_per_sequence() {
    let (mut host, token) = authenticated_host();
    assert_eq!(
        host.process_host_game_service_packet(PEER, &input(token, 1)),
        InputVerdict::Accepted { player_id: 42, move_x: 1, move_z: 2, jump: true, rgb: [3, 4, 5] }
    );
    assert_eq!(host.process_host_game_service_packet(PEER, &input(token, 1)), InputVerdict::Replay);
    assert_eq!(host.process_host_game_service_packet(HOST, &input(token, 2)), InputVerdict::PeerMismatch);
    assert_eq!(host.process_host_game_service_packet(PEER, &input(token + 1, 2)), InputVerdict::UnknownToken);
    let short = encode_input_packet(STEAM_SYNC_MAGIC, SYNC_VERSION, token, 3, &[0; 4]);
    assert_eq!(host.process_host_game_service_packet(PEER, &short), InputVerdict::BadPayload);
    assert_eq!(host.process_host_game_service_packet(PEER, b"junk"), InputVerdict::NotInput);
    let m = host.metrics;
    assert_eq!(m.host_input_packets_received, 5);
    assert_eq!(m.host_input_packets_accepted, 1);
    assert_eq!(m.host_replay_drops, 1);
    assert_eq!(m.host_peer_mismatch_drops, 1);
    assert_eq!(m.host_token_rejects, 1);
    assert_eq!(m.host_payload_decode_rejects, 1);
    assert_eq!(host.last_input_sequence_by_player[&42], 1);
}

#[test]
fn steam_host_routes_packets_by_service() {
    let (mut host, token) = authenticated_host();
    assert!(matches!(
        host.process_host_packet(SECRET, PEER, &hello(42)),
        HostPacketAction::Auth(HostAuthAction::Reply(_))
    ));
    assert!(matches!(
        host.process_host_packet(SECRET, PEER, &input(token, 4)),
        HostPacketAction::Game(InputVerdict::Accepted { player_id: 42, .. })
    ));
}

#[test]
fn steam_client_handshake_and_input() {
    let mut client = SteamAuthState::new(Some(HOST));
    assert!(client.next_client_input_packet(&[1, 2, 3]).is_none());
    let h = client.begin_client_auth(42);
    assert_eq!(h, hello(42));
    assert_eq!(client.client_auth_state, SteamClientAuthState::AwaitingChallenge);

    // From a stranger: dropped.
    let challenge = encode_auth_challenge(STEAM_SYNC_MAGIC, SYNC_VERSION, 31);
    assert!(matches!(
        client.process_client_packet(SECRET, PEER, 42, &challenge),
        SteamClientAction::PeerMismatch
    ));
    assert_eq!(client.metrics.client_auth_peer_mismatch_drops, 1);

    let proof_packet = match client.process_client_packet(SECRET, HOST, 42, &challenge) {
        SteamClientAction::SendProofToHost(b) => b,
        other => panic!("expected a proof, got {:?}", other),
    };
    let proof: AuthProof = decode_auth_proof(STEAM_SYNC_MAGIC, SYNC_VERSION, &proof_packet).unwrap();
    assert_eq!((proof.player_id, proof.nonce), (42, 31));
    assert!(verify_auth_proof(SECRET, proof));

    let accept = encode_auth_accept(STEAM_SYNC_MAGIC, SYNC_VERSION, 0xABCD);
    assert!(matches!(
        client.process_client_packet(SECRET, HOST, 42, &accept),
        SteamClientAction::Authenticated(0xABCD)
    ));
    assert_eq!(client.client_auth_state, SteamClientAuthState::Authenticated);

    let p1 = client.next_client_input_packet(&[9; 12]).unwrap();
    let p2 = client.next_client_input_packet(&[9; 12]).unwrap();
    assert_eq!(decode_input_packet(STEAM_SYNC_MAGIC, SYNC_VERSION, &p1).unwrap().1, 1);
    assert_eq!(decode_input_packet(STEAM_SYNC_MAGIC, SYNC_VERSION, &p2).unwrap().0, 0xABCD);
    assert_eq!(decode_input_packet(STEAM_SYNC_MAGIC, SYNC_VERSION, &p2).unwrap().1, 2);
    assert_eq!(client.metrics.client_input_packets_sent, 2);
    assert!(matches!(
        client.process_client_packet(SECRET, HOST, 42, b"noise"),
        SteamClientAction::Ignored
    ));
}

#[test]
fn steam_config_flags_roles_and_ids() {
    for v in ["1", "true", "TRUE", "TrUe", "0", "yes", " 1", "true ", "", "11"] {
        assert_eq!(is_enabled_flag(v), v == "1" || v.eq_ignore_ascii_case("true"), "flag {:?}", v);
    }
    assert_eq!(steam_role(Some("true"), true), SteamRole::AuthHost);
    assert_eq!(steam_role(Some("no"), true), SteamRole::UntrustedClient);
    assert_eq!(steam_role(None, false), SteamRole::LegacyPeer);
    for s in ["0", "+5", "-5", "", "+", "18446744073709551615", "18446744073709551616", "007", "1 ", "99999999999999999999999"] {
        assert_eq!(parse_steam_id(s.as_bytes()), s.parse::<u64>().ok(), "id {:?}", s);
    }
    for raw in ["", "1,2,3", " 76561198000000001 , x, 42,,", ",", "5", "1,\u{a0}2\u{a0},3 4"] {
        let want: Vec<u64> = raw.split(',').filter_map(|s| s.trim().parse::<u64>().ok()).collect();
        assert_eq!(parse_steam_ids(raw), want, "list {:?}", raw);
    }
}

fn numbered_metrics() -> SteamNetMetrics {
    SteamNetMetrics {
        client_auth_peer_mismatch_drops: 1,
        client_auth_challenges_received: 2,
        client_auth_proofs_sent: 3,
        client_auth_accepts_received: 4,
        client_input_packets_sent: 5,
        host_auth_hello_received: 6,
        host_auth_challenges_sent: 7,
        host_auth_proofs_received: 8,
        host_auth_accepts_sent: 9,
        host_auth_rejects: 10,
        host_input_packets_received: 11,
        host_input_packets_accepted: 12,
        host_token_rejects: 13,
        host_peer_mismatch_drops: 14,
        host_replay_drops: 15,
        host_payload_decode_rejects: u64::MAX,
    }
}

#[test]
fn metrics_overlay_text_lists_every_counter() {
    let m = numbered_metrics();
    assert_eq!(
        format_metrics_overlay_text(SteamRole::AuthHost, &m),
        "Steam Net Metrics (F5 toggle)\nrole: auth-host\nclient: challenge_rx=2 proof_tx=3 accept_rx=4 auth_peer_drop=1 input_tx=5\nhost: hello_rx=6 challenge_tx=7 proof_rx=8 accept_tx=9 auth_reject=10\nhost input: rx=11 accepted=12 token_reject=13 peer_drop=14 replay_drop=15 payload_reject=18446744073709551615"
    );
    let zero = SteamNetMetrics::new();
    assert!(format_metrics_overlay_text(SteamRole::LegacyPeer, &zero).starts_with("Steam Net Metrics (F5 toggle)\nrole: legacy-peer\nclient: challenge_rx=0 "));
}

#[test]
fn metrics_log_line_lists_every_counter() {
    let m = numbered_metrics();
    assert_eq!(
        metrics_log_line(SteamRole::UntrustedClient, &m),
        "[steam-metrics][untrusted-client] client_auth_peer_mismatch_drops=1 client_auth_challenges_received=2 client_auth_proofs_sent=3 client_auth_accepts_received=4 client_input_packets_sent=5 host_auth_hello_received=6 host_auth_challenges_sent=7 host_auth_proofs_received=8 host_auth_accepts_sent=9 host_auth_rejects=10 host_input_packets_received=11 host_input_packets_accepted=12 host_token_rejects=13 host_peer_mismatch_drops=14 host_replay_drops=15 host_payload_decode_rejects=18446744073709551615"
    );
    assert_eq!(role_label(SteamRole::LegacyPeer), "legacy-peer");
}
