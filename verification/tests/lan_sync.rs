use learning::auth::make_auth_proof;
use learning::auth_codec::{
    decode_auth_accept, decode_auth_challenge, decode_auth_proof, encode_auth_accept,
    encode_auth_challenge, encode_auth_hello, encode_auth_proof, encode_input_packet,
    encode_input_payload, encode_snapshot_packet,
};
use learning::client::{ClientAuthState, ClientNetworkManager};
use learning::connection::PeerAddr;
use learning::lan_sync::{
    process_auth_service_packet, process_client_packet, process_peer_packet, AuthServiceAction,
    ClientAction, InputGuard, InputVerdict, PeerEvent, PACKET_FREEZE, PACKET_JOIN, PACKET_LEAVE,
    PACKET_PROJECTILE, PACKET_STATE, SYNC_MAGIC, SYNC_VERSION,
};
use learning::server::ServerNetworkManager;
use learning::sync_codec::{
    decode_state_packet, encode_freeze_packet, encode_projectile_packet, encode_state_packet,
    SeenProjectiles, StateBody,
};

fn body(t: [f32; 3], r: [f32; 4], c: [f32; 3]) -> StateBody {
    StateBody {
        translation: t.map(f32::to_bits),
        rotation: r.map(f32::to_bits),
        color: c.map(f32::to_bits),
    }
}

fn state_packet(packet_type: u8, player_id: u64, b: &StateBody) -> Vec<u8> {
    encode_state_packet(SYNC_MAGIC, SYNC_VERSION, packet_type, PACKET_LEAVE, player_id, b)
}

const TTL_MS: u64 = 15_000;

#[test]
fn multiplayer_test_state_packet_roundtrip() {
    let b = body([1.25, 2.5, -3.0], [0.1, 0.2, 0.3, 0.9], [0.25, 0.5, 0.75]);
    let packet = state_packet(PACKET_STATE, 42, &b);
    let parsed = decode_state_packet(SYNC_MAGIC, SYNC_VERSION, PACKET_LEAVE, &packet).unwrap();
    assert_eq!(parsed.0, PACKET_STATE);
    assert_eq!(parsed.1, 42);
    assert_eq!(parsed.2.unwrap().translation, b.translation);
    assert_eq!(parsed.2.unwrap().rotation, b.rotation);
    assert_eq!(parsed.2.unwrap().color[0], b.color[0]);
}

#[test]
fn test_leave_packet_roundtrip() {
    let b = body([0.0; 3], [0.0, 0.0, 0.0, 1.0], [1.0, 1.0, 1.0]);
    let packet = state_packet(PACKET_LEAVE, 77, &b);
    let parsed = decode_state_packet(SYNC_MAGIC, SYNC_VERSION, PACKET_LEAVE, &packet).unwrap();
    assert_eq!(parsed.0, PACKET_LEAVE);
    assert_eq!(parsed.1, 77);
    assert!(parsed.2.is_none());
}

#[test]
fn test_ingress_lifecycle_join_state_leave() {
    let mut seen = SeenProjectiles::new();
    let local_player_id = 1;
    let remote_player_id = 42;

    let join = body([1.0, 2.0, 3.0], [0.0, 0.0, 0.0, 1.0], [0.2, 0.3, 0.4]);
    let join_packet = state_packet(PACKET_JOIN, remote_player_id, &join);
    let ev = process_peer_packet(SYNC_MAGIC, SYNC_VERSION, local_player_id, &join_packet, &mut seen, 0, TTL_MS);
    assert_eq!(ev, PeerEvent::State { player_id: remote_player_id, body: join });

    let state = body([4.0, 5.0, 6.0], [0.0, 0.0, 0.0, 1.0], [0.8, 0.7, 0.6]);
    let state_pkt = state_packet(PACKET_STATE, remote_player_id, &state);
    let ev = process_peer_packet(SYNC_MAGIC, SYNC_VERSION, local_player_id, &state_pkt, &mut seen, 10, TTL_MS);
    match ev {
        PeerEvent::State { player_id, body } => {
            assert_eq!(player_id, remote_player_id);
            assert_eq!(body.translation, state.translation);
        }
        other => panic!("expected state, got {other:?}"),
    }

    let leave_packet = state_packet(PACKET_LEAVE, remote_player_id, &body([0.0; 3], [0.0; 4], [1.0; 3]));
    let ev = process_peer_packet(SYNC_MAGIC, SYNC_VERSION, local_player_id, &leave_packet, &mut seen, 20, TTL_MS);
    assert_eq!(ev, PeerEvent::Leave { player_id: remote_player_id });
}

#[test]
fn test_ingress_projectile_dedup_and_freeze() {
    let mut seen = SeenProjectiles::new();
    let local_player_id = 1;
    let remote_player_id = 9;

    let projectile_packet = encode_projectile_packet(
        SYNC_MAGIC,
        SYNC_VERSION,
        PACKET_PROJECTILE,
        remote_player_id,
        7,
        [1.0f32.to_bits(), 2.0f32.to_bits(), 3.0f32.to_bits()],
        [4.0f32.to_bits(), 5.0f32.to_bits(), 6.0f32.to_bits()],
        1.25f32.to_bits(),
    );
    let first = process_peer_packet(SYNC_MAGIC, SYNC_VERSION, local_player_id, &projectile_packet, &mut seen, 100, TTL_MS);
    let second = process_peer_packet(SYNC_MAGIC, SYNC_VERSION, local_player_id, &projectile_packet, &mut seen, 101, TTL_MS);
    match first {
        PeerEvent::Projectile { sender_id, projectile } => {
            assert_eq!(sender_id, remote_player_id);
            assert_eq!(projectile.projectile_id, 7);
        }
        other => panic!("expected projectile, got {other:?}"),
    }
    assert_eq!(second, PeerEvent::Ignored);

    let freeze_packet = encode_freeze_packet(SYNC_MAGIC, SYNC_VERSION, PACKET_FREEZE, remote_player_id, local_player_id);
    let ev = process_peer_packet(SYNC_MAGIC, SYNC_VERSION, local_player_id, &freeze_packet, &mut seen, 102, TTL_MS);
    assert_eq!(ev, PeerEvent::Freeze { target_id: local_player_id });
}

// Further cases.

#[test]
fn peer_packets_from_self_are_ignored() {
    let mut seen = SeenProjectiles::new();
    let b = body([1.0; 3], [0.0, 0.0, 0.0, 1.0], [0.5; 3]);
    let own = state_packet(PACKET_STATE, 5, &b);
    assert_eq!(process_peer_packet(SYNC_MAGIC, SYNC_VERSION, 5, &own, &mut seen, 0, TTL_MS), PeerEvent::Ignored);
    let own_projectile = encode_projectile_packet(SYNC_MAGIC, SYNC_VERSION, PACKET_PROJECTILE, 5, 1, [0; 3], [0; 3], 0);
    assert_eq!(process_peer_packet(SYNC_MAGIC, SYNC_VERSION, 5, &own_projectile, &mut seen, 0, TTL_MS), PeerEvent::Ignored);
    assert_eq!(seen.len(), 0);
    assert_eq!(process_peer_packet(SYNC_MAGIC, SYNC_VERSION, 5, &[1, 2, 3], &mut seen, 0, TTL_MS), PeerEvent::Ignored);
}

fn addr(port: u16) -> PeerAddr {
    PeerAddr { ip: 0x7F00_0001, port, is_ipv6: false }
}

#[test]
fn input_gate_verdicts() {
    let mut guard = InputGuard::new();
    guard.register_token(500, 42);
    let payload = encode_input_payload(1, 2, true, [9, 8, 7]);
    let pkt = |token: u128, seq: u32, p: &[u8]| encode_input_packet(SYNC_MAGIC, SYNC_VERSION, token, seq, p);

    assert_eq!(guard.admit_input(SYNC_MAGIC, SYNC_VERSION, addr(1), &[0; 3]), InputVerdict::NotInput);
    assert_eq!(guard.admit_input(SYNC_MAGIC, SYNC_VERSION, addr(1), &pkt(501, 1, &payload)), InputVerdict::UnknownToken);
    assert_eq!(
        guard.admit_input(SYNC_MAGIC, SYNC_VERSION, addr(1), &pkt(500, 1, &payload)),
        InputVerdict::Accepted { player_id: 42, move_x: 1, move_z: 2, jump: true, rgb: [9, 8, 7] }
    );
    assert_eq!(guard.admit_input(SYNC_MAGIC, SYNC_VERSION, addr(1), &pkt(500, 1, &payload)), InputVerdict::Replay);
    assert_eq!(guard.admit_input(SYNC_MAGIC, SYNC_VERSION, addr(2), &pkt(500, 2, &payload)), InputVerdict::PeerMismatch);
    assert_eq!(guard.admit_input(SYNC_MAGIC, SYNC_VERSION, addr(1), &pkt(500, 2, &[1, 2])), InputVerdict::BadPayload);
    // A payload that failed to decode does not consume the sequence number.
    assert!(matches!(
        guard.admit_input(SYNC_MAGIC, SYNC_VERSION, addr(1), &pkt(500, 2, &payload)),
        InputVerdict::Accepted { .. }
    ));
    assert_eq!(guard.last_input_sequence_by_player.get(&42), Some(&2));
}

#[test]
fn host_auth_service_and_client_handshake() {
    let mut server = ServerNetworkManager::new(addr(34567));
    let mut guard = InputGuard::new();
    let client_addr = addr(40000);
    let mut client = ClientNetworkManager::with_identity(client_addr, 77, "dev-auth-secret".to_string());
    client.connect().unwrap();

    let hello = encode_auth_hello(SYNC_MAGIC, SYNC_VERSION, 77);
    let challenge = match process_auth_service_packet(&mut server, &mut guard, SYNC_MAGIC, SYNC_VERSION, client_addr, &hello) {
        AuthServiceAction::Reply(bytes) => bytes,
        other => panic!("expected a challenge, got {other:?}"),
    };
    let nonce = decode_auth_challenge(SYNC_MAGIC, SYNC_VERSION, &challenge).unwrap();
    let sid = server.session_by_addr.get(&client_addr).unwrap();
    assert_eq!(server.sessions.get(&sid).unwrap().player_id, Some(77));

    let proof_bytes = match process_client_packet(&mut client, SYNC_MAGIC, SYNC_VERSION, &challenge) {
        ClientAction::SendProof(bytes) => bytes,
        other => panic!("expected a proof, got {other:?}"),
    };
    assert_eq!(client.auth_state, ClientAuthState::AwaitingAcceptance);
    assert_eq!(decode_auth_proof(SYNC_MAGIC, SYNC_VERSION, &proof_bytes), Some(make_auth_proof("dev-auth-secret", 77, nonce)));

    let (accept, token) = match process_auth_service_packet(&mut server, &mut guard, SYNC_MAGIC, SYNC_VERSION, client_addr, &proof_bytes) {
        AuthServiceAction::Accepted { reply, player_id, token } => {
            assert_eq!(player_id, 77);
            (reply, token)
        }
        other => panic!("expected an accept, got {other:?}"),
    };
    assert_eq!(decode_auth_accept(SYNC_MAGIC, SYNC_VERSION, &accept), Some(token));
    assert_eq!(guard.token_to_player.get(&token), Some(&77));

    match process_client_packet(&mut client, SYNC_MAGIC, SYNC_VERSION, &accept) {
        ClientAction::Authenticated(t) => assert_eq!(t, token),
        other => panic!("expected authentication, got {other:?}"),
    }
    assert_eq!(client.session_token, Some(token));

    // A proof with a wrong digest is refused and changes nothing.
    let bad = encode_auth_proof(SYNC_MAGIC, SYNC_VERSION, make_auth_proof("wrong", 77, nonce));
    assert!(matches!(
        process_auth_service_packet(&mut server, &mut guard, SYNC_MAGIC, SYNC_VERSION, addr(1), &bad),
        AuthServiceAction::Handled
    ));
    // Game traffic is not for the auth service.
    let input = encode_input_packet(SYNC_MAGIC, SYNC_VERSION, token, 1, &[0; 12]);
    assert!(matches!(
        process_auth_service_packet(&mut server, &mut guard, SYNC_MAGIC, SYNC_VERSION, client_addr, &input),
        AuthServiceAction::NotAuth
    ));

    // Snapshots reach the client as entries.
    let snap = encode_snapshot_packet(SYNC_MAGIC, SYNC_VERSION, &[(77, [1, 2, 3], [4, 5, 6])]);
    match process_client_packet(&mut client, SYNC_MAGIC, SYNC_VERSION, &snap) {
        ClientAction::Snapshot(v) => assert_eq!(v, vec![(77, [1, 2, 3], [4, 5, 6])]),
        other => panic!("expected a snapshot, got {other:?}"),
    }
    let _ = encode_auth_challenge(SYNC_MAGIC, SYNC_VERSION, 0);
    let _ = encode_auth_accept(SYNC_MAGIC, SYNC_VERSION, 0);
}
