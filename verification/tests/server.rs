use learning::auth::{make_auth_proof, mint_session_token, session_token_at, verify_auth_proof};
use learning::client::{ClientAuthState, ClientNetworkManager};
use learning::client::state_sync::PredictedState;
use learning::connection::{Connection, ConnectionState, PeerAddr};
use learning::error::NetError;
use learning::server::session::ClientSession;
use learning::server::{
    PacketDisposition, ServerAuthConfig, ServerEgressPacket, ServerIngressPacket,
    ServerNetworkManager,
};

fn localhost(port: u16) -> PeerAddr {
    PeerAddr { ip: 0x7F00_0001, port, is_ipv6: false }
}

#[test]
fn server_rejects_input_before_auth() {
    let mut server = ServerNetworkManager::new(localhost(35000));
    let client_addr = localhost(41001);
    let (_session_id, challenge) = server.handle_connection_request(client_addr).unwrap();

    let nonce = match challenge {
        ServerEgressPacket::AuthChallenge { nonce } => nonce,
        _ => panic!("expected challenge"),
    };

    let rejected = server
        .process_client_packet(
            client_addr,
            ServerIngressPacket::ClientInput {
                session_token: 123,
                input_sequence: 1,
                payload: &[1, 2, 3],
            },
        )
        .unwrap();
    assert_eq!(rejected, PacketDisposition::Rejected);

    let proof = make_auth_proof("dev-auth-secret", 42, nonce);
    let accepted = server
        .process_client_packet(client_addr, ServerIngressPacket::AuthResponse { proof })
        .unwrap();
    assert_eq!(accepted, PacketDisposition::Accepted);
}

// Further cases.

#[test]
fn server_full_handshake_then_inputs_in_order() {
    let mut server = ServerNetworkManager::new(localhost(35000));
    let addr = localhost(41002);
    let (sid, challenge) = server.handle_connection_request(addr).unwrap();
    let nonce = match challenge {
        ServerEgressPacket::AuthChallenge { nonce } => nonce,
        _ => panic!("expected challenge"),
    };
    // A second request from the same address reuses the session.
    let (sid2, again) = server.handle_connection_request(addr).unwrap();
    assert_eq!(sid, sid2);
    assert_eq!(again, ServerEgressPacket::AuthChallenge { nonce });

    // A proof with the wrong secret is refused.
    let bad = make_auth_proof("wrong", 42, nonce);
    assert_eq!(
        server.process_client_packet(addr, ServerIngressPacket::AuthResponse { proof: bad }).unwrap(),
        PacketDisposition::Rejected
    );

    let proof = make_auth_proof("dev-auth-secret", 42, nonce);
    assert_eq!(
        server.process_client_packet(addr, ServerIngressPacket::AuthResponse { proof }).unwrap(),
        PacketDisposition::Accepted
    );
    let token = server.sessions.get(&sid).unwrap().session_token.unwrap();

    let input = |seq: u32| ServerIngressPacket::ClientInput {
        session_token: token,
        input_sequence: seq,
        payload: &[7],
    };
    assert_eq!(server.process_client_packet(addr, input(1)).unwrap(), PacketDisposition::Accepted);
    // A replayed or older sequence number is refused.
    assert_eq!(server.process_client_packet(addr, input(1)).unwrap(), PacketDisposition::Rejected);
    assert_eq!(server.process_client_packet(addr, input(2)).unwrap(), PacketDisposition::Accepted);
    // A wrong token is refused.
    let forged = ServerIngressPacket::ClientInput { session_token: token ^ 1, input_sequence: 3, payload: &[] };
    assert_eq!(server.process_client_packet(addr, forged).unwrap(), PacketDisposition::Rejected);
    // An unknown address is refused.
    assert_eq!(server.process_client_packet(localhost(9), input(5)).unwrap(), PacketDisposition::Rejected);

    server.close_session(sid);
    assert!(server.sessions.get(&sid).is_none());
    assert_eq!(server.process_client_packet(addr, input(6)).unwrap(), PacketDisposition::Rejected);
}

#[test]
fn server_default_secrets_and_stubs() {
    let cfg = ServerAuthConfig::default();
    assert_eq!(cfg.auth_secret, "dev-auth-secret");
    assert_eq!(cfg.token_secret, "dev-token-secret");
    let mut server = ServerNetworkManager::with_auth(localhost(1), cfg);
    assert!(server.listen().is_ok());
    assert!(server.broadcast_state(&[1, 2]).is_ok());
}

#[test]
fn auth_proofs_and_tokens() {
    let p = make_auth_proof("secret", 7, 99);
    assert_eq!(p.player_id, 7);
    assert_eq!(p.nonce, 99);
    assert!(verify_auth_proof("secret", p));
    assert!(!verify_auth_proof("other", p));
    let mut q = p;
    q.nonce = 100;
    assert!(!verify_auth_proof("secret", q));
    // The token is a function of the secret, the identity and the time.
    assert_eq!(session_token_at("s", 1, 2, 3), session_token_at("s", 1, 2, 3));
    assert_ne!(session_token_at("s", 1, 2, 3), session_token_at("s", 1, 2, 4));
    let _ = mint_session_token("s", 1, 2);
}

#[test]
fn client_session_sequences() {
    let mut s = ClientSession::new(1, localhost(2), 77);
    assert!(!s.is_authenticated());
    assert!(s.accepts_input_sequence(1));
    s.mark_authenticated(5, 1234);
    assert!(s.is_authenticated());
    assert_eq!(s.state, ConnectionState::Active);
    assert!(s.accepts_input_sequence(3));
    assert!(!s.accepts_input_sequence(3));
    assert!(!s.accepts_input_sequence(2));
    assert!(s.accepts_input_sequence(4));
    s.update_state(vec![1, 2]);
    assert_eq!(s.serialize_state(), vec![1, 2]);
    s.close();
    assert_eq!(s.state, ConnectionState::Closed);
}

#[test]
fn client_manager_flow() {
    let mut c = ClientNetworkManager::with_identity(localhost(3), 42, "k".to_string());
    assert_eq!(c.next_input_packet(&[1]).unwrap_err(), NetError::PermissionDenied);
    c.connect().unwrap();
    assert_eq!(c.state, ConnectionState::Connecting);
    assert_eq!(c.auth_state, ClientAuthState::AwaitingChallenge);
    let proof = c.respond_to_challenge(5);
    assert!(verify_auth_proof("k", proof));
    c.mark_authenticated(9);
    let p1 = c.next_input_packet(&[1, 2]).unwrap();
    assert_eq!(p1.session_token, 9);
    assert_eq!(p1.input_sequence, 1);
    assert_eq!(p1.payload, &[1, 2]);
    let p2 = c.next_input_packet(&[]).unwrap();
    assert_eq!(p2.input_sequence, 2);
    assert!(c.receive_state_update(&[0]).is_ok());
}

#[test]
fn connection_lifecycle_and_sequences() {
    let mut conn = Connection::new(1, localhost(4));
    assert_eq!(conn.state, ConnectionState::Idle);
    conn.advance_state();
    assert_eq!(conn.state, ConnectionState::Connecting);
    conn.advance_state();
    assert_eq!(conn.state, ConnectionState::Active);
    conn.advance_state();
    assert_eq!(conn.state, ConnectionState::Active);
    assert_eq!(conn.next_sequence(), 1);
    assert_eq!(conn.next_sequence(), 2);
    conn.close();
    assert_eq!(conn.state, ConnectionState::Closed);
}

#[test]
fn predicted_state_keeps_updates() {
    let mut p = PredictedState::new();
    p.add_prediction(vec![1]);
    p.add_prediction(vec![2]);
    assert_eq!(p.pending_updates, vec![vec![1], vec![2]]);
    assert!(p.reconcile(&[]).is_ok());
    let d = PredictedState::default();
    assert!(d.pending_updates.is_empty());
}
