use learning::auth::AuthProof;
use learning::auth_codec::{
    decode_auth_accept, decode_auth_challenge, decode_auth_hello, decode_auth_proof,
    decode_input_packet, decode_input_payload, decode_snapshot_packet, encode_auth_accept,
    encode_auth_challenge, encode_auth_hello, encode_auth_proof, encode_input_packet,
    encode_input_payload, encode_snapshot_packet,
};
use learning::sync_codec::{
    accept_recent_projectile, decode_freeze_packet, decode_projectile_packet, decode_state_packet,
    encode_freeze_packet, encode_projectile_packet, encode_state_packet, is_finite_bits,
    SeenProjectiles, StateBody,
};

const TEST_MAGIC: [u8; 4] = *b"TST0";
const TEST_VERSION: u8 = 1;

/// A color channel in 0..=1 as the byte the encoders put on the wire.
fn channel(c: f32) -> u8 {
    (c.clamp(0.0, 1.0) * 255.0) as u8
}

#[test]
fn auth_hello_roundtrip() {
    let encoded = encode_auth_hello(TEST_MAGIC, TEST_VERSION, 42);
    let decoded = decode_auth_hello(TEST_MAGIC, TEST_VERSION, &encoded);
    assert_eq!(decoded, Some(42));
}

#[test]
fn auth_challenge_roundtrip() {
    let encoded = encode_auth_challenge(TEST_MAGIC, TEST_VERSION, 99);
    let decoded = decode_auth_challenge(TEST_MAGIC, TEST_VERSION, &encoded);
    assert_eq!(decoded, Some(99));
}

#[test]
fn auth_proof_roundtrip() {
    let proof = AuthProof { player_id: 7, nonce: 77, digest: 777 };
    let encoded = encode_auth_proof(TEST_MAGIC, TEST_VERSION, proof);
    let decoded = decode_auth_proof(TEST_MAGIC, TEST_VERSION, &encoded);
    assert_eq!(decoded, Some(proof));
}

#[test]
fn auth_accept_roundtrip() {
    let token: u128 = 123456789;
    let encoded = encode_auth_accept(TEST_MAGIC, TEST_VERSION, token);
    let decoded = decode_auth_accept(TEST_MAGIC, TEST_VERSION, &encoded);
    assert_eq!(decoded, Some(token));
}

#[test]
fn input_packet_roundtrip() {
    let rgb = [channel(0.2), channel(0.4), channel(0.6)];
    let payload = encode_input_payload(0.5f32.to_bits(), (-0.25f32).to_bits(), true, rgb);
    let encoded = encode_input_packet(TEST_MAGIC, TEST_VERSION, 88, 5, &payload);
    let decoded = decode_input_packet(TEST_MAGIC, TEST_VERSION, &encoded).unwrap();
    assert_eq!(decoded.0, 88);
    assert_eq!(decoded.1, 5);

    let input = decode_input_payload(&decoded.2).unwrap();
    assert!((f32::from_bits(input.0) - 0.5).abs() < 0.0001);
    assert!((f32::from_bits(input.1) + 0.25).abs() < 0.0001);
    assert!(input.2);
}

#[test]
fn snapshot_roundtrip() {
    let states = vec![
        (1u64, [1.0f32.to_bits(), 2.0f32.to_bits(), 3.0f32.to_bits()], [channel(0.1), channel(0.2), channel(0.3)]),
        (2u64, [(-1.0f32).to_bits(), 0.5f32.to_bits(), 4.0f32.to_bits()], [channel(0.8), channel(0.4), channel(0.2)]),
    ];

    let encoded = encode_snapshot_packet(TEST_MAGIC, TEST_VERSION, &states);
    let decoded = decode_snapshot_packet(TEST_MAGIC, TEST_VERSION, &encoded).unwrap();
    assert_eq!(decoded.len(), 2);
    assert_eq!(decoded[0].0, 1);
    assert_eq!(decoded[1].0, 2);
    assert!((f32::from_bits(decoded[0].1[0]) - 1.0).abs() < 0.0001);
    assert!((f32::from_bits(decoded[1].1[2]) - 4.0).abs() < 0.0001);
}

fn body(t: [f32; 3], r: [f32; 4], c: [f32; 3]) -> StateBody {
    StateBody {
        translation: t.map(f32::to_bits),
        rotation: r.map(f32::to_bits),
        color: c.map(f32::to_bits),
    }
}

#[test]
fn sync_codec_test_state_packet_roundtrip() {
    let b = body([1.25, 2.5, -3.0], [0.1, 0.2, 0.3, 0.9], [0.25, 0.5, 0.75]);
    let packet = encode_state_packet(TEST_MAGIC, TEST_VERSION, 1, 3, 42, &b);
    let parsed = decode_state_packet(TEST_MAGIC, TEST_VERSION, 3, &packet).unwrap();
    assert_eq!(parsed.0, 1);
    assert_eq!(parsed.1, 42);
    assert_eq!(parsed.2, Some(b));
}

#[test]
fn test_state_packet_rejects_nonfinite_values() {
    let b = body([0.0; 3], [0.0, 0.0, 0.0, 1.0], [0.1, 0.2, 0.3]);
    let mut packet = encode_state_packet(TEST_MAGIC, TEST_VERSION, 1, 3, 7, &b);

    let nan = f32::NAN.to_le_bytes();
    let rotation_x_offset = 6 + 8 + 12;
    packet[rotation_x_offset..rotation_x_offset + 4].copy_from_slice(&nan);

    assert!(decode_state_packet(TEST_MAGIC, TEST_VERSION, 3, &packet).is_none());
}

#[test]
fn test_state_packet_leave_contract_rejects_trailing_payload() {
    let b = body([0.0; 3], [0.0, 0.0, 0.0, 1.0], [1.0, 1.0, 1.0]);
    let mut packet = encode_state_packet(TEST_MAGIC, TEST_VERSION, 3, 3, 99, &b);
    assert_eq!(packet.len(), 14);
    assert_eq!(decode_state_packet(TEST_MAGIC, TEST_VERSION, 3, &packet), Some((3, 99, None)));

    packet.extend_from_slice(&[0u8; 4]);
    assert!(decode_state_packet(TEST_MAGIC, TEST_VERSION, 3, &packet).is_none());
}

#[test]
fn test_freeze_packet_roundtrip() {
    let packet = encode_freeze_packet(TEST_MAGIC, TEST_VERSION, 4, 11, 27);
    let parsed = decode_freeze_packet(TEST_MAGIC, TEST_VERSION, 4, &packet).unwrap();

    assert_eq!(parsed, (11, 27));
}

#[test]
fn test_freeze_packet_contract_matrix() {
    let packet = encode_freeze_packet(TEST_MAGIC, TEST_VERSION, 4, 11, 27);

    let mut bad_magic = packet.clone();
    bad_magic[0] = b'X';
    let mut bad_version = packet.clone();
    bad_version[4] = TEST_VERSION + 1;
    let mut bad_type = packet.clone();
    bad_type[5] = 99;
    let short = &packet[..packet.len() - 1];

    let cases: [(&[u8], &str); 4] = [
        (&bad_magic, "magic"),
        (&bad_version, "version"),
        (&bad_type, "type"),
        (short, "len"),
    ];

    for (payload, label) in cases {
        assert!(
            decode_freeze_packet(TEST_MAGIC, TEST_VERSION, 4, payload).is_none(),
            "freeze decode should reject malformed {label}"
        );
    }
}

fn bits3(v: [f32; 3]) -> [u32; 3] {
    v.map(f32::to_bits)
}

#[test]
fn test_projectile_packet_roundtrip() {
    let packet = encode_projectile_packet(
        TEST_MAGIC,
        TEST_VERSION,
        5,
        99,
        1234,
        bits3([1.0, 2.0, 3.0]),
        bits3([-4.0, -5.0, -6.0]),
        1.5f32.to_bits(),
    );

    let parsed = decode_projectile_packet(TEST_MAGIC, TEST_VERSION, 5, &packet).unwrap();
    assert_eq!(parsed.0, 99);
    assert_eq!(parsed.1.projectile_id, 1234);
    assert_eq!(parsed.1.position, bits3([1.0, 2.0, 3.0]));
    assert_eq!(parsed.1.velocity, bits3([-4.0, -5.0, -6.0]));
    assert_eq!(f32::from_bits(parsed.1.lifetime_secs), 1.5);
}

#[test]
fn test_projectile_packet_contract_matrix() {
    let packet = encode_projectile_packet(
        TEST_MAGIC,
        TEST_VERSION,
        5,
        99,
        1234,
        bits3([1.0, 2.0, 3.0]),
        bits3([-4.0, -5.0, -6.0]),
        1.5f32.to_bits(),
    );

    let mut bad_magic = packet.clone();
    bad_magic[0] = b'X';
    let mut bad_version = packet.clone();
    bad_version[4] = TEST_VERSION + 1;
    let mut bad_type = packet.clone();
    bad_type[5] = 99;
    let short = &packet[..packet.len() - 1];

    let mut non_finite = packet.clone();
    let position_x_offset = 6 + 8 + 4;
    non_finite[position_x_offset..position_x_offset + 4].copy_from_slice(&f32::NAN.to_le_bytes());

    let cases: [(&[u8], &str); 5] = [
        (&bad_magic, "magic"),
        (&bad_version, "version"),
        (&bad_type, "type"),
        (short, "len"),
        (&non_finite, "non-finite"),
    ];

    for (payload, label) in cases {
        assert!(
            decode_projectile_packet(TEST_MAGIC, TEST_VERSION, 5, payload).is_none(),
            "projectile decode should reject malformed {label}"
        );
    }
}

#[test]
fn test_projectile_dedup_prunes_expired_entries() {
    let mut seen_projectiles = SeenProjectiles::new();
    // Times in milliseconds; a time-to-live of one second.
    let now = 5_000u64;
    let ttl = 1_000u64;

    assert!(accept_recent_projectile(&mut seen_projectiles, 1, 7, now, ttl));
    assert!(!accept_recent_projectile(&mut seen_projectiles, 1, 7, now, ttl));
    assert!(accept_recent_projectile(&mut seen_projectiles, 1, 7, now + 2_000, ttl));
}

// Further cases.

#[test]
fn codec_wire_sizes_and_rejections() {
    assert_eq!(encode_auth_hello(TEST_MAGIC, TEST_VERSION, 1).len(), 14);
    assert_eq!(encode_auth_proof(TEST_MAGIC, TEST_VERSION, AuthProof { player_id: 1, nonce: 2, digest: 3 }).len(), 30);
    assert_eq!(encode_auth_accept(TEST_MAGIC, TEST_VERSION, 1).len(), 22);
    // A hello is not a challenge.
    let hello = encode_auth_hello(TEST_MAGIC, TEST_VERSION, 1);
    assert_eq!(decode_auth_challenge(TEST_MAGIC, TEST_VERSION, &hello), None);
    assert_eq!(decode_auth_hello(*b"XXXX", TEST_VERSION, &hello), None);
    assert_eq!(decode_auth_hello(TEST_MAGIC, 2, &hello), None);
    // The input payload needs twelve bytes.
    assert_eq!(decode_input_payload(&[0; 11]), None);
    // An input packet whose length field exceeds the bytes present.
    let mut pkt = encode_input_packet(TEST_MAGIC, TEST_VERSION, 1, 1, &[1, 2, 3]);
    pkt.truncate(pkt.len() - 1);
    assert!(decode_input_packet(TEST_MAGIC, TEST_VERSION, &pkt).is_none());
    // A snapshot announcing more entries than present.
    let mut snap = encode_snapshot_packet(TEST_MAGIC, TEST_VERSION, &[(9, [0, 0, 0], [1, 2, 3])]);
    assert_eq!(snap.len(), 34);
    snap[6] = 2;
    assert!(decode_snapshot_packet(TEST_MAGIC, TEST_VERSION, &snap).is_none());
}

#[test]
fn input_payload_layout() {
    let p = encode_input_payload(0x0403_0201, 0x0807_0605, false, [10, 20, 30]);
    assert_eq!(p, vec![1, 2, 3, 4, 5, 6, 7, 8, 0, 10, 20, 30]);
    assert_eq!(decode_input_payload(&[1, 2, 3, 4, 5, 6, 7, 8, 9, 10, 20, 30, 99]), Some((0x0403_0201, 0x0807_0605, true, [10, 20, 30])));
}

#[test]
fn finite_bit_patterns() {
    assert!(is_finite_bits(1.0f32.to_bits()));
    assert!(is_finite_bits(f32::MAX.to_bits()));
    assert!(!is_finite_bits(f32::INFINITY.to_bits()));
    assert!(!is_finite_bits(f32::NEG_INFINITY.to_bits()));
    assert!(!is_finite_bits(f32::NAN.to_bits()));
}

#[test]
fn dedup_distinguishes_projectiles_and_keeps_fresh_entries() {
    let mut seen = SeenProjectiles::new();
    assert!(accept_recent_projectile(&mut seen, 1, 1, 100, 50));
    assert!(accept_recent_projectile(&mut seen, 1, 2, 120, 50));
    assert!(accept_recent_projectile(&mut seen, 2, 1, 120, 50));
    assert_eq!(seen.len(), 3);
    // At 160 the first entry (seen at 100) is forgotten; the others stay.
    assert!(!accept_recent_projectile(&mut seen, 1, 2, 160, 50));
    assert_eq!(seen.len(), 2);
    assert!(accept_recent_projectile(&mut seen, 1, 1, 160, 50));
    seen.prune(1_000, 50);
    assert_eq!(seen.len(), 0);
}
