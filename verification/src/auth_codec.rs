//! Wire formats of the authentication handshake and the authenticated game
//! traffic.
//!
//! Every packet starts with a 4-byte magic tag, a version byte and a type
//! byte; numbers are little-endian. The handshake runs hello, challenge,
//! proof, accept; then clients send input packets and the host sends
//! snapshots. Floating-point values travel as the little-endian bytes of
//! their IEEE-754 single-precision bit patterns, handled here as `u32` words;
//! colors travel as three bytes.

use vstd::prelude::*;
use crate::auth::{AuthProof, SessionToken};
use crate::bytes::{
    le32, le64, le128, from_le32, from_le64, from_le128, push_le32, push_le64, push_le128,
    read_le32, read_le64, read_le128,
};
use crate::sync_codec::{header, header_matches};

verus! {

/// Hello: a client announces its player id.
pub const PACKET_AUTH_HELLO: u8 = 10;

/// Challenge: the host answers with a nonce.
pub const PACKET_AUTH_CHALLENGE: u8 = 11;

/// Proof: the client proves knowledge of the shared secret.
pub const PACKET_AUTH_PROOF: u8 = 12;

/// Accept: the host grants a session token.
pub const PACKET_AUTH_ACCEPT: u8 = 13;

/// Input: client movement and color, bound to a session token.
pub const PACKET_INPUT: u8 = 14;

/// Snapshot: the host's authoritative state of every player.
pub const PACKET_SNAPSHOT: u8 = 15;

/// One player's entry of a snapshot: player id, the bit patterns of the
/// translation x, y, z, and the color's red, green and blue bytes.
pub type SnapshotEntry = (u64, [u32; 3], [u8; 3]);

/// The bytes of a packet of type `t` whose body is `body`.
pub open spec fn framed(magic: Seq<u8>, version: u8, t: u8, body: Seq<u8>) -> Seq<u8> {
    header(magic, version, t) + body
}

/// The body of a packet of the given type and exact length, if `data` is one.
pub open spec fn body_of(magic: Seq<u8>, version: u8, t: u8, len: nat, data: Seq<u8>) -> Option<
    Seq<u8>,
> {
    if data.len() != len || !header_matches(data, magic, version) || data[5] != t {
        None
    } else {
        Some(data.subrange(6, data.len() as int))
    }
}

/// What decoding a hello gives: the player id of a 14-byte hello packet.
pub open spec fn parse_hello(magic: Seq<u8>, version: u8, data: Seq<u8>) -> Option<u64> {
    match body_of(magic, version, PACKET_AUTH_HELLO, 14, data) {
        Some(b) => Some(from_le64(data, 6)),
        None => None,
    }
}

/// What decoding a challenge gives: the nonce of a 14-byte challenge packet.
pub open spec fn parse_challenge(magic: Seq<u8>, version: u8, data: Seq<u8>) -> Option<u64> {
    match body_of(magic, version, PACKET_AUTH_CHALLENGE, 14, data) {
        Some(b) => Some(from_le64(data, 6)),
        None => None,
    }
}

/// What decoding a proof gives: player id, nonce and digest of a 30-byte
/// proof packet.
pub open spec fn parse_proof(magic: Seq<u8>, version: u8, data: Seq<u8>) -> Option<AuthProof> {
    match body_of(magic, version, PACKET_AUTH_PROOF, 30, data) {
        Some(b) => Some(
            AuthProof {
                player_id: from_le64(data, 6),
                nonce: from_le64(data, 14),
                digest: from_le64(data, 22),
            },
        ),
        None => None,
    }
}

/// What decoding an accept gives: the token of a 22-byte accept packet.
pub open spec fn parse_accept(magic: Seq<u8>, version: u8, data: Seq<u8>) -> Option<u128> {
    match body_of(magic, version, PACKET_AUTH_ACCEPT, 22, data) {
        Some(b) => Some(from_le128(data, 6)),
        None => None,
    }
}

/// The bytes of an input payload: the two movement words, the jump flag as
/// 0 or 1, and the three color bytes.
pub open spec fn input_payload_wire(move_x: u32, move_z: u32, jump: bool, rgb: [u8; 3]) -> Seq<u8> {
    le32(move_x) + le32(move_z) + seq![if jump { 1u8 } else { 0u8 }] + rgb@
}

/// What decoding an input payload gives: `None` below 12 bytes; otherwise
/// the two words, whether byte 8 is non-zero, and bytes 9 to 11. Bytes after
/// the twelfth are ignored.
pub open spec fn parse_input_payload(p: Seq<u8>) -> Option<(u32, u32, bool, [u8; 3])> {
    if p.len() < 12 {
        None
    } else {
        Some((from_le32(p, 0), from_le32(p, 4), p[8] != 0, [p[9], p[10], p[11]]))
    }
}

/// The bytes of an input packet: header, token, sequence number, payload
/// length and payload.
pub open spec fn input_packet_wire(
    magic: Seq<u8>,
    version: u8,
    token: u128,
    input_sequence: u32,
    payload: Seq<u8>,
) -> Seq<u8> {
    header(magic, version, PACKET_INPUT) + le128(token) + le32(input_sequence) + le32(
        payload.len() as u32,
    ) + payload
}

/// What decoding an input packet gives: `None` below 30 bytes, on a wrong
/// magic, version or type, or when fewer payload bytes follow than the length
/// says; otherwise the token, sequence number and payload. Bytes after the
/// payload are ignored.
pub open spec fn parse_input_packet(magic: Seq<u8>, version: u8, data: Seq<u8>) -> Option<
    (u128, u32, Seq<u8>),
> {
    if data.len() < 30 || !header_matches(data, magic, version) || data[5] != PACKET_INPUT {
        None
    } else {
        let n = from_le32(data, 26) as int;
        if data.len() < 30 + n {
            None
        } else {
            Some((from_le128(data, 6), from_le32(data, 22), data.subrange(30, 30 + n)))
        }
    }
}

/// The 24 bytes of a snapshot entry: id, three words, three color bytes and
/// a zero pad byte.
pub open spec fn entry_wire(e: SnapshotEntry) -> Seq<u8> {
    le64(e.0) + le32(e.1[0]) + le32(e.1[1]) + le32(e.1[2]) + e.2@ + seq![0u8]
}

/// The entries' bytes, one after another.
pub open spec fn entries_wire(es: Seq<SnapshotEntry>) -> Seq<u8>
    decreases es.len(),
{
    if es.len() == 0 {
        Seq::empty()
    } else {
        entries_wire(es.drop_last()) + entry_wire(es.last())
    }
}

/// The bytes of a snapshot packet: header, entry count, entries.
pub open spec fn snapshot_wire(magic: Seq<u8>, version: u8, es: Seq<SnapshotEntry>) -> Seq<u8> {
    header(magic, version, PACKET_SNAPSHOT) + le32(es.len() as u32) + entries_wire(es)
}

/// The entry whose bytes start at `data[at]`.
pub open spec fn entry_at(data: Seq<u8>, at: int) -> SnapshotEntry {
    (
        from_le64(data, at),
        [from_le32(data, at + 8), from_le32(data, at + 12), from_le32(data, at + 16)],
        [data[at + 20], data[at + 21], data[at + 22]],
    )
}

/// What decoding a snapshot packet gives: `None` below 10 bytes, on a wrong
/// magic, version or type, or when fewer than 24 bytes are left for an entry
/// the count announces; otherwise the entries. Bytes after them are ignored.
pub open spec fn parse_snapshot(magic: Seq<u8>, version: u8, data: Seq<u8>) -> Option<
    Seq<SnapshotEntry>,
> {
    if data.len() < 10 || !header_matches(data, magic, version) || data[5] != PACKET_SNAPSHOT {
        None
    } else {
        let count = from_le32(data, 6) as int;
        if data.len() < 10 + 24 * count {
            None
        } else {
            Some(Seq::new(count as nat, |i: int| entry_at(data, 10 + 24 * i)))
        }
    }
}

/// The layout of the authentication and input packets as they are read:
/// after the header (magic at 0 to 4, version at 4, type at 5) a hello (14
/// bytes) holds the player id and a challenge (14 bytes) the nonce, as 8
/// little-endian bytes at 6; a proof (30 bytes) holds the player id at 6,
/// the nonce at 14 and the digest at 22; an accept (22 bytes) holds the
/// 16-byte token at 6. An input packet holds the token at 6, the sequence
/// number at 22, the payload length at 26 and the payload from 30; an input
/// payload holds the two movement words at 0 and 4, the jump flag at 8 and
/// the color bytes at 9, 10 and 11.
pub proof fn lemma_auth_read_layout(magic: Seq<u8>, version: u8, data: Seq<u8>)
    ensures
        parse_hello(magic, version, data) matches Some(id) ==> data.len() == 14 && data.subrange(0, 4) == magic
            && data[4] == version && data[5] == PACKET_AUTH_HELLO && id == from_le64(data, 6),
        parse_challenge(magic, version, data) matches Some(n) ==> data.len() == 14 && data[5] == PACKET_AUTH_CHALLENGE
            && n == from_le64(data, 6),
        parse_proof(magic, version, data) matches Some(p) ==> data.len() == 30 && data[5] == PACKET_AUTH_PROOF
            && p.player_id == from_le64(data, 6) && p.nonce == from_le64(data, 14) && p.digest == from_le64(data, 22),
        parse_accept(magic, version, data) matches Some(t) ==> data.len() == 22 && data[5] == PACKET_AUTH_ACCEPT
            && t == from_le128(data, 6),
        parse_input_packet(magic, version, data) matches Some((t, q, pl)) ==> data[5] == PACKET_INPUT
            && t == from_le128(data, 6) && q == from_le32(data, 22) && pl == data.subrange(30, 30 + from_le32(data, 26) as int),
        parse_input_payload(data) matches Some((mx, mz, j, c)) ==> mx == from_le32(data, 0) && mz == from_le32(data, 4)
            && j == (data[8] != 0) && c == [data[9], data[10], data[11]],
{
}

/// The layout of an input payload and of a snapshot entry as they are
/// written: the payload is the two movement words in 4 little-endian bytes
/// each, then 1 or 0 for the jump, then the three color bytes (12 bytes); an
/// entry is the player id in 8 little-endian bytes, the translation words
/// x, y, z at 8, 12 and 16, the color bytes at 20, 21 and 22, and a zero at
/// 23 (24 bytes).
pub proof fn lemma_auth_write_layout(mx: u32, mz: u32, jump: bool, rgb: [u8; 3], e: SnapshotEntry)
    ensures
        ({
            let w = input_payload_wire(mx, mz, jump, rgb);
            &&& w.len() == 12
            &&& w.subrange(0, 4) == le32(mx) && w.subrange(4, 8) == le32(mz)
            &&& w[8] == (if jump { 1u8 } else { 0u8 })
            &&& w[9] == rgb[0] && w[10] == rgb[1] && w[11] == rgb[2]
        }),
        ({
            let w = entry_wire(e);
            &&& w.len() == 24
            &&& w.subrange(0, 8) == le64(e.0)
            &&& w.subrange(8, 12) == le32(e.1[0]) && w.subrange(12, 16) == le32(e.1[1]) && w.subrange(16, 20) == le32(e.1[2])
            &&& w[20] == e.2[0] && w[21] == e.2[1] && w[22] == e.2[2] && w[23] == 0
        }),
{
    let w = input_payload_wire(mx, mz, jump, rgb);
    assert(w.subrange(0, 4) =~= le32(mx));
    assert(w.subrange(4, 8) =~= le32(mz));
    let v = entry_wire(e);
    assert(v.subrange(0, 8) =~= le64(e.0));
    assert(v.subrange(8, 12) =~= le32(e.1[0]));
    assert(v.subrange(12, 16) =~= le32(e.1[1]));
    assert(v.subrange(16, 20) =~= le32(e.1[2]));
}

fn push_header(out: &mut Vec<u8>, magic: [u8; 4], version: u8, packet_type: u8)
    ensures
        final(out)@ == old(out)@ + header(magic@, version, packet_type),
{
    out.push(magic[0]);
    out.push(magic[1]);
    out.push(magic[2]);
    out.push(magic[3]);
    out.push(version);
    out.push(packet_type);
    assert(final(out)@ =~= old(out)@ + header(magic@, version, packet_type));
}

/// Whether `data` has exactly `len` bytes and the given magic, version and type.
fn check_frame(data: &[u8], magic: [u8; 4], version: u8, t: u8, len: usize) -> (r: bool)
    requires
        len >= 6,
    ensures
        r == (data@.len() == len && header_matches(data@, magic@, version) && data@[5] == t),
{
    if data.len() != len {
        return false;
    }
    let r = data[0] == magic[0] && data[1] == magic[1] && data[2] == magic[2] && data[3]
        == magic[3] && data[4] == version && data[5] == t;
    proof {
        if r {
            assert(data@.subrange(0, 4) =~= magic@);
        } else if data@.subrange(0, 4) == magic@ {
            assert(data@.subrange(0, 4)[0] == data@[0]);
            assert(data@.subrange(0, 4)[1] == data@[1]);
            assert(data@.subrange(0, 4)[2] == data@[2]);
            assert(data@.subrange(0, 4)[3] == data@[3]);
        }
    }
    r
}

/// Whether `data` has at least `len` bytes and the given magic, version and type.
fn check_frame_at_least(data: &[u8], magic: [u8; 4], version: u8, t: u8, len: usize) -> (r: bool)
    requires
        len >= 6,
    ensures
        r == (data@.len() >= len && header_matches(data@, magic@, version) && data@[5] == t),
{
    if data.len() < len {
        return false;
    }
    let r = data[0] == magic[0] && data[1] == magic[1] && data[2] == magic[2] && data[3]
        == magic[3] && data[4] == version && data[5] == t;
    proof {
        if r {
            assert(data@.subrange(0, 4) =~= magic@);
        } else if data@.subrange(0, 4) == magic@ {
            assert(data@.subrange(0, 4)[0] == data@[0]);
            assert(data@.subrange(0, 4)[1] == data@[1]);
            assert(data@.subrange(0, 4)[2] == data@[2]);
            assert(data@.subrange(0, 4)[3] == data@[3]);
        }
    }
    r
}

/// Encodes a hello: header and the player id.
pub fn encode_auth_hello(magic: [u8; 4], version: u8, player_id: u64) -> (out: Vec<u8>)
    ensures
        out@ == framed(magic@, version, PACKET_AUTH_HELLO, le64(player_id)),
{
    let mut out: Vec<u8> = Vec::with_capacity(14);
    push_header(&mut out, magic, version, PACKET_AUTH_HELLO);
    push_le64(&mut out, player_id);
    out
}

/// Decodes a hello: the player id of a 14-byte hello packet.
pub fn decode_auth_hello(magic: [u8; 4], version: u8, data: &[u8]) -> (r: Option<u64>)
    ensures
        r == parse_hello(magic@, version, data@),
{
    if !check_frame(data, magic, version, PACKET_AUTH_HELLO, 14) {
        return None;
    }
    Some(read_le64(data, 6))
}

/// Encodes a challenge: header and the nonce.
pub fn encode_auth_challenge(magic: [u8; 4], version: u8, nonce: u64) -> (out: Vec<u8>)
    ensures
        out@ == framed(magic@, version, PACKET_AUTH_CHALLENGE, le64(nonce)),
{
    let mut out: Vec<u8> = Vec::with_capacity(14);
    push_header(&mut out, magic, version, PACKET_AUTH_CHALLENGE);
    push_le64(&mut out, nonce);
    out
}

/// Decodes a challenge: the nonce of a 14-byte challenge packet.
pub fn decode_auth_challenge(magic: [u8; 4], version: u8, data: &[u8]) -> (r: Option<u64>)
    ensures
        r == parse_challenge(magic@, version, data@),
{
    if !check_frame(data, magic, version, PACKET_AUTH_CHALLENGE, 14) {
        return None;
    }
    Some(read_le64(data, 6))
}

/// Encodes a proof: header, player id, nonce, digest.
pub fn encode_auth_proof(magic: [u8; 4], version: u8, proof: AuthProof) -> (out: Vec<u8>)
    ensures
        out@ == framed(
            magic@,
            version,
            PACKET_AUTH_PROOF,
            le64(proof.player_id) + le64(proof.nonce) + le64(proof.digest),
        ),
{
    let mut out: Vec<u8> = Vec::with_capacity(30);
    push_header(&mut out, magic, version, PACKET_AUTH_PROOF);
    push_le64(&mut out, proof.player_id);
    push_le64(&mut out, proof.nonce);
    push_le64(&mut out, proof.digest);
    assert(out@ =~= framed(
        magic@,
        version,
        PACKET_AUTH_PROOF,
        le64(proof.player_id) + le64(proof.nonce) + le64(proof.digest),
    ));
    out
}

/// Decodes a proof from a 30-byte proof packet.
pub fn decode_auth_proof(magic: [u8; 4], version: u8, data: &[u8]) -> (r: Option<AuthProof>)
    ensures
        r == parse_proof(magic@, version, data@),
{
    if !check_frame(data, magic, version, PACKET_AUTH_PROOF, 30) {
        return None;
    }
    Some(
        AuthProof {
            player_id: read_le64(data, 6),
            nonce: read_le64(data, 14),
            digest: read_le64(data, 22),
        },
    )
}

/// Encodes an accept: header and the session token.
pub fn encode_auth_accept(magic: [u8; 4], version: u8, token: SessionToken) -> (out: Vec<u8>)
    ensures
        out@ == framed(magic@, version, PACKET_AUTH_ACCEPT, le128(token)),
{
    let mut out: Vec<u8> = Vec::with_capacity(22);
    push_header(&mut out, magic, version, PACKET_AUTH_ACCEPT);
    push_le128(&mut out, token);
    out
}

/// Decodes an accept: the session token of a 22-byte accept packet.
pub fn decode_auth_accept(magic: [u8; 4], version: u8, data: &[u8]) -> (r: Option<SessionToken>)
    ensures
        r == parse_accept(magic@, version, data@),
{
    if !check_frame(data, magic, version, PACKET_AUTH_ACCEPT, 22) {
        return None;
    }
    Some(read_le128(data, 6))
}

/// Encodes an input payload; see `input_payload_wire`.
pub fn encode_input_payload(move_x: u32, move_z: u32, jump: bool, rgb: [u8; 3]) -> (out: Vec<u8>)
    ensures
        out@ == input_payload_wire(move_x, move_z, jump, rgb),
{
    let mut out: Vec<u8> = Vec::with_capacity(12);
    push_le32(&mut out, move_x);
    push_le32(&mut out, move_z);
    out.push(if jump {
        1
    } else {
        0
    });
    out.push(rgb[0]);
    out.push(rgb[1]);
    out.push(rgb[2]);
    assert(out@ =~= input_payload_wire(move_x, move_z, jump, rgb));
    out
}

/// Decodes an input payload; see `parse_input_payload`.
pub fn decode_input_payload(payload: &[u8]) -> (r: Option<(u32, u32, bool, [u8; 3])>)
    ensures
        r == parse_input_payload(payload@),
{
    if payload.len() < 12 {
        return None;
    }
    Some((read_le32(payload, 0), read_le32(payload, 4), payload[8] != 0, [payload[9], payload[10], payload[11]]))
}

/// Encodes an input packet; see `input_packet_wire`. The length field holds
/// the payload length cut to 32 bits.
pub fn encode_input_packet(
    magic: [u8; 4],
    version: u8,
    session_token: SessionToken,
    input_sequence: u32,
    payload: &[u8],
) -> (out: Vec<u8>)
    ensures
        out@ == input_packet_wire(magic@, version, session_token, input_sequence, payload@),
{
    let mut out: Vec<u8> = Vec::new();
    push_header(&mut out, magic, version, PACKET_INPUT);
    push_le128(&mut out, session_token);
    push_le32(&mut out, input_sequence);
    let n = #[verifier::truncate] (payload.len() as u32);
    push_le32(&mut out, n);
    out.extend_from_slice(payload);
    out
}

/// Decodes an input packet; see `parse_input_packet`.
pub fn decode_input_packet(magic: [u8; 4], version: u8, data: &[u8]) -> (r: Option<
    (SessionToken, u32, Vec<u8>),
>)
    ensures
        match parse_input_packet(magic@, version, data@) {
            Some((t, s, p)) => r matches Some((t2, s2, p2)) && t2 == t && s2 == s && p2@ == p,
            None => r is None,
        },
{
    if !check_frame_at_least(data, magic, version, PACKET_INPUT, 30) {
        return None;
    }
    let session_token = read_le128(data, 6);
    let input_sequence = read_le32(data, 22);
    let payload_len = read_le32(data, 26) as usize;
    if data.len() - 30 < payload_len {
        return None;
    }
    let mut payload: Vec<u8> = Vec::new();
    payload.extend_from_slice(vstd::slice::slice_subrange(data, 30, 30 + payload_len));
    Some((session_token, input_sequence, payload))
}

/// Encodes a snapshot; see `snapshot_wire`. The count field holds the number
/// of entries cut to 32 bits.
pub fn encode_snapshot_packet(magic: [u8; 4], version: u8, states: &[SnapshotEntry]) -> (out: Vec<
    u8,
>)
    ensures
        out@ == snapshot_wire(magic@, version, states@),
{
    let mut out: Vec<u8> = Vec::new();
    push_header(&mut out, magic, version, PACKET_SNAPSHOT);
    let n = #[verifier::truncate] (states.len() as u32);
    push_le32(&mut out, n);
    let ghost base = out@;
    let mut i: usize = 0;
    while i < states.len()
        invariant
            i <= states@.len(),
            out@ == base + entries_wire(states@.take(i as int)),
        decreases states@.len() - i,
    {
        let (player_id, pos, rgb) = states[i];
        push_le64(&mut out, player_id);
        push_le32(&mut out, pos[0]);
        push_le32(&mut out, pos[1]);
        push_le32(&mut out, pos[2]);
        out.push(rgb[0]);
        out.push(rgb[1]);
        out.push(rgb[2]);
        out.push(0);
        proof {
            assert(states@.take(i + 1).drop_last() =~= states@.take(i as int));
            assert(states@.take(i + 1).last() == states@[i as int]);
            assert(out@ =~= base + entries_wire(states@.take(i + 1)));
        }
        i = i + 1;
    }
    assert(states@.take(states@.len() as int) =~= states@);
    out
}

/// Decodes a snapshot; see `parse_snapshot`.
pub fn decode_snapshot_packet(magic: [u8; 4], version: u8, data: &[u8]) -> (r: Option<
    Vec<SnapshotEntry>,
>)
    ensures
        match parse_snapshot(magic@, version, data@) {
            Some(es) => r matches Some(v) && v@ == es,
            None => r is None,
        },
{
    if !check_frame_at_least(data, magic, version, PACKET_SNAPSHOT, 10) {
        return None;
    }
    let count = read_le32(data, 6);
    let ghost c = count as int;
    let mut out: Vec<SnapshotEntry> = Vec::new();
    let mut idx: usize = 10;
    let mut k: u32 = 0;
    while k < count
        invariant
            k <= count,
            c == count,
            c == from_le32(data@, 6),
            data@.len() >= 10,
            header_matches(data@, magic@, version),
            data@[5] == PACKET_SNAPSHOT,
            idx == 10 + 24 * k,
            idx <= data@.len(),
            out@ == Seq::new(k as nat, |i: int| entry_at(data@, 10 + 24 * i)),
        decreases count - k,
    {
        if data.len() - idx < 24 {
            proof {
                assert(data@.len() < 10 + 24 * c) by (nonlinear_arith)
                    requires
                        data@.len() < idx + 24,
                        idx == 10 + 24 * k,
                        k < c,
                ;
            }
            return None;
        }
        let player_id = read_le64(data, idx);
        let x = read_le32(data, idx + 8);
        let y = read_le32(data, idx + 12);
        let z = read_le32(data, idx + 16);
        let e: SnapshotEntry = (player_id, [x, y, z], [data[idx + 20], data[idx + 21], data[idx + 22]]);
        out.push(e);
        proof {
            assert(out@ =~= Seq::new((k + 1) as nat, |i: int| entry_at(data@, 10 + 24 * i)));
        }
        idx = idx + 24;
        k = k + 1;
    }
    proof {
        assert(data@.len() >= 10 + 24 * c);
    }
    Some(out)
}


// ---------------------------------------------------------------------------
// Decoding what was encoded
// ---------------------------------------------------------------------------

/// A framed packet has its header and its body where they belong.
proof fn lemma_framed(magic: Seq<u8>, version: u8, t: u8, body: Seq<u8>)
    requires
        magic.len() == 4,
    ensures
        framed(magic, version, t, body).len() == 6 + body.len(),
        header_matches(framed(magic, version, t, body), magic, version),
        framed(magic, version, t, body)[5] == t,
        forall|i: int| 0 <= i < body.len() ==> #[trigger] framed(magic, version, t, body)[6 + i] == body[i],
{
    let w = framed(magic, version, t, body);
    assert(w.subrange(0, 4) =~= magic);
}

/// A hello decodes to the player id it was encoded with.
pub proof fn lemma_hello_roundtrip(magic: Seq<u8>, version: u8, player_id: u64)
    requires
        magic.len() == 4,
    ensures
        parse_hello(magic, version, framed(magic, version, PACKET_AUTH_HELLO, le64(player_id)))
            == Some(player_id),
{
    let w = framed(magic, version, PACKET_AUTH_HELLO, le64(player_id));
    lemma_framed(magic, version, PACKET_AUTH_HELLO, le64(player_id));
    assert(w.subrange(6, 14) =~= le64(player_id));
    crate::bytes::lemma_le64_roundtrip(player_id, w, 6);
}

/// A challenge decodes to the nonce it was encoded with.
pub proof fn lemma_challenge_roundtrip(magic: Seq<u8>, version: u8, nonce: u64)
    requires
        magic.len() == 4,
    ensures
        parse_challenge(magic, version, framed(magic, version, PACKET_AUTH_CHALLENGE, le64(nonce)))
            == Some(nonce),
{
    let w = framed(magic, version, PACKET_AUTH_CHALLENGE, le64(nonce));
    lemma_framed(magic, version, PACKET_AUTH_CHALLENGE, le64(nonce));
    assert(w.subrange(6, 14) =~= le64(nonce));
    crate::bytes::lemma_le64_roundtrip(nonce, w, 6);
}

/// A proof decodes to the proof it was encoded with.
pub proof fn lemma_proof_roundtrip(magic: Seq<u8>, version: u8, proof: AuthProof)
    requires
        magic.len() == 4,
    ensures
        parse_proof(
            magic,
            version,
            framed(
                magic,
                version,
                PACKET_AUTH_PROOF,
                le64(proof.player_id) + le64(proof.nonce) + le64(proof.digest),
            ),
        ) == Some(proof),
{
    let body = le64(proof.player_id) + le64(proof.nonce) + le64(proof.digest);
    let w = framed(magic, version, PACKET_AUTH_PROOF, body);
    lemma_framed(magic, version, PACKET_AUTH_PROOF, body);
    assert(w.subrange(6, 14) =~= le64(proof.player_id));
    assert(w.subrange(14, 22) =~= le64(proof.nonce));
    assert(w.subrange(22, 30) =~= le64(proof.digest));
    crate::bytes::lemma_le64_roundtrip(proof.player_id, w, 6);
    crate::bytes::lemma_le64_roundtrip(proof.nonce, w, 14);
    crate::bytes::lemma_le64_roundtrip(proof.digest, w, 22);
}

/// An accept decodes to the token it was encoded with.
pub proof fn lemma_accept_roundtrip(magic: Seq<u8>, version: u8, token: u128)
    requires
        magic.len() == 4,
    ensures
        parse_accept(magic, version, framed(magic, version, PACKET_AUTH_ACCEPT, le128(token)))
            == Some(token),
{
    let w = framed(magic, version, PACKET_AUTH_ACCEPT, le128(token));
    lemma_framed(magic, version, PACKET_AUTH_ACCEPT, le128(token));
    assert(w.subrange(6, 22) =~= le128(token));
    crate::bytes::lemma_le128_roundtrip(token, w, 6);
}

/// An input payload decodes to the words, flag and color it was encoded with.
pub proof fn lemma_input_payload_roundtrip(move_x: u32, move_z: u32, jump: bool, rgb: [u8; 3])
    ensures
        parse_input_payload(input_payload_wire(move_x, move_z, jump, rgb)) == Some(
            (move_x, move_z, jump, rgb),
        ),
{
    let w = input_payload_wire(move_x, move_z, jump, rgb);
    assert(w.subrange(0, 4) =~= le32(move_x));
    assert(w.subrange(4, 8) =~= le32(move_z));
    crate::bytes::lemma_le32_roundtrip(move_x, w, 0);
    crate::bytes::lemma_le32_roundtrip(move_z, w, 4);
    assert([w[9], w[10], w[11]] =~= rgb);
}

/// An input packet decodes to the token, sequence number and payload it was
/// encoded with, for payloads whose length fits 32 bits.
#[verifier::spinoff_prover]
#[verifier::rlimit(40)]
pub proof fn lemma_input_packet_roundtrip(
    magic: Seq<u8>,
    version: u8,
    token: u128,
    input_sequence: u32,
    payload: Seq<u8>,
)
    requires
        magic.len() == 4,
        payload.len() <= u32::MAX,
    ensures
        parse_input_packet(magic, version, input_packet_wire(magic, version, token, input_sequence, payload))
            == Some((token, input_sequence, payload)),
{
    let w = input_packet_wire(magic, version, token, input_sequence, payload);
    let h = header(magic, version, PACKET_INPUT);
    let a = h + le128(token);
    let b = a + le32(input_sequence);
    let c = b + le32(payload.len() as u32);
    assert(w == c + payload);
    assert(w.subrange(0, 4) =~= magic) by {
        assert(w.subrange(0, 4) =~= h.subrange(0, 4));
    }
    assert(w.subrange(6, 22) =~= le128(token)) by {
        assert(w.subrange(6, 22) =~= a.subrange(6, 22));
    }
    assert(w.subrange(22, 26) =~= le32(input_sequence)) by {
        assert(w.subrange(22, 26) =~= b.subrange(22, 26));
    }
    assert(w.subrange(26, 30) =~= le32(payload.len() as u32)) by {
        assert(w.subrange(26, 30) =~= c.subrange(26, 30));
    }
    crate::bytes::lemma_le128_roundtrip(token, w, 6);
    crate::bytes::lemma_le32_roundtrip(input_sequence, w, 22);
    crate::bytes::lemma_le32_roundtrip(payload.len() as u32, w, 26);
    assert(w.subrange(30, 30 + payload.len() as int) =~= payload);
}

/// The bytes of an entry read back as the entry.
proof fn lemma_entry_roundtrip(data: Seq<u8>, at: int, e: SnapshotEntry)
    requires
        0 <= at,
        at + 24 <= data.len(),
        data.subrange(at, at + 24) == entry_wire(e),
    ensures
        entry_at(data, at) == e,
{
    let w = entry_wire(e);
    assert(data.subrange(at, at + 8) =~= w.subrange(0, 8));
    assert(w.subrange(0, 8) =~= le64(e.0));
    assert(data.subrange(at + 8, at + 12) =~= w.subrange(8, 12));
    assert(w.subrange(8, 12) =~= le32(e.1[0]));
    assert(data.subrange(at + 12, at + 16) =~= w.subrange(12, 16));
    assert(w.subrange(12, 16) =~= le32(e.1[1]));
    assert(data.subrange(at + 16, at + 20) =~= w.subrange(16, 20));
    assert(w.subrange(16, 20) =~= le32(e.1[2]));
    crate::bytes::lemma_le64_roundtrip(e.0, data, at);
    crate::bytes::lemma_le32_roundtrip(e.1[0], data, at + 8);
    crate::bytes::lemma_le32_roundtrip(e.1[1], data, at + 12);
    crate::bytes::lemma_le32_roundtrip(e.1[2], data, at + 16);
    assert(data[at + 20] == w[20]);
    assert(data[at + 21] == w[21]);
    assert(data[at + 22] == w[22]);
    let got = entry_at(data, at);
    assert(got.1 =~= e.1);
    assert(got.2 =~= e.2);
}

/// The entries take 24 bytes each, entry `i` at offset `24 * i`.
proof fn lemma_entries_wire(es: Seq<SnapshotEntry>)
    ensures
        entries_wire(es).len() == 24 * es.len(),
        forall|i: int|
            0 <= i < es.len() ==> #[trigger] entries_wire(es).subrange(24 * i, 24 * i + 24)
                == entry_wire(es[i]),
    decreases es.len(),
{
    if es.len() > 0 {
        let front = es.drop_last();
        lemma_entries_wire(front);
        let n = front.len() as int;
        assert forall|i: int| 0 <= i < es.len() implies #[trigger] entries_wire(es).subrange(
            24 * i,
            24 * i + 24,
        ) == entry_wire(es[i]) by {
            if i < n {
                assert(entries_wire(es).subrange(24 * i, 24 * i + 24) =~= entries_wire(front).subrange(
                    24 * i,
                    24 * i + 24,
                ));
            } else {
                assert(entries_wire(es).subrange(24 * i, 24 * i + 24) =~= entry_wire(es.last()));
            }
        }
    }
}

/// A snapshot decodes to the entries it was encoded with, when their number
/// fits 32 bits.
pub proof fn lemma_snapshot_roundtrip(magic: Seq<u8>, version: u8, es: Seq<SnapshotEntry>)
    requires
        magic.len() == 4,
        es.len() <= u32::MAX,
    ensures
        parse_snapshot(magic, version, snapshot_wire(magic, version, es)) == Some(es),
{
    let w = snapshot_wire(magic, version, es);
    lemma_entries_wire(es);
    assert(w.subrange(0, 4) =~= magic);
    assert(w.subrange(6, 10) =~= le32(es.len() as u32));
    crate::bytes::lemma_le32_roundtrip(es.len() as u32, w, 6);
    let body = entries_wire(es);
    assert forall|i: int| 0 <= i < es.len() implies #[trigger] entry_at(w, 10 + 24 * i) == es[i] by {
        assert(w.subrange(10 + 24 * i, 10 + 24 * i + 24) =~= body.subrange(24 * i, 24 * i + 24));
        lemma_entry_roundtrip(w, 10 + 24 * i, es[i]);
    }
    assert(Seq::new(es.len(), |i: int| entry_at(w, 10 + 24 * i)) =~= es);
}

} // verus!
