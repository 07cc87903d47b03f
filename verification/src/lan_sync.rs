//! Game sync between peers over LAN UDP or Steam P2P: the packet constants,
//! what a peer does with each incoming sync packet, and the host's guard for
//! authenticated input.

use vstd::prelude::*;
use std::collections::HashMap;
use crate::connection::PeerAddr;
use crate::sync_codec::{
    SeenProjectiles, StateBody, ProjectileSyncData, parse_freeze, parse_projectile, parse_state,
    decode_freeze_packet, decode_projectile_packet, decode_state_packet, accept_recent_projectile,
    kept, has_entry, freeze_wire, state_wire,
};
use crate::auth_codec::{
    parse_input_packet, parse_input_payload, decode_input_packet, decode_input_payload,
    parse_hello, parse_proof, parse_challenge, parse_accept, parse_snapshot, framed, SnapshotEntry,
    decode_auth_hello, decode_auth_proof, decode_auth_challenge, decode_auth_accept,
    decode_snapshot_packet, encode_auth_challenge, encode_auth_accept, encode_auth_proof,
    PACKET_AUTH_CHALLENGE, PACKET_AUTH_ACCEPT, PACKET_AUTH_PROOF,
};
use crate::auth::{AuthProof, digest_of};
use crate::bytes::{le64, le128};
use crate::client::{ClientNetworkManager, ClientAuthState};
use crate::server::{
    ServerNetworkManager, ServerIngressPacket, PacketDisposition, session_of, accepts_packet,
};

verus! {

broadcast use vstd::std_specs::hash::group_hash_axioms;

/// Magic tag of LAN sync packets: "CUBE".
pub const SYNC_MAGIC: [u8; 4] = [67, 85, 66, 69];

/// Magic tag of Steam sync packets: "STMC".
pub const STEAM_SYNC_MAGIC: [u8; 4] = [83, 84, 77, 67];

/// Version byte of sync packets.
pub const SYNC_VERSION: u8 = 1;

/// Periodic position and color update.
pub const PACKET_STATE: u8 = 1;

/// First announcement of a player.
pub const PACKET_JOIN: u8 = 2;

/// A player leaves; the packet carries no body.
pub const PACKET_LEAVE: u8 = 3;

/// Freeze a target player briefly.
pub const PACKET_FREEZE: u8 = 4;

/// A projectile was spawned.
pub const PACKET_PROJECTILE: u8 = 5;

/// What an incoming sync packet asks of the receiving peer.
#[derive(Debug, Clone, Copy, PartialEq, Eq)]
pub enum PeerEvent {
    /// Freeze the target player.
    Freeze { target_id: u64 },
    /// Show a projectile of another player.
    Projectile { sender_id: u64, projectile: ProjectileSyncData },
    /// Another player's transform and color.
    State { player_id: u64, body: StateBody },
    /// Another player left.
    Leave { player_id: u64 },
    /// Nothing to do.
    Ignored,
}

/// What a state packet of type `t` from `player_id` asks of peer `local`.
pub open spec fn state_event(local: u64, t: u8, player_id: u64, body: Option<StateBody>) -> PeerEvent {
    if player_id == local {
        PeerEvent::Ignored
    } else if t == PACKET_STATE || t == PACKET_JOIN {
        match body {
            Some(b) => PeerEvent::State { player_id, body: b },
            None => PeerEvent::Ignored,
        }
    } else if t == PACKET_LEAVE {
        PeerEvent::Leave { player_id }
    } else {
        PeerEvent::Ignored
    }
}

/// What an incoming sync packet at peer `local` gives, with the remembered
/// projectiles `seen` before it: the event, and the remembered projectiles
/// after it.
pub open spec fn peer_outcome(
    magic: Seq<u8>,
    version: u8,
    local: u64,
    data: Seq<u8>,
    seen: Seq<(u64, u32, u64)>,
    now: u64,
    ttl: u64,
) -> (PeerEvent, Seq<(u64, u32, u64)>) {
    match parse_freeze(magic, version, PACKET_FREEZE, data) {
        Some((s, t)) => (PeerEvent::Freeze { target_id: t }, seen),
        None => match parse_projectile(magic, version, PACKET_PROJECTILE, data) {
            Some((pid, p)) => if pid == local {
                (PeerEvent::Ignored, seen)
            } else {
                let pruned = kept(seen, now, ttl);
                if has_entry(pruned, pid, p.projectile_id) {
                    (PeerEvent::Ignored, pruned)
                } else {
                    (
                        PeerEvent::Projectile { sender_id: pid, projectile: p },
                        pruned.push((pid, p.projectile_id, now)),
                    )
                }
            },
            None => match parse_state(magic, version, PACKET_LEAVE, data) {
                Some((t, pid, body)) => (state_event(local, t, pid, body), seen),
                None => (PeerEvent::Ignored, seen),
            },
        },
    }
}

/// A peer hears what another peer sent: a freeze packet freezes its target,
/// whoever sent it; a state or join packet from another player delivers
/// that player's state; a leave packet from another player reports the
/// leave; and a peer ignores the state and leave packets it sent itself.
/// None of these changes the remembered projectiles.
pub proof fn lemma_peer_hears_what_was_sent(
    magic: Seq<u8>,
    version: u8,
    local: u64,
    sender: u64,
    target: u64,
    body: StateBody,
    seen: Seq<(u64, u32, u64)>,
    now: u64,
    ttl: u64,
)
    requires
        magic.len() == 4,
        crate::sync_codec::all_finite(crate::sync_codec::body_words(body)),
    ensures
        peer_outcome(magic, version, local, freeze_wire(magic, version, PACKET_FREEZE, sender, target), seen, now, ttl)
            == (PeerEvent::Freeze { target_id: target }, seen),
        peer_outcome(magic, version, local, state_wire(magic, version, PACKET_STATE, PACKET_LEAVE, sender, body), seen, now, ttl)
            == (if sender == local { PeerEvent::Ignored } else { PeerEvent::State { player_id: sender, body } }, seen),
        peer_outcome(magic, version, local, state_wire(magic, version, PACKET_JOIN, PACKET_LEAVE, sender, body), seen, now, ttl)
            == (if sender == local { PeerEvent::Ignored } else { PeerEvent::State { player_id: sender, body } }, seen),
        peer_outcome(magic, version, local, state_wire(magic, version, PACKET_LEAVE, PACKET_LEAVE, sender, body), seen, now, ttl)
            == (if sender == local { PeerEvent::Ignored } else { PeerEvent::Leave { player_id: sender } }, seen),
{
    crate::sync_codec::lemma_freeze_roundtrip(magic, version, PACKET_FREEZE, sender, target);
    lemma_not_freeze_or_projectile(magic, version, PACKET_STATE, sender, body);
    lemma_not_freeze_or_projectile(magic, version, PACKET_JOIN, sender, body);
    lemma_not_freeze_or_projectile(magic, version, PACKET_LEAVE, sender, body);
    crate::sync_codec::lemma_state_roundtrip(magic, version, PACKET_STATE, PACKET_LEAVE, sender, body);
    crate::sync_codec::lemma_state_roundtrip(magic, version, PACKET_JOIN, PACKET_LEAVE, sender, body);
    crate::sync_codec::lemma_state_roundtrip(magic, version, PACKET_LEAVE, PACKET_LEAVE, sender, body);
}

/// State packets (54 bytes, or 14 for a leave) are neither freeze (22) nor
/// projectile (46) packets.
proof fn lemma_not_freeze_or_projectile(magic: Seq<u8>, version: u8, t: u8, sender: u64, body: StateBody)
    requires
        magic.len() == 4,
    ensures
        parse_freeze(magic, version, PACKET_FREEZE, state_wire(magic, version, t, PACKET_LEAVE, sender, body)) is None,
        parse_projectile(magic, version, PACKET_PROJECTILE, state_wire(magic, version, t, PACKET_LEAVE, sender, body)) is None,
{
    crate::sync_codec::lemma_words_len(crate::sync_codec::body_words(body));
}

/// Handles an incoming sync packet at peer `local_player_id`: a freeze packet
/// freezes its target; a projectile from another player is shown unless the
/// same projectile was seen within `ttl` (see `accept_recent_projectile`);
/// otherwise a state packet is read with `PACKET_LEAVE` as the leave type and
/// gives `state_event`. Packets this peer sent itself are ignored.
pub fn process_peer_packet(
    magic: [u8; 4],
    version: u8,
    local_player_id: u64,
    data: &[u8],
    seen_projectiles: &mut SeenProjectiles,
    now: u64,
    ttl: u64,
) -> (ev: PeerEvent)
    requires
        old(seen_projectiles).wf(),
    ensures
        final(seen_projectiles).wf(),
        (ev, final(seen_projectiles).entries_view()) == peer_outcome(magic@, version, local_player_id, data@, old(seen_projectiles).entries_view(), now, ttl),
{
    if let Some((_sender_id, target_id)) = decode_freeze_packet(magic, version, PACKET_FREEZE, data) {
        return PeerEvent::Freeze { target_id };
    }
    if let Some((player_id, projectile)) = decode_projectile_packet(
        magic,
        version,
        PACKET_PROJECTILE,
        data,
    ) {
        if player_id != local_player_id && accept_recent_projectile(
            seen_projectiles,
            player_id,
            projectile.projectile_id,
            now,
            ttl,
        ) {
            return PeerEvent::Projectile { sender_id: player_id, projectile };
        }
        return PeerEvent::Ignored;
    }
    match decode_state_packet(magic, version, PACKET_LEAVE, data) {
        Some((packet_type, player_id, body)) => {
            if player_id == local_player_id {
                return PeerEvent::Ignored;
            }
            if packet_type == PACKET_STATE || packet_type == PACKET_JOIN {
                match body {
                    Some(b) => PeerEvent::State { player_id, body: b },
                    None => PeerEvent::Ignored,
                }
            } else if packet_type == PACKET_LEAVE {
                PeerEvent::Leave { player_id }
            } else {
                PeerEvent::Ignored
            }
        },
        None => PeerEvent::Ignored,
    }
}

/// The host's verdict on a packet received by the game service.
#[derive(Debug, Clone, Copy, PartialEq, Eq)]
pub enum InputVerdict {
    /// Not an input packet.
    NotInput,
    /// The session token belongs to no player.
    UnknownToken,
    /// The player's input comes from another address than its first input.
    PeerMismatch,
    /// The sequence number is not above the player's last accepted one.
    Replay,
    /// The payload is too short to be an input.
    BadPayload,
    /// A new input of the player: movement words, jump flag and color.
    Accepted { player_id: u64, move_x: u32, move_z: u32, jump: bool, rgb: [u8; 3] },
}

/// The host's records for admitting authenticated input.
#[derive(Debug)]
pub struct InputGuard {
    /// The player each issued session token belongs to.
    pub token_to_player: HashMap<u128, u64>,
    /// The address each player's first input came from.
    pub player_ingress_addr: HashMap<u64, PeerAddr>,
    /// The last accepted sequence number of each player.
    pub last_input_sequence_by_player: HashMap<u64, u32>,
}

/// The last accepted sequence number of `player_id`, 0 before any.
pub open spec fn last_sequence(seqs: Map<u64, u32>, player_id: u64) -> u32 {
    if seqs.contains_key(player_id) {
        seqs[player_id]
    } else {
        0
    }
}

/// The host's judgement of a packet from `from`, with the token, address
/// and sequence records before it: the verdict and the address and sequence
/// records after it. An input packet with a known token binds the player to
/// `from` on its first input, and is then refused from any other address; it
/// is accepted when its sequence number is above the player's last accepted
/// one and its payload decodes, and the sequence number is then recorded.
pub open spec fn admission_outcome<P>(
    magic: Seq<u8>,
    version: u8,
    from: P,
    data: Seq<u8>,
    tokens: Map<u128, u64>,
    peers: Map<u64, P>,
    seqs: Map<u64, u32>,
) -> (InputVerdict, Map<u64, P>, Map<u64, u32>) {
    match parse_input_packet(magic, version, data) {
        None => (InputVerdict::NotInput, peers, seqs),
        Some((token, seq, payload)) => if !tokens.contains_key(token) {
            (InputVerdict::UnknownToken, peers, seqs)
        } else {
            let pid = tokens[token];
            if peers.contains_key(pid) && peers[pid] != from {
                (InputVerdict::PeerMismatch, peers, seqs)
            } else {
                let peers2 = peers.insert(pid, from);
                if seq <= last_sequence(seqs, pid) {
                    (InputVerdict::Replay, peers2, seqs)
                } else {
                    match parse_input_payload(payload) {
                        None => (InputVerdict::BadPayload, peers2, seqs),
                        Some((x, z, j, c)) => (
                            InputVerdict::Accepted { player_id: pid, move_x: x, move_z: z, jump: j, rgb: c },
                            peers2,
                            seqs.insert(pid, seq),
                        ),
                    }
                }
            }
        },
    }
}

impl InputGuard {
    /// A guard with no tokens, addresses or sequence numbers.
    pub fn new() -> (g: Self)
        ensures
            g.token_to_player@ == Map::<u128, u64>::empty(),
            g.player_ingress_addr@ == Map::<u64, PeerAddr>::empty(),
            g.last_input_sequence_by_player@ == Map::<u64, u32>::empty(),
    {
        InputGuard {
            token_to_player: HashMap::new(),
            player_ingress_addr: HashMap::new(),
            last_input_sequence_by_player: HashMap::new(),
        }
    }

    /// Records that `token` was issued to `player_id`.
    pub fn register_token(&mut self, token: u128, player_id: u64)
        ensures
            final(self).token_to_player@ == old(self).token_to_player@.insert(token, player_id),
            final(self).player_ingress_addr@ == old(self).player_ingress_addr@,
            final(self).last_input_sequence_by_player@ == old(self).last_input_sequence_by_player@,
    {
        self.token_to_player.insert(token, player_id);
    }

    /// Judges a packet from `from`; see `admission_outcome`.
    pub fn admit_input(&mut self, magic: [u8; 4], version: u8, from: PeerAddr, data: &[u8]) -> (v:
        InputVerdict)
        ensures
            final(self).token_to_player@ == old(self).token_to_player@,
            (v, final(self).player_ingress_addr@, final(self).last_input_sequence_by_player@) == admission_outcome(magic@, version, from, data@, old(self).token_to_player@, old(self).player_ingress_addr@, old(self).last_input_sequence_by_player@),
    {
        let (session_token, input_sequence, payload) = match decode_input_packet(magic, version, data) {
            Some(t) => t,
            None => {
                return InputVerdict::NotInput;
            },
        };
        let player_id = match self.token_to_player.get(&session_token) {
            Some(p) => *p,
            None => {
                return InputVerdict::UnknownToken;
            },
        };
        match self.player_ingress_addr.get(&player_id) {
            Some(addr) => {
                if *addr != from {
                    return InputVerdict::PeerMismatch;
                }
                proof {
                    assert(self.player_ingress_addr@.insert(player_id, from) =~= self.player_ingress_addr@);
                }
            },
            None => {
                self.player_ingress_addr.insert(player_id, from);
            },
        }
        let last = match self.last_input_sequence_by_player.get(&player_id) {
            Some(s) => *s,
            None => 0,
        };
        if input_sequence <= last {
            return InputVerdict::Replay;
        }
        match decode_input_payload(payload.as_slice()) {
            Some((move_x, move_z, jump, rgb)) => {
                self.last_input_sequence_by_player.insert(player_id, input_sequence);
                InputVerdict::Accepted { player_id, move_x, move_z, jump, rgb }
            },
            None => InputVerdict::BadPayload,
        }
    }
}


/// What the host's auth service does with a packet.
#[derive(Debug)]
pub enum AuthServiceAction {
    /// Not a hello or proof packet; the game service takes it.
    NotAuth,
    /// Handled, with nothing to send.
    Handled,
    /// Send these bytes back to the sender.
    Reply(Vec<u8>),
    /// A player was accepted: send `reply` back; `token` is now registered
    /// for `player_id`.
    Accepted { reply: Vec<u8>, player_id: u64, token: u128 },
}

/// The host's auth service. A hello is answered with the challenge of the
/// sender's session (created if new), which then records the announced
/// player. A proof that the server accepts for the sender's session is
/// answered with an accept carrying the session's new token, which the guard
/// registers for the player; a refused proof is answered with nothing.
pub fn process_auth_service_packet(
    server: &mut ServerNetworkManager,
    guard: &mut InputGuard,
    magic: [u8; 4],
    version: u8,
    from: PeerAddr,
    data: &[u8],
) -> (a: AuthServiceAction)
    requires
        old(server).wf(),
    ensures
        final(server).wf(),
        final(server).auth == old(server).auth,
        final(guard).player_ingress_addr@ == old(guard).player_ingress_addr@,
        final(guard).last_input_sequence_by_player@ == old(guard).last_input_sequence_by_player@,
        parse_hello(magic@, version, data@) matches Some(pid) ==> {
            &&& final(guard).token_to_player@ == old(guard).token_to_player@
            &&& (a matches AuthServiceAction::Reply(bytes) && exists|nonce: u64| {
                &&& bytes@ == framed(magic@, version, PACKET_AUTH_CHALLENGE, le64(nonce))
                &&& session_of(final(server).session_by_addr@, final(server).sessions@, from) matches Some(sid)
                    && final(server).sessions@[sid].auth_nonce == nonce
                    && final(server).sessions@[sid].player_id == Some(pid)
            })
        },
        parse_hello(magic@, version, data@) is None && parse_proof(magic@, version, data@) is None ==> {
            &&& a is NotAuth
            &&& final(guard).token_to_player@ == old(guard).token_to_player@
            &&& final(server).sessions@ == old(server).sessions@
            &&& final(server).session_by_addr@ == old(server).session_by_addr@
        },
        parse_hello(magic@, version, data@) is None ==> (parse_proof(magic@, version, data@) matches Some(proof) ==> {
            let accepted = session_of(old(server).session_by_addr@, old(server).sessions@, from) matches Some(sid)
                && accepts_packet(old(server).auth.auth_secret@, old(server).sessions@[sid], ServerIngressPacket::AuthResponse { proof });
            &&& final(server).session_by_addr@ == old(server).session_by_addr@
            &&& !accepted ==> (a is Handled && final(guard).token_to_player@ == old(guard).token_to_player@
                && final(server).sessions@ == old(server).sessions@)
            &&& accepted ==> (a matches AuthServiceAction::Accepted { reply, player_id, token } && {
                &&& player_id == proof.player_id
                &&& reply@ == framed(magic@, version, PACKET_AUTH_ACCEPT, le128(token))
                &&& final(guard).token_to_player@ == old(guard).token_to_player@.insert(token, player_id)
                &&& session_of(final(server).session_by_addr@, final(server).sessions@, from) matches Some(sid)
                    && final(server).sessions@[sid].session_token == Some(token)
                    && final(server).sessions@[sid].player_id == Some(player_id)
            })
        }),
{
    if let Some(player_id) = decode_auth_hello(magic, version, data) {
        let (_sid, egress) = match server.handle_connection_request(from) {
            Ok(t) => t,
            Err(_) => {
                return AuthServiceAction::Handled;
            },
        };
        let nonce = match egress {
            crate::server::ServerEgressPacket::AuthChallenge { nonce } => nonce,
            _ => {
                return AuthServiceAction::Handled;
            },
        };
        let reply = encode_auth_challenge(magic, version, nonce);
        if let Some(session_id) = server.session_by_addr.get(&from) {
            if let Some(mut session) = server.sessions.remove(&session_id) {
                session.player_id = Some(player_id);
                server.sessions.insert(session_id, session);
            }
        }
        return AuthServiceAction::Reply(reply);
    }
    if let Some(proof) = decode_auth_proof(magic, version, data) {
        let disposition = match server.process_client_packet(
            from,
            ServerIngressPacket::AuthResponse { proof },
        ) {
            Ok(d) => d,
            Err(_) => {
                return AuthServiceAction::Handled;
            },
        };
        if disposition == PacketDisposition::Accepted {
            if let Some(session_id) = server.session_by_addr.get(&from) {
                if let Some(session) = server.sessions.get(&session_id) {
                    if let (Some(token), Some(player_id)) = (session.session_token, session.player_id) {
                        guard.register_token(token, player_id);
                        let reply = encode_auth_accept(magic, version, token);
                        return AuthServiceAction::Accepted { reply, player_id, token };
                    }
                }
            }
        }
        return AuthServiceAction::Handled;
    }
    AuthServiceAction::NotAuth
}

/// What a client does with a packet from the host.
#[derive(Debug)]
pub enum ClientAction {
    /// Send this proof packet to the host.
    SendProof(Vec<u8>),
    /// The host accepted us with this session token.
    Authenticated(u128),
    /// The host's snapshot of every player.
    Snapshot(Vec<SnapshotEntry>),
    /// Nothing to do.
    Ignored,
}

/// A client's handling of a host packet: a challenge is answered with the
/// manager's proof for its nonce; an accept marks the manager authenticated
/// with the token; a snapshot is handed on.
pub fn process_client_packet(
    manager: &mut ClientNetworkManager,
    magic: [u8; 4],
    version: u8,
    data: &[u8],
) -> (a: ClientAction)
    ensures
        final(manager).player_id == old(manager).player_id,
        final(manager).auth_secret == old(manager).auth_secret,
        parse_challenge(magic@, version, data@) matches Some(nonce) ==> {
            &&& (a matches ClientAction::SendProof(bytes) && bytes@ == framed(
                magic@,
                version,
                PACKET_AUTH_PROOF,
                le64(old(manager).player_id) + le64(nonce) + le64(digest_of(old(manager).auth_secret@, old(manager).player_id, nonce)),
            ))
            &&& final(manager).auth_state == ClientAuthState::AwaitingAcceptance
        },
        parse_challenge(magic@, version, data@) is None ==> (parse_accept(magic@, version, data@) matches Some(token) ==> {
            &&& a == ClientAction::Authenticated(token)
            &&& final(manager).auth_state == ClientAuthState::Authenticated
            &&& final(manager).session_token == Some(token)
        }),
        parse_challenge(magic@, version, data@) is None && parse_accept(magic@, version, data@) is None ==> {
            &&& *final(manager) == *old(manager)
            &&& match parse_snapshot(magic@, version, data@) {
                Some(es) => (a matches ClientAction::Snapshot(v) && v@ == es),
                None => a is Ignored,
            }
        },
{
    if let Some(nonce) = decode_auth_challenge(magic, version, data) {
        let proof = manager.respond_to_challenge(nonce);
        return ClientAction::SendProof(encode_auth_proof(magic, version, proof));
    }
    if let Some(token) = decode_auth_accept(magic, version, data) {
        manager.mark_authenticated(token);
        return ClientAction::Authenticated(token);
    }
    match decode_snapshot_packet(magic, version, data) {
        Some(states) => ClientAction::Snapshot(states),
        None => ClientAction::Ignored,
    }
}


/// An input the guard accepted is refused as a replay when the same packet
/// comes again from the same address.
pub proof fn lemma_input_no_replay<P>(
    magic: Seq<u8>,
    version: u8,
    from: P,
    data: Seq<u8>,
    tokens: Map<u128, u64>,
    peers: Map<u64, P>,
    seqs: Map<u64, u32>,
)
    requires
        admission_outcome(magic, version, from, data, tokens, peers, seqs).0 is Accepted,
    ensures
        ({
            let first = admission_outcome(magic, version, from, data, tokens, peers, seqs);
            admission_outcome(magic, version, from, data, tokens, first.1, first.2).0 == InputVerdict::Replay
        }),
{
}

/// Input sequence numbers only go forward: an accepted input carries a
/// sequence number above every one accepted before for its player, and after
/// it, input with the same token whose number is not above it is refused as
/// a replay, wherever it comes from: from the same address as a replay, from
/// another as a mismatch.
pub proof fn lemma_input_sequence_forward<P>(
    magic: Seq<u8>,
    version: u8,
    from: P,
    data: Seq<u8>,
    later_from: P,
    later: Seq<u8>,
    tokens: Map<u128, u64>,
    peers: Map<u64, P>,
    seqs: Map<u64, u32>,
)
    requires
        admission_outcome(magic, version, from, data, tokens, peers, seqs).0 is Accepted,
    ensures
        ({
            let first = admission_outcome(magic, version, from, data, tokens, peers, seqs);
            let (token, seq, payload) = parse_input_packet(magic, version, data)->Some_0;
            let pid = tokens[token];
            &&& parse_input_packet(magic, version, data) is Some
            &&& (!seqs.contains_key(pid) || seq > seqs[pid])
            &&& seq > 0
            &&& first.2[pid] == seq
            &&& (parse_input_packet(magic, version, later) matches Some((t2, s2, p2)) && t2 == token && s2 <= seq)
                ==> admission_outcome(magic, version, later_from, later, tokens, first.1, first.2).0 == if later_from == from {
                    InputVerdict::Replay
                } else {
                    InputVerdict::PeerMismatch
                }
        }),
{
}

/// Once a player's input was accepted from one address, input with its token
/// from any other address is refused.
pub proof fn lemma_input_bound_to_first_address<P>(
    magic: Seq<u8>,
    version: u8,
    from: P,
    other: P,
    data: Seq<u8>,
    data2: Seq<u8>,
    tokens: Map<u128, u64>,
    peers: Map<u64, P>,
    seqs: Map<u64, u32>,
)
    requires
        admission_outcome(magic, version, from, data, tokens, peers, seqs).0 is Accepted,
        other != from,
        parse_input_packet(magic, version, data2) matches Some((t2, s2, p2)) && parse_input_packet(
            magic,
            version,
            data,
        ) matches Some((t1, s1, p1)) && t2 == t1,
    ensures
        ({
            let first = admission_outcome(magic, version, from, data, tokens, peers, seqs);
            admission_outcome(magic, version, other, data2, tokens, first.1, first.2).0
                == InputVerdict::PeerMismatch
        }),
{
}

} // verus!
