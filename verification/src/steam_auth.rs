//! The authentication handshake and input admission of the Steam P2P
//! transport. Peers are Steam IDs (their 64-bit values); packets carry the
//! "STMC" tag. The host answers hellos with challenges and valid proofs with
//! session tokens, and admits authenticated input; a client answers its
//! host's challenge and keeps the token it is given. Counters record the
//! traffic; they wrap at 2^64.

use vstd::prelude::*;
use std::collections::HashMap;
use crate::auth::{AuthProof, digest_of, proof_valid, session_token_at, token_at,
    make_auth_proof, verify_auth_proof};
use crate::auth_codec::{
    lemma_hello_roundtrip, lemma_proof_roundtrip,
    SnapshotEntry, decode_auth_accept, decode_auth_challenge, decode_auth_hello, decode_auth_proof,
    decode_input_packet, decode_input_payload, decode_snapshot_packet, encode_auth_accept,
    encode_auth_challenge, encode_auth_hello, encode_auth_proof, encode_input_packet, framed,
    input_packet_wire, parse_accept, parse_challenge, parse_hello, parse_input_packet,
    parse_input_payload, parse_proof, parse_snapshot, PACKET_AUTH_ACCEPT, PACKET_AUTH_CHALLENGE,
    PACKET_AUTH_HELLO, PACKET_AUTH_PROOF,
};
use crate::bytes::{le64, le128};
use crate::lan_sync::{admission_outcome, last_sequence, InputVerdict, STEAM_SYNC_MAGIC, SYNC_VERSION};
use crate::udmf::{all_digits, copy_range, digits_value, eq_ignore_case, lemma_digits_step, trim_text, utrim};
use vstd::utf8::{encode_utf8, valid_utf8};
use crate::clock::unix_time_nanos;
use crate::text::{decimal, push_decimal, push_str, text_of};

verus! {

broadcast use vstd::std_specs::hash::group_hash_axioms;

/// Counters of handshake and input traffic.
#[derive(Debug, Clone, Copy, PartialEq, Eq, Structural)]
pub struct SteamNetMetrics {
    pub client_auth_peer_mismatch_drops: u64,
    pub client_auth_challenges_received: u64,
    pub client_auth_proofs_sent: u64,
    pub client_auth_accepts_received: u64,
    pub client_input_packets_sent: u64,
    pub host_auth_hello_received: u64,
    pub host_auth_challenges_sent: u64,
    pub host_auth_proofs_received: u64,
    pub host_auth_accepts_sent: u64,
    pub host_auth_rejects: u64,
    pub host_input_packets_received: u64,
    pub host_input_packets_accepted: u64,
    pub host_token_rejects: u64,
    pub host_peer_mismatch_drops: u64,
    pub host_replay_drops: u64,
    pub host_payload_decode_rejects: u64,
}

impl SteamNetMetrics {
    /// All counters at zero.
    pub fn new() -> (m: Self)
        ensures
            m == zero_metrics(),
    {
        SteamNetMetrics {
            client_auth_peer_mismatch_drops: 0,
            client_auth_challenges_received: 0,
            client_auth_proofs_sent: 0,
            client_auth_accepts_received: 0,
            client_input_packets_sent: 0,
            host_auth_hello_received: 0,
            host_auth_challenges_sent: 0,
            host_auth_proofs_received: 0,
            host_auth_accepts_sent: 0,
            host_auth_rejects: 0,
            host_input_packets_received: 0,
            host_input_packets_accepted: 0,
            host_token_rejects: 0,
            host_peer_mismatch_drops: 0,
            host_replay_drops: 0,
            host_payload_decode_rejects: 0,
        }
    }
}

pub open spec fn zero_metrics() -> SteamNetMetrics {
    SteamNetMetrics {
        client_auth_peer_mismatch_drops: 0,
        client_auth_challenges_received: 0,
        client_auth_proofs_sent: 0,
        client_auth_accepts_received: 0,
        client_input_packets_sent: 0,
        host_auth_hello_received: 0,
        host_auth_challenges_sent: 0,
        host_auth_proofs_received: 0,
        host_auth_accepts_sent: 0,
        host_auth_rejects: 0,
        host_input_packets_received: 0,
        host_input_packets_accepted: 0,
        host_token_rejects: 0,
        host_peer_mismatch_drops: 0,
        host_replay_drops: 0,
        host_payload_decode_rejects: 0,
    }
}

/// `x` plus one, wrapping at 2^64.
pub open spec fn bump(x: u64) -> u64 {
    if x == u64::MAX {
        0
    } else {
        (x + 1) as u64
    }
}

fn bump_exec(x: u64) -> (r: u64)
    ensures
        r == bump(x),
{
    if x == u64::MAX {
        0
    } else {
        x + 1
    }
}

/// The host's handshake record for one peer.
#[derive(Debug, Clone, Copy, PartialEq, Eq, Structural)]
pub struct SteamAuthSession {
    /// The player the peer announced.
    pub player_id: u64,
    /// The challenge sent to the peer.
    pub nonce: u64,
    /// The token minted once the peer's proof was accepted.
    pub token: Option<u128>,
}

/// Where a client stands in the handshake with its host.
#[derive(Debug, Clone, Copy, PartialEq, Eq, Structural)]
pub enum SteamClientAuthState {
    Unauthenticated,
    AwaitingChallenge,
    Authenticated,
}

/// The handshake and input records of a Steam peer, as host and as client.
#[derive(Debug)]
pub struct SteamAuthState {
    /// The host that a client talks to, once known.
    pub auth_host: Option<u64>,
    pub client_auth_state: SteamClientAuthState,
    /// The token the host gave this client.
    pub client_session_token: Option<u128>,
    /// The sequence number of this client's last input packet.
    pub client_input_sequence: u32,
    /// The host's handshake record of each peer.
    pub auth_sessions: HashMap<u64, SteamAuthSession>,
    /// The player each minted token belongs to.
    pub token_to_player: HashMap<u128, u64>,
    /// The peer each player's first accepted input came from.
    pub player_ingress_peer: HashMap<u64, u64>,
    /// The last accepted input sequence number of each player.
    pub last_input_sequence_by_player: HashMap<u64, u32>,
    pub metrics: SteamNetMetrics,
}

impl SteamAuthState {
    /// A peer with no records, talking to `auth_host` when it is a client.
    pub fn new(auth_host: Option<u64>) -> (s: Self)
        ensures
            s.auth_host == auth_host,
            s.client_auth_state == SteamClientAuthState::Unauthenticated,
            s.client_session_token is None,
            s.client_input_sequence == 0,
            s.auth_sessions@ == Map::<u64, SteamAuthSession>::empty(),
            s.token_to_player@ == Map::<u128, u64>::empty(),
            s.player_ingress_peer@ == Map::<u64, u64>::empty(),
            s.last_input_sequence_by_player@ == Map::<u64, u32>::empty(),
            s.metrics == zero_metrics(),
    {
        SteamAuthState {
            auth_host,
            client_auth_state: SteamClientAuthState::Unauthenticated,
            client_session_token: None,
            client_input_sequence: 0,
            auth_sessions: HashMap::new(),
            token_to_player: HashMap::new(),
            player_ingress_peer: HashMap::new(),
            last_input_sequence_by_player: HashMap::new(),
            metrics: SteamNetMetrics::new(),
        }
    }
}

// ---------------------------------------------------------------------------
// Host: auth service
// ---------------------------------------------------------------------------

/// What the host's auth service does with a packet, as a value.
pub enum HostAuthStep {
    /// Not a hello or proof; the game service takes it.
    NotAuth,
    /// Send these bytes back to the peer.
    Reply(Seq<u8>),
    /// A proof was refused; nothing is sent.
    Rejected,
}

/// What the host's auth service does with a packet.
#[derive(Debug)]
pub enum HostAuthAction {
    NotAuth,
    Reply(Vec<u8>),
    Rejected,
}

impl HostAuthAction {
    pub open spec fn step(&self) -> HostAuthStep {
        match self {
            HostAuthAction::NotAuth => HostAuthStep::NotAuth,
            HostAuthAction::Reply(b) => HostAuthStep::Reply(b@),
            HostAuthAction::Rejected => HostAuthStep::Rejected,
        }
    }
}

/// The host's auth service on a packet from `remote`, given the sessions,
/// tokens and counters before it: what it does, and the sessions, tokens and
/// counters after. A hello records the announced player with the peer's
/// existing nonce (or `fresh` for a new peer) and no token, and is answered
/// with that nonce. A proof is accepted when the peer has a session whose
/// nonce and player it names and its digest is right under `secret`; the
/// token minted at clock reading `now` is then recorded for the session and
/// the player, and sent back. Any other proof is refused.
pub open spec fn host_auth_outcome(
    secret: Seq<char>,
    remote: u64,
    data: Seq<u8>,
    sessions: Map<u64, SteamAuthSession>,
    tokens: Map<u128, u64>,
    m: SteamNetMetrics,
    fresh: u64,
    now: u128,
) -> (HostAuthStep, Map<u64, SteamAuthSession>, Map<u128, u64>, SteamNetMetrics) {
    let magic = STEAM_SYNC_MAGIC@;
    match parse_hello(magic, SYNC_VERSION, data) {
        Some(pid) => {
            let nonce = if sessions.contains_key(remote) {
                sessions[remote].nonce
            } else {
                fresh
            };
            (
                HostAuthStep::Reply(framed(magic, SYNC_VERSION, PACKET_AUTH_CHALLENGE, le64(nonce))),
                sessions.insert(remote, SteamAuthSession { player_id: pid, nonce, token: None }),
                tokens,
                SteamNetMetrics {
                    host_auth_hello_received: bump(m.host_auth_hello_received),
                    host_auth_challenges_sent: bump(m.host_auth_challenges_sent),
                    ..m
                },
            )
        },
        None => match parse_proof(magic, SYNC_VERSION, data) {
            None => (HostAuthStep::NotAuth, sessions, tokens, m),
            Some(proof) => {
                let m1 = SteamNetMetrics {
                    host_auth_proofs_received: bump(m.host_auth_proofs_received),
                    ..m
                };
                if sessions.contains_key(remote) && proof.nonce == sessions[remote].nonce
                    && proof.player_id == sessions[remote].player_id && proof_valid(secret, proof) {
                    let token = token_at(secret, proof.player_id, proof.nonce, now);
                    (
                        HostAuthStep::Reply(framed(magic, SYNC_VERSION, PACKET_AUTH_ACCEPT, le128(token))),
                        sessions.insert(remote, SteamAuthSession { token: Some(token), ..sessions[remote] }),
                        tokens.insert(token, proof.player_id),
                        SteamNetMetrics { host_auth_accepts_sent: bump(m1.host_auth_accepts_sent), ..m1 },
                    )
                } else {
                    (
                        HostAuthStep::Rejected,
                        sessions,
                        tokens,
                        SteamNetMetrics { host_auth_rejects: bump(m1.host_auth_rejects), ..m1 },
                    )
                }
            },
        },
    }
}

impl SteamAuthState {
    /// The host's auth service with `fresh` as the nonce for a new peer and
    /// `now` as the clock reading for a minted token; see
    /// `host_auth_outcome`.
    pub fn process_host_auth_service_packet_at(
        &mut self,
        secret: &str,
        remote: u64,
        data: &[u8],
        fresh: u64,
        now: u128,
    ) -> (a: HostAuthAction)
        ensures
            (a.step(), final(self).auth_sessions@, final(self).token_to_player@, final(self).metrics)
                == host_auth_outcome(secret@, remote, data@, old(self).auth_sessions@, old(self).token_to_player@, old(self).metrics, fresh, now),
            final(self).auth_host == old(self).auth_host,
            final(self).client_auth_state == old(self).client_auth_state,
            final(self).client_session_token == old(self).client_session_token,
            final(self).client_input_sequence == old(self).client_input_sequence,
            final(self).player_ingress_peer@ == old(self).player_ingress_peer@,
            final(self).last_input_sequence_by_player@ == old(self).last_input_sequence_by_player@,
    {
        if let Some(player_id) = decode_auth_hello(STEAM_SYNC_MAGIC, SYNC_VERSION, data) {
            self.metrics.host_auth_hello_received = bump_exec(self.metrics.host_auth_hello_received);
            let nonce = match self.auth_sessions.get(&remote) {
                Some(session) => session.nonce,
                None => fresh,
            };
            self.auth_sessions.insert(remote, SteamAuthSession { player_id, nonce, token: None });
            self.metrics.host_auth_challenges_sent = bump_exec(self.metrics.host_auth_challenges_sent);
            return HostAuthAction::Reply(encode_auth_challenge(STEAM_SYNC_MAGIC, SYNC_VERSION, nonce));
        }
        if let Some(proof) = decode_auth_proof(STEAM_SYNC_MAGIC, SYNC_VERSION, data) {
            self.metrics.host_auth_proofs_received = bump_exec(self.metrics.host_auth_proofs_received);
            let session = match self.auth_sessions.get(&remote) {
                Some(s) => Some(*s),
                None => None,
            };
            if let Some(s) = session {
                if proof.nonce == s.nonce && proof.player_id == s.player_id && verify_auth_proof(
                    secret,
                    proof,
                ) {
                    let token = session_token_at(secret, proof.player_id, proof.nonce, now);
                    self.auth_sessions.insert(remote, SteamAuthSession { token: Some(token), ..s });
                    self.token_to_player.insert(token, proof.player_id);
                    self.metrics.host_auth_accepts_sent = bump_exec(self.metrics.host_auth_accepts_sent);
                    return HostAuthAction::Reply(encode_auth_accept(STEAM_SYNC_MAGIC, SYNC_VERSION, token));
                }
            }
            self.metrics.host_auth_rejects = bump_exec(self.metrics.host_auth_rejects);
            return HostAuthAction::Rejected;
        }
        HostAuthAction::NotAuth
    }

    /// The host's auth service, with a new peer's nonce and a minted token's
    /// clock reading taken from the system clock: the outcome is that of
    /// `host_auth_outcome` for some such readings.
    pub fn process_host_auth_service_packet(&mut self, secret: &str, remote: u64, data: &[u8]) -> (a:
        HostAuthAction)
        ensures
            exists|fresh: u64, now: u128|
                (a.step(), final(self).auth_sessions@, final(self).token_to_player@, final(self).metrics)
                    == #[trigger] host_auth_outcome(secret@, remote, data@, old(self).auth_sessions@, old(self).token_to_player@, old(self).metrics, fresh, now),
            final(self).auth_host == old(self).auth_host,
            final(self).client_auth_state == old(self).client_auth_state,
            final(self).client_session_token == old(self).client_session_token,
            final(self).client_input_sequence == old(self).client_input_sequence,
            final(self).player_ingress_peer@ == old(self).player_ingress_peer@,
            final(self).last_input_sequence_by_player@ == old(self).last_input_sequence_by_player@,
    {
        let now = unix_time_nanos();
        let fresh = now as u64;
        self.process_host_auth_service_packet_at(secret, remote, data, fresh, now)
    }
}

// ---------------------------------------------------------------------------
// Host: game service
// ---------------------------------------------------------------------------

/// The counters after the game service's verdict `v`.
pub open spec fn count_input(m: SteamNetMetrics, v: InputVerdict) -> SteamNetMetrics {
    let m1 = SteamNetMetrics { host_input_packets_received: bump(m.host_input_packets_received), ..m };
    match v {
        InputVerdict::NotInput => m,
        InputVerdict::UnknownToken => SteamNetMetrics { host_token_rejects: bump(m1.host_token_rejects), ..m1 },
        InputVerdict::PeerMismatch => SteamNetMetrics {
            host_peer_mismatch_drops: bump(m1.host_peer_mismatch_drops),
            ..m1
        },
        InputVerdict::Replay => SteamNetMetrics { host_replay_drops: bump(m1.host_replay_drops), ..m1 },
        InputVerdict::BadPayload => SteamNetMetrics {
            host_payload_decode_rejects: bump(m1.host_payload_decode_rejects),
            ..m1
        },
        InputVerdict::Accepted { .. } => SteamNetMetrics {
            host_input_packets_accepted: bump(m1.host_input_packets_accepted),
            ..m1
        },
    }
}

impl SteamAuthState {
    /// The host's game service on a packet from `remote`: the verdict and
    /// records of `admission_outcome`, with the counters of `count_input`.
    pub fn process_host_game_service_packet(&mut self, remote: u64, data: &[u8]) -> (v: InputVerdict)
        ensures
            (v, final(self).player_ingress_peer@, final(self).last_input_sequence_by_player@)
                == admission_outcome(STEAM_SYNC_MAGIC@, SYNC_VERSION, remote, data@, old(self).token_to_player@, old(self).player_ingress_peer@, old(self).last_input_sequence_by_player@),
            final(self).metrics == count_input(old(self).metrics, v),
            final(self).token_to_player@ == old(self).token_to_player@,
            final(self).auth_sessions@ == old(self).auth_sessions@,
            final(self).auth_host == old(self).auth_host,
            final(self).client_auth_state == old(self).client_auth_state,
            final(self).client_session_token == old(self).client_session_token,
            final(self).client_input_sequence == old(self).client_input_sequence,
    {
        let (session_token, input_sequence, payload) = match decode_input_packet(
            STEAM_SYNC_MAGIC,
            SYNC_VERSION,
            data,
        ) {
            Some(t) => t,
            None => {
                return InputVerdict::NotInput;
            },
        };
        self.metrics.host_input_packets_received = bump_exec(self.metrics.host_input_packets_received);
        let player_id = match self.token_to_player.get(&session_token) {
            Some(p) => *p,
            None => {
                self.metrics.host_token_rejects = bump_exec(self.metrics.host_token_rejects);
                return InputVerdict::UnknownToken;
            },
        };
        match self.player_ingress_peer.get(&player_id) {
            Some(peer) => {
                if *peer != remote {
                    self.metrics.host_peer_mismatch_drops = bump_exec(self.metrics.host_peer_mismatch_drops);
                    return InputVerdict::PeerMismatch;
                }
                proof {
                    assert(self.player_ingress_peer@.insert(player_id, remote) =~= self.player_ingress_peer@);
                }
            },
            None => {
                self.player_ingress_peer.insert(player_id, remote);
            },
        }
        let last = match self.last_input_sequence_by_player.get(&player_id) {
            Some(s) => *s,
            None => 0,
        };
        if input_sequence <= last {
            self.metrics.host_replay_drops = bump_exec(self.metrics.host_replay_drops);
            return InputVerdict::Replay;
        }
        match decode_input_payload(payload.as_slice()) {
            Some((move_x, move_z, jump, rgb)) => {
                self.last_input_sequence_by_player.insert(player_id, input_sequence);
                self.metrics.host_input_packets_accepted = bump_exec(self.metrics.host_input_packets_accepted);
                InputVerdict::Accepted { player_id, move_x, move_z, jump, rgb }
            },
            None => {
                self.metrics.host_payload_decode_rejects = bump_exec(self.metrics.host_payload_decode_rejects);
                InputVerdict::BadPayload
            },
        }
    }
}

/// What the host does with a packet from a peer.
#[derive(Debug)]
pub enum HostPacketAction {
    /// The auth service handled it.
    Auth(HostAuthAction),
    /// The game service judged it.
    Game(InputVerdict),
}

impl SteamAuthState {
    /// A packet at the host: the auth service first; what it does not take
    /// goes to the game service.
    pub fn process_host_packet(&mut self, secret: &str, remote: u64, data: &[u8]) -> (a: HostPacketAction)
        ensures
            (parse_hello(STEAM_SYNC_MAGIC@, SYNC_VERSION, data@) is Some || parse_proof(STEAM_SYNC_MAGIC@, SYNC_VERSION, data@) is Some)
                ==> (a matches HostPacketAction::Auth(x) && exists|fresh: u64, now: u128|
                (x.step(), final(self).auth_sessions@, final(self).token_to_player@, final(self).metrics)
                    == #[trigger] host_auth_outcome(secret@, remote, data@, old(self).auth_sessions@, old(self).token_to_player@, old(self).metrics, fresh, now)),
            (parse_hello(STEAM_SYNC_MAGIC@, SYNC_VERSION, data@) is Some || parse_proof(STEAM_SYNC_MAGIC@, SYNC_VERSION, data@) is Some)
                ==> final(self).player_ingress_peer@ == old(self).player_ingress_peer@
                && final(self).last_input_sequence_by_player@ == old(self).last_input_sequence_by_player@,
            (parse_hello(STEAM_SYNC_MAGIC@, SYNC_VERSION, data@) is None && parse_proof(STEAM_SYNC_MAGIC@, SYNC_VERSION, data@) is None)
                ==> (a matches HostPacketAction::Game(v) && (v, final(self).player_ingress_peer@, final(self).last_input_sequence_by_player@)
                == admission_outcome(STEAM_SYNC_MAGIC@, SYNC_VERSION, remote, data@, old(self).token_to_player@, old(self).player_ingress_peer@, old(self).last_input_sequence_by_player@)
                && final(self).metrics == count_input(old(self).metrics, v)
                && final(self).token_to_player@ == old(self).token_to_player@
                && final(self).auth_sessions@ == old(self).auth_sessions@),
            final(self).auth_host == old(self).auth_host,
            final(self).client_auth_state == old(self).client_auth_state,
            final(self).client_session_token == old(self).client_session_token,
            final(self).client_input_sequence == old(self).client_input_sequence,
    {
        match self.process_host_auth_service_packet(secret, remote, data) {
            HostAuthAction::NotAuth => HostPacketAction::Game(self.process_host_game_service_packet(remote, data)),
            handled => HostPacketAction::Auth(handled),
        }
    }
}

// ---------------------------------------------------------------------------
// Client
// ---------------------------------------------------------------------------

/// What a client does with a packet.
#[derive(Debug)]
pub enum SteamClientAction {
    /// The packet did not come from the client's host; it is dropped.
    PeerMismatch,
    /// Send this proof packet to the host.
    SendProofToHost(Vec<u8>),
    /// The host accepted the client with this token.
    Authenticated(u128),
    /// The host's snapshot of every player.
    Snapshot(Vec<SnapshotEntry>),
    /// Nothing to do.
    Ignored,
}

impl SteamAuthState {
    /// Starts a client's handshake: the hello packet for `local_id`, after
    /// which the client awaits a challenge.
    pub fn begin_client_auth(&mut self, local_id: u64) -> (hello: Vec<u8>)
        ensures
            hello@ == framed(STEAM_SYNC_MAGIC@, SYNC_VERSION, PACKET_AUTH_HELLO, le64(local_id)),
            *final(self) == (SteamAuthState { client_auth_state: SteamClientAuthState::AwaitingChallenge, ..*old(self) }),
    {
        self.client_auth_state = SteamClientAuthState::AwaitingChallenge;
        encode_auth_hello(STEAM_SYNC_MAGIC, SYNC_VERSION, local_id)
    }

    /// A client's handling of a packet from `remote`. Packets from a peer
    /// other than the known host are dropped and counted. A challenge is
    /// answered with the proof for `local_id` and the nonce under `secret`;
    /// an accept records the token and marks the client authenticated; a
    /// snapshot is handed on.
    pub fn process_client_packet(&mut self, secret: &str, remote: u64, local_id: u64, data: &[u8]) -> (a:
        SteamClientAction)
        ensures
            final(self).auth_host == old(self).auth_host,
            final(self).client_input_sequence == old(self).client_input_sequence,
            final(self).auth_sessions@ == old(self).auth_sessions@,
            final(self).token_to_player@ == old(self).token_to_player@,
            final(self).player_ingress_peer@ == old(self).player_ingress_peer@,
            final(self).last_input_sequence_by_player@ == old(self).last_input_sequence_by_player@,
            old(self).auth_host matches Some(h) && h != remote ==> {
                &&& a is PeerMismatch
                &&& final(self).metrics == (SteamNetMetrics {
                    client_auth_peer_mismatch_drops: bump(old(self).metrics.client_auth_peer_mismatch_drops),
                    ..old(self).metrics
                })
                &&& final(self).client_auth_state == old(self).client_auth_state
                &&& final(self).client_session_token == old(self).client_session_token
            },
            !(old(self).auth_host matches Some(h) && h != remote) ==> {
                match parse_challenge(STEAM_SYNC_MAGIC@, SYNC_VERSION, data@) {
                    Some(nonce) => {
                        &&& a matches SteamClientAction::SendProofToHost(bytes) && bytes@ == framed(
                            STEAM_SYNC_MAGIC@,
                            SYNC_VERSION,
                            PACKET_AUTH_PROOF,
                            le64(local_id) + le64(nonce) + le64(digest_of(secret@, local_id, nonce)),
                        )
                        &&& final(self).metrics == (SteamNetMetrics {
                            client_auth_challenges_received: bump(old(self).metrics.client_auth_challenges_received),
                            client_auth_proofs_sent: bump(old(self).metrics.client_auth_proofs_sent),
                            ..old(self).metrics
                        })
                        &&& final(self).client_auth_state == old(self).client_auth_state
                        &&& final(self).client_session_token == old(self).client_session_token
                    },
                    None => match parse_accept(STEAM_SYNC_MAGIC@, SYNC_VERSION, data@) {
                        Some(token) => {
                            &&& a == SteamClientAction::Authenticated(token)
                            &&& final(self).metrics == (SteamNetMetrics {
                                client_auth_accepts_received: bump(old(self).metrics.client_auth_accepts_received),
                                ..old(self).metrics
                            })
                            &&& final(self).client_auth_state == SteamClientAuthState::Authenticated
                            &&& final(self).client_session_token == Some(token)
                        },
                        None => {
                            &&& final(self).metrics == old(self).metrics
                            &&& final(self).client_auth_state == old(self).client_auth_state
                            &&& final(self).client_session_token == old(self).client_session_token
                            &&& match parse_snapshot(STEAM_SYNC_MAGIC@, SYNC_VERSION, data@) {
                                Some(es) => a matches SteamClientAction::Snapshot(v) && v@ == es,
                                None => a is Ignored,
                            }
                        },
                    },
                }
            },
    {
        if let Some(host) = self.auth_host {
            if host != remote {
                self.metrics.client_auth_peer_mismatch_drops = bump_exec(
                    self.metrics.client_auth_peer_mismatch_drops,
                );
                return SteamClientAction::PeerMismatch;
            }
        }
        if let Some(nonce) = decode_auth_challenge(STEAM_SYNC_MAGIC, SYNC_VERSION, data) {
            self.metrics.client_auth_challenges_received = bump_exec(
                self.metrics.client_auth_challenges_received,
            );
            let proof = make_auth_proof(secret, local_id, nonce);
            let payload = encode_auth_proof(STEAM_SYNC_MAGIC, SYNC_VERSION, proof);
            self.metrics.client_auth_proofs_sent = bump_exec(self.metrics.client_auth_proofs_sent);
            return SteamClientAction::SendProofToHost(payload);
        }
        if let Some(token) = decode_auth_accept(STEAM_SYNC_MAGIC, SYNC_VERSION, data) {
            self.metrics.client_auth_accepts_received = bump_exec(self.metrics.client_auth_accepts_received);
            self.client_session_token = Some(token);
            self.client_auth_state = SteamClientAuthState::Authenticated;
            return SteamClientAction::Authenticated(token);
        }
        match decode_snapshot_packet(STEAM_SYNC_MAGIC, SYNC_VERSION, data) {
            Some(states) => SteamClientAction::Snapshot(states),
            None => SteamClientAction::Ignored,
        }
    }

    /// The client's next input packet carrying `payload`: only once
    /// authenticated with a token; the sequence number advances (wrapping)
    /// and the packet is counted.
    pub fn next_client_input_packet(&mut self, payload: &[u8]) -> (r: Option<Vec<u8>>)
        ensures
            match (old(self).client_auth_state, old(self).client_session_token) {
                (SteamClientAuthState::Authenticated, Some(token)) => {
                    let seq = if old(self).client_input_sequence == u32::MAX {
                        0u32
                    } else {
                        (old(self).client_input_sequence + 1) as u32
                    };
                    &&& r matches Some(bytes) && bytes@ == input_packet_wire(STEAM_SYNC_MAGIC@, SYNC_VERSION, token, seq, payload@)
                    &&& *final(self) == (SteamAuthState {
                        client_input_sequence: seq,
                        metrics: SteamNetMetrics {
                            client_input_packets_sent: bump(old(self).metrics.client_input_packets_sent),
                            ..old(self).metrics
                        },
                        ..*old(self)
                    })
                },
                _ => r is None && *final(self) == *old(self),
            },
    {
        if self.client_auth_state != SteamClientAuthState::Authenticated {
            return None;
        }
        let token = match self.client_session_token {
            Some(t) => t,
            None => {
                return None;
            },
        };
        self.client_input_sequence = if self.client_input_sequence == u32::MAX {
            0
        } else {
            self.client_input_sequence + 1
        };
        let packet = encode_input_packet(STEAM_SYNC_MAGIC, SYNC_VERSION, token, self.client_input_sequence, payload);
        self.metrics.client_input_packets_sent = bump_exec(self.metrics.client_input_packets_sent);
        Some(packet)
    }
}

// ---------------------------------------------------------------------------
// Laws
// ---------------------------------------------------------------------------

/// The hello packet of `player_id`.
pub open spec fn steam_hello(player_id: u64) -> Seq<u8> {
    framed(STEAM_SYNC_MAGIC@, SYNC_VERSION, PACKET_AUTH_HELLO, le64(player_id))
}

/// The proof packet that a client with `secret` sends for `player_id`
/// answering `nonce`.
pub open spec fn steam_proof(secret: Seq<char>, player_id: u64, nonce: u64) -> Seq<u8> {
    framed(
        STEAM_SYNC_MAGIC@,
        SYNC_VERSION,
        PACKET_AUTH_PROOF,
        le64(player_id) + le64(nonce) + le64(digest_of(secret, player_id, nonce)),
    )
}

/// The handshake: a hello from a peer is answered with a challenge, and the
/// proof that a client sharing the host's secret makes for that challenge is
/// accepted, with an accept carrying the minted token, which the host then
/// maps to the player.
pub proof fn lemma_steam_handshake_accepted(
    secret: Seq<char>,
    remote: u64,
    player_id: u64,
    sessions: Map<u64, SteamAuthSession>,
    tokens: Map<u128, u64>,
    m: SteamNetMetrics,
    fresh: u64,
    now: u128,
    fresh2: u64,
    now2: u128,
)
    ensures
        ({
            let first = host_auth_outcome(secret, remote, steam_hello(player_id), sessions, tokens, m, fresh, now);
            let nonce = if sessions.contains_key(remote) {
                sessions[remote].nonce
            } else {
                fresh
            };
            let second = host_auth_outcome(secret, remote, steam_proof(secret, player_id, nonce), first.1, first.2, first.3, fresh2, now2);
            let token = token_at(secret, player_id, nonce, now2);
            &&& first.0 == HostAuthStep::Reply(framed(STEAM_SYNC_MAGIC@, SYNC_VERSION, PACKET_AUTH_CHALLENGE, le64(nonce)))
            &&& second.0 == HostAuthStep::Reply(framed(STEAM_SYNC_MAGIC@, SYNC_VERSION, PACKET_AUTH_ACCEPT, le128(token)))
            &&& second.2 == first.2.insert(token, player_id)
            &&& second.1[remote].token == Some(token)
        }),
{
    let magic = STEAM_SYNC_MAGIC@;
    assert(magic.len() == 4);
    lemma_hello_roundtrip(magic, SYNC_VERSION, player_id);
    let nonce = if sessions.contains_key(remote) {
        sessions[remote].nonce
    } else {
        fresh
    };
    let proof = AuthProof { player_id, nonce, digest: digest_of(secret, player_id, nonce) };
    lemma_proof_roundtrip(magic, SYNC_VERSION, proof);
    let p = steam_proof(secret, player_id, nonce);
    assert(p.len() == 30);
    assert(parse_hello(magic, SYNC_VERSION, p) is None);
}

/// An input that the host admitted is refused as a replay when the same
/// packet comes again from the same peer.
pub proof fn lemma_steam_input_no_replay(
    remote: u64,
    data: Seq<u8>,
    tokens: Map<u128, u64>,
    peers: Map<u64, u64>,
    seqs: Map<u64, u32>,
)
    requires
        admission_outcome(STEAM_SYNC_MAGIC@, SYNC_VERSION, remote, data, tokens, peers, seqs).0 is Accepted,
    ensures
        ({
            let first = admission_outcome(STEAM_SYNC_MAGIC@, SYNC_VERSION, remote, data, tokens, peers, seqs);
            admission_outcome(STEAM_SYNC_MAGIC@, SYNC_VERSION, remote, data, tokens, first.1, first.2).0
                == InputVerdict::Replay
        }),
{
    crate::lan_sync::lemma_input_no_replay(STEAM_SYNC_MAGIC@, SYNC_VERSION, remote, data, tokens, peers, seqs);
}

// ---------------------------------------------------------------------------
// Configuration
// ---------------------------------------------------------------------------

/// The part a peer plays in Steam sync.
#[derive(Debug, Clone, Copy, PartialEq, Eq, Structural)]
pub enum SteamRole {
    /// Sends its own state directly, without authentication.
    LegacyPeer,
    /// Authenticates peers and runs the authoritative simulation.
    AuthHost,
    /// Authenticates with a host and sends input.
    UntrustedClient,
}

/// "true"
pub const TRUE_TEXT: [u8; 4] = [116, 114, 117, 101];

/// Whether a flag's text turns it on: "1", or "true" in any ASCII case.
pub open spec fn flag_on(v: Seq<u8>) -> bool {
    v == seq![49u8] || eq_ignore_case(v, TRUE_TEXT@)
}

/// Whether the flag text `v` turns the flag on; see `flag_on`.
pub fn is_enabled_flag(v: &str) -> (r: bool)
    ensures
        r == flag_on(encode_utf8(v@)),
{
    let b = v.as_bytes();
    assert(b@ == encode_utf8(v@));
    let one = b.len() == 1 && b[0] == 49;
    proof {
        if one {
            assert(b@ =~= seq![49u8]);
        }
        if b@ == seq![49u8] {
            assert(b@.len() == 1 && b@[0] == 49);
        }
    }
    one || crate::udmf::eq_ignore_case_exec(b, TRUE_TEXT.as_slice())
}

/// The role a peer takes: host when the host flag is on, client when a host
/// id is configured, else a plain peer.
pub open spec fn role_for(host_flag: Option<Seq<u8>>, host_id_set: bool) -> SteamRole {
    if host_flag matches Some(v) && flag_on(v) {
        SteamRole::AuthHost
    } else if host_id_set {
        SteamRole::UntrustedClient
    } else {
        SteamRole::LegacyPeer
    }
}

/// The role from the host flag's text (if set) and whether a host id is set;
/// see `role_for`.
pub fn steam_role(host_flag: Option<&str>, host_id_set: bool) -> (r: SteamRole)
    ensures
        r == role_for(
            match host_flag {
                Some(v) => Some(encode_utf8(v@)),
                None => None,
            },
            host_id_set,
        ),
{
    let on = match host_flag {
        Some(v) => is_enabled_flag(v),
        None => false,
    };
    if on {
        SteamRole::AuthHost
    } else if host_id_set {
        SteamRole::UntrustedClient
    } else {
        SteamRole::LegacyPeer
    }
}

/// What `u64::from_str` gives: digits after an optional `+`, up to 2^64 - 1.
pub open spec fn parse_u64_text(t: Seq<u8>) -> Option<u64> {
    let d = if t.len() > 0 && t[0] == 43 {
        t.subrange(1, t.len() as int)
    } else {
        t
    };
    if d.len() == 0 || !all_digits(d) || digits_value(d) > u64::MAX {
        None
    } else {
        Some(digits_value(d) as u64)
    }
}

/// Reads a Steam ID as `u64::from_str` does; see `parse_u64_text`.
pub fn parse_steam_id(text: &[u8]) -> (r: Option<u64>)
    ensures
        r == parse_u64_text(text@),
{
    let n = text.len();
    let lo: usize = if n > 0 && text[0] == 43 {
        1
    } else {
        0
    };
    let ghost d = text@.subrange(lo as int, n as int);
    proof {
        if !(n > 0 && text@[0] == 43) {
            assert(d =~= text@);
        }
    }
    if lo >= n {
        return None;
    }
    let mut acc: u64 = 0;
    let mut i: usize = lo;
    while i < n
        invariant
            lo <= i <= n,
            n == text@.len(),
            d == text@.subrange(lo as int, n as int),
            d == (if n > 0 && text@[0] == 43 {
                text@.subrange(1, n as int)
            } else {
                text@
            }),
            lo < n,
            all_digits(d.take(i - lo)),
            acc == digits_value(d.take(i - lo)),
        decreases n - i,
    {
        let b = text[i];
        if b < 48 || b > 57 {
            assert(!(48 <= d[i - lo] <= 57));
            return None;
        }
        proof {
            lemma_digits_step(d, i - lo);
            assert(d.take(i + 1 - lo) =~= d.take(i - lo).push(b));
        }
        let digit = (b - 48) as u64;
        if acc > (u64::MAX - digit) / 10 {
            proof {
                assert(acc * 10 + digit > u64::MAX) by (nonlinear_arith)
                    requires
                        acc > (u64::MAX - digit) / 10,
                        digit <= 9,
                ;
                if all_digits(d) {
                    assert(d.take(d.len() as int) =~= d);
                    lemma_digits_grow(d, i + 1 - lo, d.len() as int);
                }
            }
            return None;
        }
        acc = acc * 10 + digit;
        i = i + 1;
    }
    assert(d.take(n - lo) =~= d);
    Some(acc)
}

/// More digits never give a smaller value.
proof fn lemma_digits_grow(d: Seq<u8>, k: int, m: int)
    requires
        0 <= k <= m <= d.len(),
        all_digits(d.take(m)),
    ensures
        digits_value(d.take(k)) <= digits_value(d.take(m)),
    decreases m - k,
{
    if k < m {
        lemma_digits_grow(d, k, m - 1);
        lemma_digits_step(d, m - 1);
        assert(d.take(m)[m - 1] == d[m - 1]);
    }
}

/// The Steam IDs in a comma-separated list, each trimmed; entries that are
/// not IDs are skipped.
pub open spec fn ids_in(segments: Seq<Seq<u8>>) -> Seq<u64>
    decreases segments.len(),
{
    if segments.len() == 0 {
        Seq::empty()
    } else {
        let rest = ids_in(segments.drop_last());
        match parse_u64_text(utrim(segments.last())) {
            Some(id) => rest.push(id),
            None => rest,
        }
    }
}

/// The pieces of `s` between commas, as `str::split(',')` gives them.
pub open spec fn comma_split(s: Seq<u8>) -> Seq<Seq<u8>>
    decreases s.len(),
{
    match crate::udmf::find_byte(s, 44, 0) {
        None => seq![s],
        Some(q) => {
            proof {
                crate::udmf::lemma_find_byte_bounds(s, 44, 0);
            }
            seq![s.subrange(0, q as int)] + comma_split(s.subrange(q + 1int, s.len() as int))
        },
    }
}

/// The Steam IDs of a comma-separated list; see `ids_in`.
pub fn parse_steam_ids(raw: &str) -> (r: Vec<u64>)
    ensures
        r@ == ids_in(comma_split(encode_utf8(raw@))),
{
    let b = raw.as_bytes();
    assert(b@ == encode_utf8(raw@));
    let n = b.len();
    let mut out: Vec<u64> = Vec::new();
    let mut start: usize = 0;
    let ghost mut done: Seq<Seq<u8>> = Seq::empty();
    proof {
        assert(b@.subrange(0, n as int) =~= b@);
    }
    loop
        invariant
            start <= n,
            n == b@.len(),
            b@ == encode_utf8(raw@),
            done + comma_split(b@.subrange(start as int, n as int)) == comma_split(b@),
            out@ == ids_in(done),
        decreases n - start,
    {
        let ghost rest = b@.subrange(start as int, n as int);
        let mut e: usize = start;
        while e < n && b[e] != 44
            invariant
                start <= e <= n,
                n == b@.len(),
                rest == b@.subrange(start as int, n as int),
                forall|k: int| start <= k < e ==> b@[k] != 44,
            decreases n - e,
        {
            e = e + 1;
        }
        let seg = copy_range(b, start, e);
        let t = trim_text(seg.as_slice());
        let ghost next_done = done.push(seg@);
        proof {
            assert(next_done.drop_last() =~= done);
        }
        match parse_steam_id(t.as_slice()) {
            Some(id) => out.push(id),
            None => {},
        }
        assert(out@ =~= ids_in(next_done));
        if e >= n {
            proof {
                assert forall|k: int| 0 <= k < rest.len() implies rest[k] != 44 by {
                    assert(rest[k] == b@[start + k]);
                }
                assert(crate::udmf::find_byte(rest, 44, 0) is None) by {
                    lemma_no_comma(rest, 0);
                }
                assert(seg@ =~= rest);
                assert(comma_split(rest) == seq![rest]);
                assert(done + comma_split(rest) =~= next_done);
                assert(comma_split(b@) == next_done);
            }
            return out;
        }
        proof {
            assert forall|k: int| 0 <= k < e - start implies rest[k] != 44 by {
                assert(rest[k] == b@[start + k]);
            }
            assert(rest[e - start] == 44);
            lemma_first_comma(rest, (e - start) as nat, 0);
            assert(rest.subrange(0, e - start) =~= seg@);
            assert(rest.subrange(e - start + 1, rest.len() as int) =~= b@.subrange(e + 1, n as int));
            assert(done + comma_split(rest) =~= next_done + comma_split(b@.subrange(e + 1, n as int)));
            done = next_done;
        }
        start = e + 1;
    }
}

proof fn lemma_no_comma(s: Seq<u8>, i: nat)
    requires
        forall|k: int| 0 <= k < s.len() ==> s[k] != 44,
    ensures
        crate::udmf::find_byte(s, 44, i) is None,
    decreases s.len() - i,
{
    if i < s.len() {
        lemma_no_comma(s, i + 1);
    }
}

proof fn lemma_first_comma(s: Seq<u8>, q: nat, i: nat)
    requires
        i <= q < s.len(),
        s[q as int] == 44,
        forall|k: int| 0 <= k < q ==> s[k] != 44,
    ensures
        crate::udmf::find_byte(s, 44, i) == Some(q),
    decreases q - i,
{
    if i < q {
        lemma_first_comma(s, q, i + 1);
    }
}


// ---------------------------------------------------------------------------
// Metrics text
// ---------------------------------------------------------------------------

/// The name of a role in the metrics text.
pub open spec fn role_text(role: SteamRole) -> Seq<char> {
    match role {
        SteamRole::LegacyPeer => "legacy-peer"@,
        SteamRole::AuthHost => "auth-host"@,
        SteamRole::UntrustedClient => "untrusted-client"@,
    }
}

/// The name of `role` in the metrics text.
pub fn role_label(role: SteamRole) -> (r: &'static str)
    ensures
        r@ == role_text(role),
{
    match role {
        SteamRole::LegacyPeer => "legacy-peer",
        SteamRole::AuthHost => "auth-host",
        SteamRole::UntrustedClient => "untrusted-client",
    }
}

/// The UTF-8 bytes of the metrics overlay: a title line, the role, then the
/// client, host and host-input counters, each as `name=value` in decimal.
pub open spec fn metrics_overlay_bytes(role: SteamRole, m: SteamNetMetrics) -> Seq<u8> {
    encode_utf8("Steam Net Metrics (F5 toggle)\nrole: "@) + encode_utf8(role_text(role))
        + encode_utf8("\nclient: challenge_rx="@) + decimal(m.client_auth_challenges_received as nat)
        + encode_utf8(" proof_tx="@) + decimal(m.client_auth_proofs_sent as nat)
        + encode_utf8(" accept_rx="@) + decimal(m.client_auth_accepts_received as nat)
        + encode_utf8(" auth_peer_drop="@) + decimal(m.client_auth_peer_mismatch_drops as nat)
        + encode_utf8(" input_tx="@) + decimal(m.client_input_packets_sent as nat)
        + encode_utf8("\nhost: hello_rx="@) + decimal(m.host_auth_hello_received as nat)
        + encode_utf8(" challenge_tx="@) + decimal(m.host_auth_challenges_sent as nat)
        + encode_utf8(" proof_rx="@) + decimal(m.host_auth_proofs_received as nat)
        + encode_utf8(" accept_tx="@) + decimal(m.host_auth_accepts_sent as nat)
        + encode_utf8(" auth_reject="@) + decimal(m.host_auth_rejects as nat)
        + encode_utf8("\nhost input: rx="@) + decimal(m.host_input_packets_received as nat)
        + encode_utf8(" accepted="@) + decimal(m.host_input_packets_accepted as nat)
        + encode_utf8(" token_reject="@) + decimal(m.host_token_rejects as nat)
        + encode_utf8(" peer_drop="@) + decimal(m.host_peer_mismatch_drops as nat)
        + encode_utf8(" replay_drop="@) + decimal(m.host_replay_drops as nat)
        + encode_utf8(" payload_reject="@) + decimal(m.host_payload_decode_rejects as nat)
}

/// The text of the metrics overlay; see `metrics_overlay_bytes`.
pub fn format_metrics_overlay_text(role: SteamRole, m: &SteamNetMetrics) -> (r: String)
    ensures
        encode_utf8(r@) == metrics_overlay_bytes(role, *m),
{
    let mut out: Vec<u8> = Vec::new();
    proof {
        assert(valid_utf8(out@));
    }
    push_str(&mut out, "Steam Net Metrics (F5 toggle)\nrole: ");
    push_str(&mut out, role_label(role));
    push_str(&mut out, "\nclient: challenge_rx=");
    push_decimal(&mut out, m.client_auth_challenges_received);
    push_str(&mut out, " proof_tx=");
    push_decimal(&mut out, m.client_auth_proofs_sent);
    push_str(&mut out, " accept_rx=");
    push_decimal(&mut out, m.client_auth_accepts_received);
    push_str(&mut out, " auth_peer_drop=");
    push_decimal(&mut out, m.client_auth_peer_mismatch_drops);
    push_str(&mut out, " input_tx=");
    push_decimal(&mut out, m.client_input_packets_sent);
    push_str(&mut out, "\nhost: hello_rx=");
    push_decimal(&mut out, m.host_auth_hello_received);
    push_str(&mut out, " challenge_tx=");
    push_decimal(&mut out, m.host_auth_challenges_sent);
    push_str(&mut out, " proof_rx=");
    push_decimal(&mut out, m.host_auth_proofs_received);
    push_str(&mut out, " accept_tx=");
    push_decimal(&mut out, m.host_auth_accepts_sent);
    push_str(&mut out, " auth_reject=");
    push_decimal(&mut out, m.host_auth_rejects);
    push_str(&mut out, "\nhost input: rx=");
    push_decimal(&mut out, m.host_input_packets_received);
    push_str(&mut out, " accepted=");
    push_decimal(&mut out, m.host_input_packets_accepted);
    push_str(&mut out, " token_reject=");
    push_decimal(&mut out, m.host_token_rejects);
    push_str(&mut out, " peer_drop=");
    push_decimal(&mut out, m.host_peer_mismatch_drops);
    push_str(&mut out, " replay_drop=");
    push_decimal(&mut out, m.host_replay_drops);
    push_str(&mut out, " payload_reject=");
    push_decimal(&mut out, m.host_payload_decode_rejects);
    proof {
        assert(Seq::<u8>::empty() + encode_utf8("Steam Net Metrics (F5 toggle)\nrole: "@) =~= encode_utf8("Steam Net Metrics (F5 toggle)\nrole: "@));
    }
    text_of(out)
}

/// The UTF-8 bytes of the periodic metrics log line: the role in a
/// `[steam-metrics][role]` prefix, then every counter as `name=value`.
pub open spec fn metrics_log_bytes(role: SteamRole, m: SteamNetMetrics) -> Seq<u8> {
    encode_utf8("[steam-metrics]["@) + encode_utf8(role_text(role))
        + encode_utf8("] client_auth_peer_mismatch_drops="@) + decimal(m.client_auth_peer_mismatch_drops as nat)
        + encode_utf8(" client_auth_challenges_received="@) + decimal(m.client_auth_challenges_received as nat)
        + encode_utf8(" client_auth_proofs_sent="@) + decimal(m.client_auth_proofs_sent as nat)
        + encode_utf8(" client_auth_accepts_received="@) + decimal(m.client_auth_accepts_received as nat)
        + encode_utf8(" client_input_packets_sent="@) + decimal(m.client_input_packets_sent as nat)
        + encode_utf8(" host_auth_hello_received="@) + decimal(m.host_auth_hello_received as nat)
        + encode_utf8(" host_auth_challenges_sent="@) + decimal(m.host_auth_challenges_sent as nat)
        + encode_utf8(" host_auth_proofs_received="@) + decimal(m.host_auth_proofs_received as nat)
        + encode_utf8(" host_auth_accepts_sent="@) + decimal(m.host_auth_accepts_sent as nat)
        + encode_utf8(" host_auth_rejects="@) + decimal(m.host_auth_rejects as nat)
        + encode_utf8(" host_input_packets_received="@) + decimal(m.host_input_packets_received as nat)
        + encode_utf8(" host_input_packets_accepted="@) + decimal(m.host_input_packets_accepted as nat)
        + encode_utf8(" host_token_rejects="@) + decimal(m.host_token_rejects as nat)
        + encode_utf8(" host_peer_mismatch_drops="@) + decimal(m.host_peer_mismatch_drops as nat)
        + encode_utf8(" host_replay_drops="@) + decimal(m.host_replay_drops as nat)
        + encode_utf8(" host_payload_decode_rejects="@) + decimal(m.host_payload_decode_rejects as nat)
}

/// The periodic metrics log line; see `metrics_log_bytes`.
pub fn metrics_log_line(role: SteamRole, m: &SteamNetMetrics) -> (r: String)
    ensures
        encode_utf8(r@) == metrics_log_bytes(role, *m),
{
    let mut out: Vec<u8> = Vec::new();
    proof {
        assert(valid_utf8(out@));
    }
    push_str(&mut out, "[steam-metrics][");
    push_str(&mut out, role_label(role));
    push_str(&mut out, "] client_auth_peer_mismatch_drops=");
    push_decimal(&mut out, m.client_auth_peer_mismatch_drops);
    push_str(&mut out, " client_auth_challenges_received=");
    push_decimal(&mut out, m.client_auth_challenges_received);
    push_str(&mut out, " client_auth_proofs_sent=");
    push_decimal(&mut out, m.client_auth_proofs_sent);
    push_str(&mut out, " client_auth_accepts_received=");
    push_decimal(&mut out, m.client_auth_accepts_received);
    push_str(&mut out, " client_input_packets_sent=");
    push_decimal(&mut out, m.client_input_packets_sent);
    push_str(&mut out, " host_auth_hello_received=");
    push_decimal(&mut out, m.host_auth_hello_received);
    push_str(&mut out, " host_auth_challenges_sent=");
    push_decimal(&mut out, m.host_auth_challenges_sent);
    push_str(&mut out, " host_auth_proofs_received=");
    push_decimal(&mut out, m.host_auth_proofs_received);
    push_str(&mut out, " host_auth_accepts_sent=");
    push_decimal(&mut out, m.host_auth_accepts_sent);
    push_str(&mut out, " host_auth_rejects=");
    push_decimal(&mut out, m.host_auth_rejects);
    push_str(&mut out, " host_input_packets_received=");
    push_decimal(&mut out, m.host_input_packets_received);
    push_str(&mut out, " host_input_packets_accepted=");
    push_decimal(&mut out, m.host_input_packets_accepted);
    push_str(&mut out, " host_token_rejects=");
    push_decimal(&mut out, m.host_token_rejects);
    push_str(&mut out, " host_peer_mismatch_drops=");
    push_decimal(&mut out, m.host_peer_mismatch_drops);
    push_str(&mut out, " host_replay_drops=");
    push_decimal(&mut out, m.host_replay_drops);
    push_str(&mut out, " host_payload_decode_rejects=");
    push_decimal(&mut out, m.host_payload_decode_rejects);
    proof {
        assert(Seq::<u8>::empty() + encode_utf8("[steam-metrics]["@) =~= encode_utf8("[steam-metrics]["@));
    }
    text_of(out)
}

} // verus!
