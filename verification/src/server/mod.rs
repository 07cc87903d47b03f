//! Server-side network manager: connection requests, the authentication
//! handshake and token-gated client input.

pub mod session;

use vstd::prelude::*;
use std::collections::HashMap;
use crate::auth::{
    AuthProof, SessionToken, digest_of, proof_valid, verify_auth_proof, mint_session_token,
};
use crate::clock::{max_duration_nanos, unix_time_nanos};
use crate::connection::PeerAddr;
use crate::error::NetError;
use self::session::{ClientSession, authenticated};

verus! {

broadcast use vstd::std_specs::hash::group_hash_axioms;

/// The nonce taken from the system clock reading `now` (nanoseconds since
/// the Unix epoch): its low 64 bits.
pub open spec fn nonce_from_clock(now: u128) -> u64 {
    now as u64
}

/// Secrets of the server.
#[derive(Debug, Clone)]
pub struct ServerAuthConfig {
    /// Secret shared with clients for challenge proofs.
    pub auth_secret: String,
    /// Secret for minting session tokens.
    pub token_secret: String,
}

impl Default for ServerAuthConfig {
    fn default() -> (c: Self)
        ensures
            c.auth_secret@ == "dev-auth-secret"@,
            c.token_secret@ == "dev-token-secret"@,
    {
        ServerAuthConfig {
            auth_secret: "dev-auth-secret".to_owned(),
            token_secret: "dev-token-secret".to_owned(),
        }
    }
}

/// A packet received from a client.
#[derive(Debug, Clone, Copy)]
pub enum ServerIngressPacket<'a> {
    /// Answer to the authentication challenge.
    AuthResponse { proof: AuthProof },
    /// Gameplay input, gated by the session token.
    ClientInput { session_token: SessionToken, input_sequence: u32, payload: &'a [u8] },
}

/// A packet the server sends to a client.
#[derive(Debug, Clone, Copy, PartialEq, Eq, Structural)]
pub enum ServerEgressPacket {
    /// Challenge to prove knowledge of the shared secret.
    AuthChallenge { nonce: u64 },
    /// Authentication succeeded.
    AuthAccepted { session_id: u32, session_token: SessionToken },
    /// Authentication failed.
    AuthRejected,
    /// Game state snapshot.
    Snapshot,
}

/// Outcome of processing a client packet.
#[derive(Debug, Clone, Copy, PartialEq, Eq, Structural)]
pub enum PacketDisposition {
    Accepted,
    Rejected,
}

/// Map from peer addresses to session ids.
#[derive(Debug, Clone)]
pub struct SessionIndex {
    entries: Vec<(PeerAddr, u32)>,
}

impl View for SessionIndex {
    type V = Map<PeerAddr, u32>;

    closed spec fn view(&self) -> Map<PeerAddr, u32> {
        Map::new(
            |a: PeerAddr| exists|i: int| 0 <= i < self.entries@.len() && #[trigger] self.entries@[i].0 == a,
            |a: PeerAddr| self.entries@[self.index_of(a)].1,
        )
    }
}

impl SessionIndex {
    closed spec fn index_of(&self, a: PeerAddr) -> int {
        choose|i: int| 0 <= i < self.entries@.len() && self.entries@[i].0 == a
    }

    /// No address occurs twice.
    pub closed spec fn wf(&self) -> bool {
        forall|i: int, j: int|
            0 <= i < self.entries@.len() && 0 <= j < self.entries@.len() && i != j ==> #[trigger] self.entries@[i].0
                != #[trigger] self.entries@[j].0
    }

    proof fn lemma_lookup(&self, i: int)
        requires
            self.wf(),
            0 <= i < self.entries@.len(),
        ensures
            self@.contains_key(self.entries@[i].0),
            self@[self.entries@[i].0] == self.entries@[i].1,
    {
        let a = self.entries@[i].0;
        assert(self@.dom().contains(a));
        let k = self.index_of(a);
        assert(0 <= k < self.entries@.len() && self.entries@[k].0 == a);
        assert(k == i);
    }

    /// Creates an empty index.
    pub fn new() -> (r: Self)
        ensures
            r.wf(),
            r@ == Map::<PeerAddr, u32>::empty(),
    {
        let r = SessionIndex { entries: Vec::new() };
        assert(r@ =~= Map::<PeerAddr, u32>::empty());
        r
    }

    fn find(&self, addr: &PeerAddr) -> (r: Option<usize>)
        requires
            self.wf(),
        ensures
            r is None ==> !self@.contains_key(*addr),
            r matches Some(i) ==> i < self.entries@.len() && self.entries@[i as int].0 == *addr,
    {
        let mut i: usize = 0;
        while i < self.entries.len()
            invariant
                i <= self.entries@.len(),
                forall|k: int| 0 <= k < i ==> #[trigger] self.entries@[k].0 != *addr,
            decreases self.entries@.len() - i,
        {
            if self.entries[i].0 == *addr {
                return Some(i);
            }
            i = i + 1;
        }
        None
    }

    /// The session id of `addr`, if any.
    pub fn get(&self, addr: &PeerAddr) -> (r: Option<u32>)
        requires
            self.wf(),
        ensures
            r == (if self@.contains_key(*addr) {
                Some(self@[*addr])
            } else {
                None::<u32>
            }),
    {
        match self.find(addr) {
            Some(i) => {
                proof {
                    self.lemma_lookup(i as int);
                }
                Some(self.entries[i].1)
            },
            None => None,
        }
    }

    /// Maps `addr` to `id`, replacing any earlier id.
    pub fn insert(&mut self, addr: PeerAddr, id: u32)
        requires
            old(self).wf(),
        ensures
            final(self).wf(),
            final(self)@ == old(self)@.insert(addr, id),
    {
        match self.find(&addr) {
            Some(i) => {
                self.entries.set(i, (addr, id));
                proof {
                    assert forall|k: int| 0 <= k < self.entries@.len() implies self@.contains_key(
                        #[trigger] self.entries@[k].0,
                    ) && self@[self.entries@[k].0] == old(self)@.insert(addr, id)[self.entries@[k].0]
                        by {
                        self.lemma_lookup(k);
                        if k != i {
                            old(self).lemma_lookup(k);
                        }
                    }
                    assert forall|a: PeerAddr| #[trigger] self@.contains_key(a) == old(self)@.insert(addr, id).contains_key(a) by {
                        if self@.contains_key(a) {
                            let k = self.index_of(a);
                            if k != i {
                                assert(old(self).entries@[k].0 == a);
                            }
                        }
                        if old(self)@.contains_key(a) {
                            let k = old(self).index_of(a);
                            assert(self.entries@[k].0 == a);
                        }
                    }
                    assert(self@ =~= old(self)@.insert(addr, id));
                }
            },
            None => {
                self.entries.push((addr, id));
                proof {
                    let n = old(self).entries@.len() as int;
                    assert forall|k: int| 0 <= k < self.entries@.len() implies self@.contains_key(
                        #[trigger] self.entries@[k].0,
                    ) && self@[self.entries@[k].0] == old(self)@.insert(addr, id)[self.entries@[k].0]
                        by {
                        self.lemma_lookup(k);
                        if k != n {
                            old(self).lemma_lookup(k);
                        }
                    }
                    assert forall|a: PeerAddr| #[trigger] self@.contains_key(a) == old(self)@.insert(addr, id).contains_key(a) by {
                        if self@.contains_key(a) {
                            let k = self.index_of(a);
                            if k != n {
                                assert(old(self).entries@[k].0 == a);
                            }
                        }
                        if old(self)@.contains_key(a) {
                            let k = old(self).index_of(a);
                            assert(self.entries@[k].0 == a);
                        }
                        if a == addr {
                            assert(self.entries@[n].0 == a);
                        }
                    }
                    assert(self@ =~= old(self)@.insert(addr, id));
                }
            },
        }
    }

    /// Removes `addr`.
    pub fn remove(&mut self, addr: &PeerAddr)
        requires
            old(self).wf(),
        ensures
            final(self).wf(),
            final(self)@ == old(self)@.remove(*addr),
    {
        match self.find(addr) {
            Some(i) => {
                let ghost before = self.entries@;
                self.entries.remove(i);
                proof {
                    assert forall|k: int| 0 <= k < self.entries@.len() implies self@.contains_key(
                        #[trigger] self.entries@[k].0,
                    ) && self@[self.entries@[k].0] == old(self)@.remove(*addr)[self.entries@[k].0]
                        by {
                        self.lemma_lookup(k);
                        if k < i {
                            old(self).lemma_lookup(k);
                        } else {
                            old(self).lemma_lookup(k + 1);
                        }
                    }
                    assert forall|a: PeerAddr| #[trigger] self@.contains_key(a) == old(self)@.remove(*addr).contains_key(a) by {
                        if self@.contains_key(a) {
                            let k = self.index_of(a);
                            if k < i {
                                assert(before[k].0 == a);
                            } else {
                                assert(before[k + 1].0 == a);
                            }
                        }
                        if old(self)@.remove(*addr).contains_key(a) {
                            let k = old(self).index_of(a);
                            if k < i {
                                assert(self.entries@[k].0 == a);
                            } else {
                                assert(k != i);
                                assert(self.entries@[k - 1].0 == a);
                            }
                        }
                    }
                    assert(self@ =~= old(self)@.remove(*addr));
                }
            },
            None => {
                assert(self@ =~= old(self)@.remove(*addr));
            },
        }
    }
}

/// Server network manager.
pub struct ServerNetworkManager {
    /// Listening address.
    pub listen_addr: PeerAddr,
    /// Sessions by id.
    pub sessions: HashMap<u32, ClientSession>,
    /// Session ids by client address.
    pub session_by_addr: SessionIndex,
    /// Server secrets.
    pub auth: ServerAuthConfig,
}

/// The session that `from` maps to, if both the address and the session exist.
pub open spec fn session_of(
    index: Map<PeerAddr, u32>,
    sessions: Map<u32, ClientSession>,
    from: PeerAddr,
) -> Option<u32> {
    if index.contains_key(from) && sessions.contains_key(index[from]) {
        Some(index[from])
    } else {
        None
    }
}

/// Whether a client packet is accepted by the session it arrives on: a
/// challenge answer must carry the session's nonce and a valid digest; input
/// needs an authenticated session, its token, and a newer sequence number.
pub open spec fn accepts_packet(auth_secret: Seq<char>, s: ClientSession, packet: ServerIngressPacket) -> bool {
    match packet {
        ServerIngressPacket::AuthResponse { proof } => proof.nonce == s.auth_nonce && proof_valid(
            auth_secret,
            proof,
        ),
        ServerIngressPacket::ClientInput { session_token, input_sequence, payload } => {
            &&& authenticated(s)
            &&& s.session_token == Some(session_token)
            &&& input_sequence > s.last_input_sequence
        },
    }
}

impl ServerNetworkManager {
    /// The index maps each address once.
    pub open spec fn wf(&self) -> bool {
        self.session_by_addr.wf()
    }

    /// Creates a manager with the default development secrets.
    pub fn new(listen_addr: PeerAddr) -> (m: Self)
        ensures
            m.wf(),
            m.listen_addr == listen_addr,
            m.sessions@ == Map::<u32, ClientSession>::empty(),
            m.session_by_addr@ == Map::<PeerAddr, u32>::empty(),
            m.auth.auth_secret@ == "dev-auth-secret"@,
            m.auth.token_secret@ == "dev-token-secret"@,
    {
        Self::with_auth(listen_addr, ServerAuthConfig::default())
    }

    /// Creates a manager with the given secrets.
    pub fn with_auth(listen_addr: PeerAddr, auth: ServerAuthConfig) -> (m: Self)
        ensures
            m.wf(),
            m.listen_addr == listen_addr,
            m.sessions@ == Map::<u32, ClientSession>::empty(),
            m.session_by_addr@ == Map::<PeerAddr, u32>::empty(),
            m.auth == auth,
    {
        ServerNetworkManager {
            listen_addr,
            sessions: HashMap::new(),
            session_by_addr: SessionIndex::new(),
            auth,
        }
    }

    /// Starts listening; socket handling is not implemented yet, so this does nothing.
    pub fn listen(&mut self) -> (r: Result<(), NetError>)
        ensures
            r is Ok,
    {
        Ok(())
    }

    /// Handles a connection request from `from`. A known client is challenged
    /// again with its session's nonce. A new client gets a session whose id is
    /// the current number of sessions (replacing any session of that id),
    /// challenged with a fresh nonce taken from the clock.
    pub fn handle_connection_request(&mut self, from: PeerAddr) -> (r: Result<
        (u32, ServerEgressPacket),
        NetError,
    >)
        requires
            old(self).wf(),
        ensures
            final(self).wf(),
            final(self).listen_addr == old(self).listen_addr,
            final(self).auth == old(self).auth,
            r is Ok,
            session_of(old(self).session_by_addr@, old(self).sessions@, from) matches Some(sid) ==> {
                &&& r == Ok::<(u32, ServerEgressPacket), NetError>(
                    (sid, ServerEgressPacket::AuthChallenge { nonce: old(self).sessions@[sid].auth_nonce }),
                )
                &&& final(self).sessions@ == old(self).sessions@
                &&& final(self).session_by_addr@ == old(self).session_by_addr@
            },
            session_of(old(self).session_by_addr@, old(self).sessions@, from) is None ==> {
                let sid = old(self).sessions@.len() as u32;
                r matches Ok((id, ServerEgressPacket::AuthChallenge { nonce })) && id == sid
                    && final(self).sessions@ == old(self).sessions@.insert(
                    sid,
                    final(self).sessions@[sid],
                ) && final(self).sessions@[sid].session_id == sid
                    && final(self).sessions@[sid].addr == from
                    && final(self).sessions@[sid].auth_nonce == nonce
                    && final(self).sessions@[sid].state == crate::connection::ConnectionState::Idle
                    && final(self).sessions@[sid].player_id is None
                    && final(self).sessions@[sid].session_token is None
                    && final(self).sessions@[sid].last_input_sequence == 0
                    && final(self).sessions@[sid].game_state@ == Seq::<u8>::empty()
                    && final(self).session_by_addr@ == old(self).session_by_addr@.insert(from, sid)
                    && exists|now: u128| now <= max_duration_nanos() && nonce == #[trigger] nonce_from_clock(now)
            },
    {
        if let Some(existing_id) = self.session_by_addr.get(&from) {
            if let Some(existing) = self.sessions.get(&existing_id) {
                return Ok((existing_id, ServerEgressPacket::AuthChallenge { nonce: existing.auth_nonce }));
            }
        }
        let session_id = self.sessions.len() as u32;
        let nonce = Self::fresh_nonce();
        let session = ClientSession::new(session_id, from, nonce);
        self.sessions.insert(session_id, session);
        self.session_by_addr.insert(from, session_id);
        Ok((session_id, ServerEgressPacket::AuthChallenge { nonce }))
    }

    /// Broadcasts game state; socket handling is not implemented yet, so this does nothing.
    pub fn broadcast_state(&self, _state_data: &[u8]) -> (r: Result<(), NetError>)
        ensures
            r is Ok,
    {
        Ok(())
    }

    /// Processes a packet from `from`. Packets from an address without a
    /// session are rejected. A challenge answer is accepted when it carries
    /// the session's nonce and a valid proof under the shared secret; the
    /// session then binds the player and a freshly minted token. Input is
    /// accepted only on an authenticated session, with its token, and with a
    /// sequence number newer than the last accepted one, which it records.
    /// Rejected packets change nothing.
    pub fn process_client_packet(&mut self, from: PeerAddr, packet: ServerIngressPacket<'_>) -> (r:
        Result<PacketDisposition, NetError>)
        requires
            old(self).wf(),
        ensures
            final(self).wf(),
            final(self).listen_addr == old(self).listen_addr,
            final(self).auth == old(self).auth,
            final(self).session_by_addr@ == old(self).session_by_addr@,
            r is Ok,
            session_of(old(self).session_by_addr@, old(self).sessions@, from) is None ==> {
                &&& r == Ok::<PacketDisposition, NetError>(PacketDisposition::Rejected)
                &&& final(self).sessions@ == old(self).sessions@
            },
            session_of(old(self).session_by_addr@, old(self).sessions@, from) matches Some(sid) ==> {
                let s = old(self).sessions@[sid];
                &&& r == Ok::<PacketDisposition, NetError>(
                    if accepts_packet(old(self).auth.auth_secret@, s, packet) {
                        PacketDisposition::Accepted
                    } else {
                        PacketDisposition::Rejected
                    },
                )
                &&& !accepts_packet(old(self).auth.auth_secret@, s, packet) ==> final(self).sessions@
                    == old(self).sessions@
                &&& accepts_packet(old(self).auth.auth_secret@, s, packet) ==> {
                    &&& final(self).sessions@.dom() == old(self).sessions@.dom()
                    &&& forall|k: u32| k != sid && #[trigger] old(self).sessions@.contains_key(k)
                        ==> final(self).sessions@[k] == old(self).sessions@[k]
                    &&& match packet {
                        ServerIngressPacket::AuthResponse { proof } => exists|token: SessionToken|
                            final(self).sessions@[sid] == (ClientSession {
                                player_id: Some(proof.player_id),
                                session_token: Some(token),
                                state: crate::connection::ConnectionState::Active,
                                ..s
                            }),
                        ServerIngressPacket::ClientInput { input_sequence, .. } =>
                            final(self).sessions@[sid] == (ClientSession {
                            last_input_sequence: input_sequence,
                            ..s
                        }),
                    }
                }
            },
    {
        let session_id = match self.session_by_addr.get(&from) {
            Some(id) => id,
            None => {
                return Ok(PacketDisposition::Rejected);
            },
        };
        let mut session = match self.sessions.remove(&session_id) {
            Some(s) => s,
            None => {
                return Ok(PacketDisposition::Rejected);
            },
        };
        let ghost s0 = session;
        let disposition = match packet {
            ServerIngressPacket::AuthResponse { proof } => {
                if proof.nonce != session.auth_nonce {
                    PacketDisposition::Rejected
                } else if !verify_auth_proof(self.auth.auth_secret.as_str(), proof) {
                    PacketDisposition::Rejected
                } else {
                    let token = mint_session_token(
                        self.auth.token_secret.as_str(),
                        proof.player_id,
                        proof.nonce,
                    );
                    session.mark_authenticated(proof.player_id, token);
                    PacketDisposition::Accepted
                }
            },
            ServerIngressPacket::ClientInput { session_token, input_sequence, payload } => {
                if !session.is_authenticated() {
                    PacketDisposition::Rejected
                } else if session.session_token != Some(session_token) {
                    PacketDisposition::Rejected
                } else if !session.accepts_input_sequence(input_sequence) {
                    PacketDisposition::Rejected
                } else {
                    let _ = session.process_input(payload);
                    PacketDisposition::Accepted
                }
            },
        };
        self.sessions.insert(session_id, session);
        proof {
            if disposition == PacketDisposition::Rejected {
                assert(session == s0);
                assert(self.sessions@ =~= old(self).sessions@);
            }
        }
        Ok(disposition)
    }

    /// Removes a session and its address mapping.
    pub fn close_session(&mut self, session_id: u32)
        requires
            old(self).wf(),
        ensures
            final(self).wf(),
            final(self).listen_addr == old(self).listen_addr,
            final(self).auth == old(self).auth,
            final(self).sessions@ == old(self).sessions@.remove(session_id),
            old(self).sessions@.contains_key(session_id) ==> final(self).session_by_addr@ == old(self).session_by_addr@.remove(old(self).sessions@[session_id].addr),
            !old(self).sessions@.contains_key(session_id) ==> final(self).session_by_addr@ == old(self).session_by_addr@,
    {
        if let Some(session) = self.sessions.remove(&session_id) {
            self.session_by_addr.remove(&session.addr);
        }
    }

    /// A nonce from the system clock: the low 64 bits of its reading in
    /// nanoseconds.
    fn fresh_nonce() -> (r: u64)
        ensures
            exists|now: u128| now <= max_duration_nanos() && r == #[trigger] nonce_from_clock(now),
    {
        let now = unix_time_nanos();
        let r = now as u64;
        assert(now <= max_duration_nanos() && r == nonce_from_clock(now));
        r
    }
}

/// The handshake: a client that answers its session's challenge with the
/// shared secret is accepted.
pub proof fn lemma_handshake_accepted(secret: Seq<char>, s: ClientSession, player_id: u64)
    ensures
        accepts_packet(
            secret,
            s,
            ServerIngressPacket::AuthResponse {
                proof: AuthProof {
                    player_id,
                    nonce: s.auth_nonce,
                    digest: digest_of(secret, player_id, s.auth_nonce),
                },
            },
        ),
{
}

/// Input on a session that has not authenticated is rejected.
pub proof fn lemma_input_needs_auth(secret: Seq<char>, s: ClientSession, token: SessionToken, seq: u32, payload: &[u8])
    requires
        !authenticated(s),
    ensures
        !accepts_packet(
            secret,
            s,
            ServerIngressPacket::ClientInput { session_token: token, input_sequence: seq, payload },
        ),
{
}

} // verus!
