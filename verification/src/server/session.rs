//! Per-client session on the server: authentication binding and replay
//! protection for client input.

use vstd::prelude::*;
use crate::auth::SessionToken;
use crate::connection::{ConnectionState, PeerAddr};
use crate::error::NetError;

verus! {

/// Server-side state of one client.
#[derive(Debug, Clone)]
pub struct ClientSession {
    /// Session identifier.
    pub session_id: u32,
    /// Client address.
    pub addr: PeerAddr,
    /// Session state.
    pub state: ConnectionState,
    /// Player identity bound once authentication succeeds.
    pub player_id: Option<u64>,
    /// One-time server challenge nonce.
    pub auth_nonce: u64,
    /// Session token issued on successful authentication.
    pub session_token: Option<SessionToken>,
    /// Last accepted input sequence number (replay protection).
    pub last_input_sequence: u32,
    /// Client-specific game state.
    pub game_state: Vec<u8>,
}

/// Whether a session has both a bound player and a token.
pub open spec fn authenticated(s: ClientSession) -> bool {
    s.player_id is Some && s.session_token is Some
}

impl ClientSession {
    /// Creates an idle, unauthenticated session challenged with `auth_nonce`.
    pub fn new(session_id: u32, addr: PeerAddr, auth_nonce: u64) -> (s: Self)
        ensures
            s.session_id == session_id,
            s.addr == addr,
            s.state == ConnectionState::Idle,
            s.player_id is None,
            s.auth_nonce == auth_nonce,
            s.session_token is None,
            s.last_input_sequence == 0,
            s.game_state@ == Seq::<u8>::empty(),
    {
        ClientSession {
            session_id,
            addr,
            state: ConnectionState::Idle,
            player_id: None,
            auth_nonce,
            session_token: None,
            last_input_sequence: 0,
            game_state: Vec::new(),
        }
    }

    /// Whether a player and a token are bound.
    pub fn is_authenticated(&self) -> (r: bool)
        ensures
            r == authenticated(*self),
    {
        self.player_id.is_some() && self.session_token.is_some()
    }

    /// Binds the player and the token, and activates the session.
    pub fn mark_authenticated(&mut self, player_id: u64, session_token: SessionToken)
        ensures
            *final(self) == (ClientSession {
                player_id: Some(player_id),
                session_token: Some(session_token),
                state: ConnectionState::Active,
                ..*old(self)
            }),
    {
        self.player_id = Some(player_id);
        self.session_token = Some(session_token);
        self.activate();
    }

    /// Accepts `input_sequence` only when it is newer than every one accepted
    /// before, and then records it.
    pub fn accepts_input_sequence(&mut self, input_sequence: u32) -> (r: bool)
        ensures
            r == (input_sequence > old(self).last_input_sequence),
            *final(self) == (ClientSession {
                last_input_sequence: if r {
                    input_sequence
                } else {
                    old(self).last_input_sequence
                },
                ..*old(self)
            }),
    {
        if input_sequence <= self.last_input_sequence {
            return false;
        }
        self.last_input_sequence = input_sequence;
        true
    }

    /// Processes a client input payload; input handling is not implemented
    /// yet, so this changes nothing.
    pub fn process_input(&mut self, _data: &[u8]) -> (r: Result<(), NetError>)
        ensures
            r is Ok,
            *final(self) == *old(self),
    {
        Ok(())
    }

    /// The game state to transmit: a copy of the session's game state.
    pub fn serialize_state(&self) -> (r: Vec<u8>)
        ensures
            r@ == self.game_state@,
    {
        vstd::slice::slice_to_vec(self.game_state.as_slice())
    }

    /// Replaces the game state.
    pub fn update_state(&mut self, new_state: Vec<u8>)
        ensures
            *final(self) == (ClientSession { game_state: new_state, ..*old(self) }),
    {
        self.game_state = new_state;
    }

    /// Marks the session active.
    pub fn activate(&mut self)
        ensures
            *final(self) == (ClientSession { state: ConnectionState::Active, ..*old(self) }),
    {
        self.state = ConnectionState::Active;
    }

    /// Marks the session closed.
    pub fn close(&mut self)
        ensures
            *final(self) == (ClientSession { state: ConnectionState::Closed, ..*old(self) }),
    {
        self.state = ConnectionState::Closed;
    }
}

/// Replay protection: once a sequence number has been accepted, it and every
/// older one are refused.
pub proof fn lemma_no_replay(last: u32, accepted: u32, later: u32)
    requires
        accepted > last,
        later <= accepted,
    ensures
        !(later > (if accepted > last {
            accepted
        } else {
            last
        })),
{
}

} // verus!
