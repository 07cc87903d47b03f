//! Client-side network manager: the authentication handshake and sequenced,
//! token-carrying input packets.

pub mod state_sync;

use vstd::prelude::*;
use crate::auth::{AuthProof, SessionToken, digest_of, make_auth_proof};
use crate::connection::{ConnectionState, PeerAddr};
use crate::error::NetError;

verus! {

/// The client's trust state with the server.
#[derive(Debug, Clone, Copy, PartialEq, Eq, Structural)]
pub enum ClientAuthState {
    Unauthenticated,
    AwaitingChallenge,
    AwaitingAcceptance,
    Authenticated,
}

/// Client network manager.
pub struct ClientNetworkManager {
    /// Server address.
    pub server_addr: PeerAddr,
    /// Connection state.
    pub state: ConnectionState,
    /// Trust state with the server.
    pub auth_state: ClientAuthState,
    /// Player identity of this client.
    pub player_id: u64,
    /// Shared secret for answering challenges.
    pub auth_secret: String,
    /// Session token from the server once authenticated.
    pub session_token: Option<SessionToken>,
    /// Sequence number of the last input packet.
    pub next_input_sequence: u32,
}

/// An input packet ready to send.
#[derive(Debug, Clone, Copy)]
pub struct ClientInputPacket<'a> {
    pub session_token: SessionToken,
    pub input_sequence: u32,
    pub payload: &'a [u8],
}

impl ClientNetworkManager {
    /// Creates a client with player id 0 and the development secret.
    pub fn new(server_addr: PeerAddr) -> (c: Self)
        ensures
            c.server_addr == server_addr,
            c.state == ConnectionState::Idle,
            c.auth_state == ClientAuthState::Unauthenticated,
            c.player_id == 0,
            c.auth_secret@ == "dev-auth-secret"@,
            c.session_token is None,
            c.next_input_sequence == 0,
    {
        Self::with_identity(server_addr, 0, "dev-auth-secret".to_owned())
    }

    /// Creates an idle, unauthenticated client with the given identity and secret.
    pub fn with_identity(server_addr: PeerAddr, player_id: u64, auth_secret: String) -> (c: Self)
        ensures
            c.server_addr == server_addr,
            c.state == ConnectionState::Idle,
            c.auth_state == ClientAuthState::Unauthenticated,
            c.player_id == player_id,
            c.auth_secret == auth_secret,
            c.session_token is None,
            c.next_input_sequence == 0,
    {
        ClientNetworkManager {
            server_addr,
            state: ConnectionState::Idle,
            auth_state: ClientAuthState::Unauthenticated,
            player_id,
            auth_secret,
            session_token: None,
            next_input_sequence: 0,
        }
    }

    /// Starts connecting: the client now expects a challenge.
    pub fn connect(&mut self) -> (r: Result<(), NetError>)
        ensures
            r is Ok,
            final(self).state == ConnectionState::Connecting,
            final(self).auth_state == ClientAuthState::AwaitingChallenge,
            final(self).server_addr == old(self).server_addr,
            final(self).player_id == old(self).player_id,
            final(self).auth_secret == old(self).auth_secret,
            final(self).session_token == old(self).session_token,
            final(self).next_input_sequence == old(self).next_input_sequence,
    {
        self.state = ConnectionState::Connecting;
        self.auth_state = ClientAuthState::AwaitingChallenge;
        Ok(())
    }

    /// Answers the challenge `nonce` with a proof under the client's secret.
    pub fn respond_to_challenge(&mut self, nonce: u64) -> (p: AuthProof)
        ensures
            p == (AuthProof {
                player_id: old(self).player_id,
                nonce,
                digest: digest_of(old(self).auth_secret@, old(self).player_id, nonce),
            }),
            final(self).auth_state == ClientAuthState::AwaitingAcceptance,
            final(self).state == old(self).state,
            final(self).server_addr == old(self).server_addr,
            final(self).player_id == old(self).player_id,
            final(self).auth_secret == old(self).auth_secret,
            final(self).session_token == old(self).session_token,
            final(self).next_input_sequence == old(self).next_input_sequence,
    {
        self.auth_state = ClientAuthState::AwaitingAcceptance;
        make_auth_proof(self.auth_secret.as_str(), self.player_id, nonce)
    }

    /// Records the session token: the client is authenticated and active.
    pub fn mark_authenticated(&mut self, token: SessionToken)
        ensures
            final(self).state == ConnectionState::Active,
            final(self).auth_state == ClientAuthState::Authenticated,
            final(self).session_token == Some(token),
            final(self).server_addr == old(self).server_addr,
            final(self).player_id == old(self).player_id,
            final(self).auth_secret == old(self).auth_secret,
            final(self).next_input_sequence == old(self).next_input_sequence,
    {
        self.state = ConnectionState::Active;
        self.auth_state = ClientAuthState::Authenticated;
        self.session_token = Some(token);
    }

    /// Receives a state update; state reception is not implemented yet, so
    /// this does nothing.
    pub fn receive_state_update(&mut self, _data: &[u8]) -> (r: Result<(), NetError>)
        ensures
            r is Ok,
            final(self).state == old(self).state,
            final(self).auth_state == old(self).auth_state,
            final(self).session_token == old(self).session_token,
            final(self).next_input_sequence == old(self).next_input_sequence,
    {
        Ok(())
    }

    /// The next input packet: the session token, the next sequence number
    /// (wrapping) and `payload`. Fails with `PermissionDenied`, changing
    /// nothing, unless authenticated with a token.
    pub fn next_input_packet<'a>(&mut self, payload: &'a [u8]) -> (r: Result<
        ClientInputPacket<'a>,
        NetError,
    >)
        ensures
            r is Ok <==> (old(self).auth_state == ClientAuthState::Authenticated
                && old(self).session_token is Some),
            r matches Err(e) ==> e == NetError::PermissionDenied && final(self).next_input_sequence
                == old(self).next_input_sequence,
            r matches Ok(p) ==> {
                &&& Some(p.session_token) == old(self).session_token
                &&& p.input_sequence == (if old(self).next_input_sequence == u32::MAX {
                    0
                } else {
                    old(self).next_input_sequence + 1
                })
                &&& p.payload@ == payload@
                &&& final(self).next_input_sequence == p.input_sequence
            },
            final(self).state == old(self).state,
            final(self).auth_state == old(self).auth_state,
            final(self).session_token == old(self).session_token,
            final(self).player_id == old(self).player_id,
    {
        if self.auth_state != ClientAuthState::Authenticated {
            return Err(NetError::PermissionDenied);
        }
        let session_token = match self.session_token {
            Some(t) => t,
            None => {
                return Err(NetError::PermissionDenied);
            },
        };
        self.next_input_sequence = self.next_input_sequence.wrapping_add(1);
        Ok(ClientInputPacket { session_token, input_sequence: self.next_input_sequence, payload })
    }
}

} // verus!
