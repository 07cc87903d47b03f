//! Connection state machines, peer addresses and packet sequencing.

use vstd::prelude::*;

verus! {

/// Connection lifecycle state.
#[derive(Debug, Clone, Copy, PartialEq, Eq, Structural)]
pub enum ConnectionState {
    /// Initial state, waiting for a connection request.
    Idle,
    /// Connection request received, waiting for acknowledgement.
    Connecting,
    /// Connection established and active.
    Active,
    /// Connection closing or closed.
    Closed,
}

/// A peer's network address. For IPv4, `ip` holds the four address bytes in
/// its low 32 bits (most significant byte first) and `is_ipv6` is false.
#[derive(Debug, Clone, Copy, PartialEq, Eq, Structural)]
pub struct PeerAddr {
    /// The IP address bits.
    pub ip: u128,
    /// The UDP port.
    pub port: u16,
    /// Whether `ip` is an IPv6 address.
    pub is_ipv6: bool,
}

/// The state that `advance_state` moves to: Idle to Connecting to Active;
/// Active and Closed stay where they are.
pub open spec fn next_state(s: ConnectionState) -> ConnectionState {
    match s {
        ConnectionState::Idle => ConnectionState::Connecting,
        ConnectionState::Connecting => ConnectionState::Active,
        ConnectionState::Active => ConnectionState::Active,
        ConnectionState::Closed => ConnectionState::Closed,
    }
}

/// Connection information for a client.
#[derive(Debug, Clone, Copy)]
pub struct Connection {
    /// Connection identifier.
    pub id: u32,
    /// Client address.
    pub addr: PeerAddr,
    /// Current connection state.
    pub state: ConnectionState,
    /// Last packet sequence number.
    pub sequence: u32,
}

impl Connection {
    /// Creates an idle connection with sequence number 0.
    pub fn new(id: u32, addr: PeerAddr) -> (c: Self)
        ensures
            c.id == id,
            c.addr == addr,
            c.state == ConnectionState::Idle,
            c.sequence == 0,
    {
        Connection { id, addr, state: ConnectionState::Idle, sequence: 0 }
    }

    /// Moves one step along Idle, Connecting, Active; Active and Closed stay.
    pub fn advance_state(&mut self)
        ensures
            final(self).state == next_state(old(self).state),
            final(self).id == old(self).id,
            final(self).addr == old(self).addr,
            final(self).sequence == old(self).sequence,
    {
        self.state = match self.state {
            ConnectionState::Idle => ConnectionState::Connecting,
            ConnectionState::Connecting => ConnectionState::Active,
            ConnectionState::Active => ConnectionState::Active,
            ConnectionState::Closed => ConnectionState::Closed,
        };
    }

    /// Marks the connection closed.
    pub fn close(&mut self)
        ensures
            final(self).state == ConnectionState::Closed,
            final(self).id == old(self).id,
            final(self).addr == old(self).addr,
            final(self).sequence == old(self).sequence,
    {
        self.state = ConnectionState::Closed;
    }

    /// Increments the sequence number (wrapping at `u32::MAX`) and returns it.
    pub fn next_sequence(&mut self) -> (r: u32)
        ensures
            r == (if old(self).sequence == u32::MAX {
                0
            } else {
                old(self).sequence + 1
            }),
            final(self).sequence == r,
            final(self).id == old(self).id,
            final(self).addr == old(self).addr,
            final(self).state == old(self).state,
    {
        self.sequence = self.sequence.wrapping_add(1);
        self.sequence
    }
}

/// A closed connection stays closed, and an active one stays active, however
/// often it is advanced.
pub proof fn lemma_advance_fixed_points(s: ConnectionState)
    ensures
        s == ConnectionState::Closed ==> next_state(s) == ConnectionState::Closed,
        s == ConnectionState::Active ==> next_state(s) == ConnectionState::Active,
{
}

/// Two advances take an idle connection to active.
pub proof fn lemma_idle_reaches_active()
    ensures
        next_state(next_state(ConnectionState::Idle)) == ConnectionState::Active,
{
}

} // verus!
