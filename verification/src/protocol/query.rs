//! Query packets: ping, game info and Steamworks (A2S) requests and responses,
//! framed as a magic byte, a little-endian key echo and a payload.

use vstd::prelude::*;
use crate::bytes::{le16, le32, from_le16, push_le16, push_le32, read_le16, lemma_le16_roundtrip};
use crate::error::NetError;
use crate::packet::packet_wire;
use crate::protocol::a2s::{
    a2s_header, source_engine_query, push_a2s_header, push_source_engine_query, has_a2s_header,
};

verus! {

/// Query packet kinds.
#[derive(Debug, Clone, Copy, PartialEq, Eq, Structural)]
pub enum QueryType {
    /// Ping request (0x01) or response (0x02).
    Ping,
    /// GameInfo request (0x07) or response (0x08).
    GameInfo,
    /// Steamworks (A2S) request (0x62) or response (0x63).
    Steamworks,
    /// Anything else: master server list queries.
    MasterServer,
}

/// The query kind that a magic byte announces.
pub open spec fn query_type_of(magic: u8) -> QueryType {
    if magic == 0x01 || magic == 0x02 {
        QueryType::Ping
    } else if magic == 0x07 || magic == 0x08 {
        QueryType::GameInfo
    } else if magic == 0x62 || magic == 0x63 {
        QueryType::Steamworks
    } else {
        QueryType::MasterServer
    }
}

/// What the bytes of a query decode to: magic byte, key echo, kind and payload;
/// `None` when shorter than the three header bytes.
pub open spec fn parse_query(data: Seq<u8>) -> Option<(u8, u16, QueryType, Seq<u8>)> {
    if data.len() < 3 {
        None
    } else {
        Some(
            (
                data[0],
                from_le16(data[1], data[2]),
                query_type_of(data[0]),
                data.subrange(3, data.len() as int),
            ),
        )
    }
}

/// The payload of a Steamworks query wrapped from a raw A2S packet; `None`
/// when the packet is shorter than five bytes or lacks the A2S header.
pub open spec fn parse_a2s_wrapped(data: Seq<u8>) -> Option<Seq<u8>> {
    if data.len() >= 5 && data.subrange(0, 4) == a2s_header() {
        Some(data.subrange(4, data.len() as int))
    } else {
        None
    }
}

/// The A2S_INFO request payload: the opcode and the "Source Engine Query" text.
pub open spec fn a2s_info_body() -> Seq<u8> {
    seq![0x54u8] + source_engine_query()
}

/// A query packet.
#[derive(Debug, Clone)]
pub struct Query {
    /// Protocol magic byte.
    pub magic: u8,
    /// Key echo value (2 bytes, little-endian on the wire).
    pub key_echo: u16,
    /// Query kind.
    pub query_type: QueryType,
    /// Query-specific payload.
    pub payload: Vec<u8>,
}

impl Query {
    /// Creates a query with the given magic byte and kind, a zero key echo and an empty payload.
    pub fn new(magic: u8, query_type: QueryType) -> (q: Self)
        ensures
            q.magic == magic,
            q.key_echo == 0,
            q.query_type == query_type,
            q.payload@ == Seq::<u8>::empty(),
    {
        Query { magic, key_echo: 0, query_type, payload: Vec::new() }
    }

    /// Parses a query; fails with `InvalidData` when shorter than three bytes.
    pub fn from_bytes(data: &[u8]) -> (r: Result<Self, NetError>)
        ensures
            r is Err <==> parse_query(data@) is None,
            r is Err ==> r == Err::<Self, NetError>(NetError::InvalidData),
            r matches Ok(q) ==> parse_query(data@) == Some(
                (q.magic, q.key_echo, q.query_type, q.payload@),
            ),
    {
        if data.len() < 3 {
            return Err(NetError::InvalidData);
        }
        let magic = data[0];
        let key_echo = read_le16(data, 1);
        let query_type = if magic == 0x01 || magic == 0x02 {
            QueryType::Ping
        } else if magic == 0x07 || magic == 0x08 {
            QueryType::GameInfo
        } else if magic == 0x62 || magic == 0x63 {
            QueryType::Steamworks
        } else {
            QueryType::MasterServer
        };
        let payload = vstd::slice::slice_to_vec(vstd::slice::slice_subrange(data, 3, data.len()));
        Ok(Query { magic, key_echo, query_type, payload })
    }

    /// The wire bytes: magic byte, key echo, payload.
    pub fn to_bytes(&self) -> (r: Vec<u8>)
        requires
            self.payload@.len() + 3 <= usize::MAX,
        ensures
            r@ == packet_wire(self.magic, self.key_echo, self.payload@),
    {
        let mut bytes: Vec<u8> = Vec::with_capacity(3 + self.payload.len());
        bytes.push(self.magic);
        push_le16(&mut bytes, self.key_echo);
        bytes.extend_from_slice(self.payload.as_slice());
        assert(bytes@ =~= packet_wire(self.magic, self.key_echo, self.payload@));
        bytes
    }

    /// The raw A2S wire packet of a Steamworks query: the A2S header and the
    /// payload. Fails with `InvalidInput` for any other kind of query.
    pub fn to_a2s_packet(&self) -> (r: Result<Vec<u8>, NetError>)
        requires
            self.payload@.len() + 4 <= usize::MAX,
        ensures
            r is Ok <==> self.query_type == QueryType::Steamworks,
            r is Err ==> r == Err::<Vec<u8>, NetError>(NetError::InvalidInput),
            r matches Ok(bytes) ==> bytes@ == a2s_header() + self.payload@,
    {
        if self.query_type != QueryType::Steamworks {
            return Err(NetError::InvalidInput);
        }
        let mut bytes: Vec<u8> = Vec::with_capacity(4 + self.payload.len());
        push_a2s_header(&mut bytes);
        bytes.extend_from_slice(self.payload.as_slice());
        assert(bytes@ =~= a2s_header() + self.payload@);
        Ok(bytes)
    }

    /// Wraps a raw A2S packet as a Steamworks query (magic 0x62, zero key echo,
    /// the bytes after the header as payload). Fails with `InvalidData` when the
    /// packet is shorter than five bytes or lacks the A2S header.
    pub fn steamworks_from_a2s_packet(data: &[u8]) -> (r: Result<Self, NetError>)
        ensures
            r is Err <==> parse_a2s_wrapped(data@) is None,
            r is Err ==> r == Err::<Self, NetError>(NetError::InvalidData),
            r matches Ok(q) ==> {
                &&& q.magic == 0x62
                &&& q.key_echo == 0
                &&& q.query_type == QueryType::Steamworks
                &&& parse_a2s_wrapped(data@) == Some(q.payload@)
            },
    {
        if data.len() < 5 || !has_a2s_header(data) {
            return Err(NetError::InvalidData);
        }
        let payload = vstd::slice::slice_to_vec(vstd::slice::slice_subrange(data, 4, data.len()));
        Ok(Query { magic: 0x62, key_echo: 0, query_type: QueryType::Steamworks, payload })
    }

    /// A ping request (magic 0x01).
    pub fn ping_request() -> (q: Self)
        ensures
            q.magic == 0x01,
            q.key_echo == 0,
            q.query_type == QueryType::Ping,
            q.payload@ == Seq::<u8>::empty(),
    {
        Query::new(0x01, QueryType::Ping)
    }

    /// A ping response (magic 0x02) echoing `key_echo`.
    pub fn ping_response(key_echo: u16) -> (q: Self)
        ensures
            q.magic == 0x02,
            q.key_echo == key_echo,
            q.query_type == QueryType::Ping,
            q.payload@ == Seq::<u8>::empty(),
    {
        let mut query = Query::new(0x02, QueryType::Ping);
        query.key_echo = key_echo;
        query
    }

    /// A game info request (magic 0x07).
    pub fn gameinfo_request() -> (q: Self)
        ensures
            q.magic == 0x07,
            q.key_echo == 0,
            q.query_type == QueryType::GameInfo,
            q.payload@ == Seq::<u8>::empty(),
    {
        Query::new(0x07, QueryType::GameInfo)
    }

    /// A game info response (magic 0x08) echoing `key_echo`.
    pub fn gameinfo_response(key_echo: u16) -> (q: Self)
        ensures
            q.magic == 0x08,
            q.key_echo == key_echo,
            q.query_type == QueryType::GameInfo,
            q.payload@ == Seq::<u8>::empty(),
    {
        let mut query = Query::new(0x08, QueryType::GameInfo);
        query.key_echo = key_echo;
        query
    }

    /// A Steamworks A2S_INFO request (magic 0x62).
    pub fn steamworks_info_request() -> (q: Self)
        ensures
            q.magic == 0x62,
            q.key_echo == 0,
            q.query_type == QueryType::Steamworks,
            q.payload@ == a2s_info_body(),
    {
        let mut query = Query::new(0x62, QueryType::Steamworks);
        query.payload = Self::a2s_info_payload();
        query
    }

    /// A Steamworks A2S_PLAYER request (magic 0x62) with `challenge` (-1 asks for one).
    pub fn steamworks_player_request(challenge: i32) -> (q: Self)
        ensures
            q.magic == 0x62,
            q.key_echo == 0,
            q.query_type == QueryType::Steamworks,
            q.payload@ == seq![0x55u8] + le32(challenge as u32),
    {
        let mut query = Query::new(0x62, QueryType::Steamworks);
        query.payload.push(0x55);
        push_le32(&mut query.payload, challenge as u32);
        assert(query.payload@ =~= seq![0x55u8] + le32(challenge as u32));
        query
    }

    /// A Steamworks A2S_RULES request (magic 0x62) with `challenge` (-1 asks for one).
    pub fn steamworks_rules_request(challenge: i32) -> (q: Self)
        ensures
            q.magic == 0x62,
            q.key_echo == 0,
            q.query_type == QueryType::Steamworks,
            q.payload@ == seq![0x56u8] + le32(challenge as u32),
    {
        let mut query = Query::new(0x62, QueryType::Steamworks);
        query.payload.push(0x56);
        push_le32(&mut query.payload, challenge as u32);
        assert(query.payload@ =~= seq![0x56u8] + le32(challenge as u32));
        query
    }

    /// A Steamworks response (magic 0x63) echoing `key_echo` and carrying `payload`.
    pub fn steamworks_response(key_echo: u16, payload: Vec<u8>) -> (q: Self)
        ensures
            q.magic == 0x63,
            q.key_echo == key_echo,
            q.query_type == QueryType::Steamworks,
            q.payload@ == payload@,
    {
        let mut query = Query::new(0x63, QueryType::Steamworks);
        query.key_echo = key_echo;
        query.payload = payload;
        query
    }

    fn a2s_info_payload() -> (r: Vec<u8>)
        ensures
            r@ == a2s_info_body(),
    {
        let mut payload: Vec<u8> = vec![0x54];
        push_source_engine_query(&mut payload);
        payload
    }
}

/// The layout of a query on the wire: the magic byte, the key echo in two
/// little-endian bytes, then the payload. The magic byte alone tells the
/// kind: 0x01 and 0x02 are ping request and response, 0x07 and 0x08 game
/// info request and response, 0x62 and 0x63 Steamworks request and
/// response, and every other byte a master server query.
pub proof fn lemma_query_layout(magic: u8, key_echo: u16, payload: Seq<u8>, data: Seq<u8>)
    ensures
        ({
            let w = packet_wire(magic, key_echo, payload);
            &&& w.len() == payload.len() + 3
            &&& w[0] == magic
            &&& w.subrange(1, 3) == le16(key_echo)
            &&& w.subrange(3, w.len() as int) == payload
        }),
        parse_query(data) matches Some((m, k, t, pl)) ==> {
            &&& m == data[0] && k == from_le16(data[1], data[2]) && pl == data.subrange(3, data.len() as int)
            &&& (t == QueryType::Ping <==> (m == 0x01 || m == 0x02))
            &&& (t == QueryType::GameInfo <==> (m == 0x07 || m == 0x08))
            &&& (t == QueryType::Steamworks <==> (m == 0x62 || m == 0x63))
            &&& (t == QueryType::MasterServer <==> !(m == 0x01 || m == 0x02 || m == 0x07 || m == 0x08 || m == 0x62 || m == 0x63))
        },
{
    let w = packet_wire(magic, key_echo, payload);
    assert(w.subrange(1, 3) =~= le16(key_echo));
    assert(w.subrange(3, w.len() as int) =~= payload);
}

/// Parsing the wire bytes of a query gives back its magic byte, key echo and
/// payload, and the kind that its magic byte announces.
pub proof fn lemma_query_roundtrip(magic: u8, key_echo: u16, payload: Seq<u8>)
    ensures
        parse_query(packet_wire(magic, key_echo, payload)) == Some(
            (magic, key_echo, query_type_of(magic), payload),
        ),
{
    let w = packet_wire(magic, key_echo, payload);
    lemma_le16_roundtrip(key_echo);
    assert(w[1] == le16(key_echo)[0]);
    assert(w[2] == le16(key_echo)[1]);
    assert(w.subrange(3, w.len() as int) =~= payload);
}

/// Wrapping a non-empty Steamworks payload as a raw A2S packet and unwrapping
/// it again gives back the payload.
pub proof fn lemma_a2s_wrap_roundtrip(payload: Seq<u8>)
    requires
        payload.len() >= 1,
    ensures
        parse_a2s_wrapped(a2s_header() + payload) == Some(payload),
{
    let w = a2s_header() + payload;
    assert(w.subrange(0, 4) =~= a2s_header());
    assert(w.subrange(4, w.len() as int) =~= payload);
}

} // verus!
