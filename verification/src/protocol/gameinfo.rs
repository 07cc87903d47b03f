//! The GameInfo query response: server flags, Huffman-coded server name, game
//! type and mission, player counts, server figures and the player list.
//!
//! Every string is a Huffman block (see `huffman`) that starts on a byte
//! boundary; the numbers are bit fields, least significant bit first.

use vstd::prelude::*;
use vstd::utf8::{encode_utf8, decode_utf8};
use vstd::string::StringSliceAdditionalSpecFns;
use crate::bitstream::{
    BitStreamReader, BitStreamWriter, stream_bits, word_bits, zero_bits, bits_value, ceil_bytes,
    is_packing, lemma_ceil_bytes,
};
use crate::huffman::{
    HuffmanCodec, tribes_nodes, tribes_leaves, encoded_bits, huffman_decode, all_coded,
};
use crate::error::NetError;

verus! {

/// One player of the player list.
#[derive(Debug, Clone)]
pub struct PlayerInfo {
    /// Player name.
    pub name: String,
    /// Player score.
    pub score: i32,
    /// Player ping in milliseconds.
    pub ping: u32,
}

/// The GameInfo query response.
#[derive(Debug, Clone)]
pub struct GameInfo {
    /// Server information flags.
    pub flags: u32,
    /// Server name.
    pub name: String,
    /// Game type (such as "CTF").
    pub game_type: String,
    /// Mission (map) name.
    pub mission: String,
    /// Number of players, as read from the stream.
    pub player_count: u32,
    /// Maximum number of players.
    pub max_players: u32,
    /// Server CPU speed in MHz.
    pub cpu_speed: u32,
    /// Server bandwidth in kbps.
    pub bandwidth: u32,
    /// The player list.
    pub players: Vec<PlayerInfo>,
}

/// A player as a value: its name as characters.
pub struct PlayerModel {
    pub name: Seq<char>,
    pub score: i32,
    pub ping: u32,
}

/// A GameInfo response as a value.
pub struct GameInfoModel {
    pub flags: u32,
    pub name: Seq<char>,
    pub game_type: Seq<char>,
    pub mission: Seq<char>,
    pub player_count: u32,
    pub max_players: u32,
    pub cpu_speed: u32,
    pub bandwidth: u32,
    pub players: Seq<PlayerModel>,
}

impl View for PlayerInfo {
    type V = PlayerModel;

    open spec fn view(&self) -> PlayerModel {
        PlayerModel { name: self.name@, score: self.score, ping: self.ping }
    }
}

impl View for GameInfo {
    type V = GameInfoModel;

    open spec fn view(&self) -> GameInfoModel {
        GameInfoModel {
            flags: self.flags,
            name: self.name@,
            game_type: self.game_type@,
            mission: self.mission@,
            player_count: self.player_count,
            max_players: self.max_players,
            cpu_speed: self.cpu_speed,
            bandwidth: self.bandwidth,
            players: self.players@.map_values(|p: PlayerInfo| p@),
        }
    }
}

// ---------------------------------------------------------------------------
// Writing
// ---------------------------------------------------------------------------

/// `bits` followed by zero bits up to the next byte boundary.
pub open spec fn aligned(bits: Seq<bool>) -> Seq<bool> {
    bits + zero_bits((ceil_bytes(bits.len()) * 8 - bits.len()) as nat)
}

/// `bits` followed by the Huffman block of `s`, which starts on a byte
/// boundary and fills whole bytes.
pub open spec fn put_block(bits: Seq<bool>, s: Seq<char>) -> Seq<bool> {
    aligned(bits) + aligned(encoded_bits(tribes_leaves(), encode_utf8(s)))
}

/// Every byte of `s` has a Huffman code, so that its block can be written.
pub open spec fn block_ok(s: Seq<char>) -> bool {
    all_coded(tribes_leaves(), encode_utf8(s))
}

/// `v`, or `cap` when `v` is larger.
pub open spec fn capped(v: u32, cap: u32) -> u32 {
    if v < cap {
        v
    } else {
        cap
    }
}

/// `bits` followed by a player: name block, low 16 bits of the score, and
/// the ping capped at 65535 in 16 bits.
pub open spec fn put_player(bits: Seq<bool>, p: PlayerModel) -> Seq<bool> {
    put_block(bits, p.name) + word_bits((p.score as u32) & 0xFFFFu32, 16) + word_bits(
        capped(p.ping, 65535),
        16,
    )
}

/// `bits` followed by the players, in order.
pub open spec fn put_players(bits: Seq<bool>, ps: Seq<PlayerModel>) -> Seq<bool>
    decreases ps.len(),
{
    if ps.len() == 0 {
        bits
    } else {
        put_player(put_players(bits, ps.drop_last()), ps.last())
    }
}

/// `bits` followed by a GameInfo response: the flags in 32 bits; the name,
/// game type and mission blocks; the number of players and the maximum,
/// capped at 15, in 4 bits each; CPU speed and bandwidth, capped at 65535, in
/// 16 bits each; then every player. The player count written is the length of
/// the player list; the `player_count` field is not written.
pub open spec fn put_gameinfo(bits: Seq<bool>, g: GameInfoModel) -> Seq<bool> {
    let b1 = bits + word_bits(g.flags, 32);
    let b2 = put_block(put_block(put_block(b1, g.name), g.game_type), g.mission);
    let b3 = b2 + word_bits(capped(g.players.len() as u32, 15), 4) + word_bits(
        capped(g.max_players, 15),
        4,
    ) + word_bits(capped(g.cpu_speed, 65535), 16) + word_bits(capped(g.bandwidth, 65535), 16);
    put_players(b3, g.players)
}

/// Every string of the response can be Huffman coded.
pub open spec fn gameinfo_encodable(g: GameInfoModel) -> bool {
    &&& block_ok(g.name)
    &&& block_ok(g.game_type)
    &&& block_ok(g.mission)
    &&& forall|i: int| 0 <= i < g.players.len() ==> block_ok(#[trigger] g.players[i].name)
}

/// An upper bound on the bits that a string block adds.
pub open spec fn block_max_bits(s: Seq<char>) -> int {
    (32 * encode_utf8(s).len() + 64) as int
}

/// An upper bound on the bits that the players add.
pub open spec fn players_max_bits(ps: Seq<PlayerModel>) -> int
    decreases ps.len(),
{
    if ps.len() == 0 {
        0
    } else {
        players_max_bits(ps.drop_last()) + block_max_bits(ps.last().name) + 32
    }
}

/// An upper bound on the bits that a GameInfo response adds.
pub open spec fn gameinfo_max_bits(g: GameInfoModel) -> int {
    72 + block_max_bits(g.name) + block_max_bits(g.game_type) + block_max_bits(g.mission)
        + players_max_bits(g.players)
}

// ---------------------------------------------------------------------------
// Reading
// ---------------------------------------------------------------------------

/// The `n`-bit field at bit `pos` of `data`, as a number.
pub open spec fn field(data: Seq<u8>, pos: nat, n: nat) -> nat {
    bits_value(stream_bits(data).subrange(pos as int, (pos + n) as int))
}

/// At least `n` bits of `data` follow bit `pos`.
pub open spec fn has_bits(data: Seq<u8>, pos: nat, n: nat) -> bool {
    pos + n <= data.len() * 8
}

/// The Huffman block read at bit `pos` of `data`: decoding starts at the next
/// byte boundary. Gives the string's bytes and the bit position after the
/// bytes that decoding reports as consumed, or the decoding error.
pub open spec fn block_at(data: Seq<u8>, pos: nat) -> Result<(Seq<u8>, nat), NetError> {
    let start = ceil_bytes(pos);
    let rest = if start < data.len() {
        data.subrange(start as int, data.len() as int)
    } else {
        Seq::empty()
    };
    match huffman_decode(tribes_nodes(), tribes_leaves(), rest) {
        Ok((syms, used)) => Ok((syms, (start + used) * 8)),
        Err(e) => Err(e),
    }
}

/// A player read at bit `pos`: name block, then 16-bit score and ping.
pub open spec fn read_player(data: Seq<u8>, pos: nat) -> Result<(PlayerModel, nat), NetError> {
    match block_at(data, pos) {
        Err(e) => Err(e),
        Ok((name, p)) => if !has_bits(data, p, 32) {
            Err(NetError::UnexpectedEof)
        } else {
            Ok(
                (
                    PlayerModel {
                        name: decode_utf8(name),
                        score: field(data, p, 16) as i32,
                        ping: field(data, p + 16, 16) as u32,
                    },
                    p + 32,
                ),
            )
        },
    }
}

/// `count` players read one after another from bit `pos`.
pub open spec fn read_players(data: Seq<u8>, pos: nat, count: nat) -> Result<
    (Seq<PlayerModel>, nat),
    NetError,
>
    decreases count,
{
    if count == 0 {
        Ok((Seq::empty(), pos))
    } else {
        match read_players(data, pos, (count - 1) as nat) {
            Err(e) => Err(e),
            Ok((ps, p)) => match read_player(data, p) {
                Err(e) => Err(e),
                Ok((pl, q)) => Ok((ps.push(pl), q)),
            },
        }
    }
}

/// A GameInfo response read at bit `pos` of `data`, and the bit position
/// after it, or the first error met.
pub open spec fn read_gameinfo(data: Seq<u8>, pos: nat) -> Result<(GameInfoModel, nat), NetError> {
    if !has_bits(data, pos, 32) {
        Err(NetError::UnexpectedEof)
    } else {
        match block_at(data, pos + 32) {
            Err(e) => Err(e),
            Ok((name, p1)) => match block_at(data, p1) {
                Err(e) => Err(e),
                Ok((game_type, p2)) => match block_at(data, p2) {
                    Err(e) => Err(e),
                    Ok((mission, p3)) => if !has_bits(data, p3, 40) {
                        Err(NetError::UnexpectedEof)
                    } else {
                        let count = field(data, p3, 4);
                        match read_players(data, p3 + 40, count) {
                            Err(e) => Err(e),
                            Ok((ps, q)) => Ok(
                                (
                                    GameInfoModel {
                                        flags: field(data, pos, 32) as u32,
                                        name: decode_utf8(name),
                                        game_type: decode_utf8(game_type),
                                        mission: decode_utf8(mission),
                                        player_count: count as u32,
                                        max_players: field(data, p3 + 4, 4) as u32,
                                        cpu_speed: field(data, p3 + 8, 16) as u32,
                                        bandwidth: field(data, p3 + 24, 16) as u32,
                                        players: ps,
                                    },
                                    q,
                                ),
                            ),
                        }
                    },
                },
            },
        }
    }
}

/// Once reading the players fails, reading more of them fails the same way.
proof fn lemma_read_players_err(data: Seq<u8>, pos: nat, k: nat, m: nat)
    requires
        k <= m,
        read_players(data, pos, k) is Err,
    ensures
        read_players(data, pos, m) == read_players(data, pos, k),
    decreases m - k,
{
    if k < m {
        lemma_read_players_err(data, pos, k, (m - 1) as nat);
    }
}

/// Appending a byte to a written block.
proof fn lemma_put_players_step(bits: Seq<bool>, ps: Seq<PlayerModel>, i: int)
    requires
        0 <= i < ps.len(),
    ensures
        put_players(bits, ps.take(i + 1)) == put_player(put_players(bits, ps.take(i)), ps[i]),
        players_max_bits(ps.take(i + 1)) == players_max_bits(ps.take(i)) + block_max_bits(
            ps[i].name,
        ) + 32,
{
    assert(ps.take(i + 1).drop_last() =~= ps.take(i));
}

impl PlayerInfo {
    /// Writes the player: name block, score, ping.
    fn write_to(&self, writer: &mut BitStreamWriter) -> (r: Result<(), NetError>)
        requires
            old(writer).wf(),
            old(writer)@.len() + block_max_bits(self.name@) + 32 <= usize::MAX,
        ensures
            final(writer).wf(),
            r is Ok <==> block_ok(self.name@),
            r is Err ==> r == Err::<(), NetError>(NetError::InvalidInput),
            r is Ok ==> final(writer)@ == put_player(old(writer)@, self@),
            r is Ok ==> final(writer)@.len() <= old(writer)@.len() + block_max_bits(self.name@)
                + 32,
    {
        match GameInfo::write_huffman_string(writer, self.name.as_str()) {
            Ok(()) => {},
            Err(e) => {
                return Err(e);
            },
        }
        let score_bits = (self.score as u32) & 0xFFFF;
        let _ = writer.write_bits(score_bits, 16);
        let ping = if self.ping < 65535 {
            self.ping
        } else {
            65535
        };
        let _ = writer.write_bits(ping, 16);
        Ok(())
    }
}

impl GameInfo {
    /// An empty response: zero numbers, empty strings, no players.
    pub fn new() -> (g: Self)
        ensures
            g.flags == 0,
            g.name@ == Seq::<char>::empty(),
            g.game_type@ == Seq::<char>::empty(),
            g.mission@ == Seq::<char>::empty(),
            g.player_count == 0,
            g.max_players == 0,
            g.cpu_speed == 0,
            g.bandwidth == 0,
            g.players@.len() == 0,
    {
        GameInfo {
            flags: 0,
            name: String::new(),
            game_type: String::new(),
            mission: String::new(),
            player_count: 0,
            max_players: 0,
            cpu_speed: 0,
            bandwidth: 0,
            players: Vec::new(),
        }
    }

    /// Reads a response at the reader's position; see `read_gameinfo` for the
    /// outcome on every input. On success the reader stands after the response.
    pub fn from_bitstream(reader: &mut BitStreamReader) -> (r: Result<Self, NetError>)
        requires
            old(reader).wf(),
        ensures
            final(reader).wf(),
            final(reader).bytes() == old(reader).bytes(),
            read_gameinfo(old(reader).bytes(), old(reader).position()) matches Ok((g, p)) ==> r matches Ok(
                info,
            ) && info@ == g && final(reader).position() == p,
            read_gameinfo(old(reader).bytes(), old(reader).position()) matches Err(e) ==> r
                == Err::<GameInfo, NetError>(e),
    {
        let ghost data = reader.bytes();
        let ghost pos0 = reader.position();
        let mut info = GameInfo::new();
        info.flags = match reader.read_u32() {
            Ok(v) => v,
            Err(e) => {
                return Err(e);
            },
        };
        info.name = match Self::read_huffman_string(reader) {
            Ok(s) => s,
            Err(e) => {
                return Err(e);
            },
        };
        info.game_type = match Self::read_huffman_string(reader) {
            Ok(s) => s,
            Err(e) => {
                return Err(e);
            },
        };
        info.mission = match Self::read_huffman_string(reader) {
            Ok(s) => s,
            Err(e) => {
                return Err(e);
            },
        };
        let ghost p3 = reader.position();
        proof {
            reader.lemma_position_bound();
        }
        info.player_count = match reader.read_bits(4) {
            Ok(v) => v,
            Err(e) => {
                return Err(e);
            },
        };
        info.max_players = match reader.read_bits(4) {
            Ok(v) => v,
            Err(e) => {
                return Err(e);
            },
        };
        info.cpu_speed = match reader.read_bits(16) {
            Ok(v) => v,
            Err(e) => {
                return Err(e);
            },
        };
        info.bandwidth = match reader.read_bits(16) {
            Ok(v) => v,
            Err(e) => {
                return Err(e);
            },
        };
        info.players = match Self::read_player_list(reader, info.player_count) {
            Ok(v) => v,
            Err(e) => {
                return Err(e);
            },
        };
        Ok(info)
    }

    /// Reads `count` players one after another.
    fn read_player_list(reader: &mut BitStreamReader, count: u32) -> (r: Result<
        Vec<PlayerInfo>,
        NetError,
    >)
        requires
            old(reader).wf(),
        ensures
            final(reader).wf(),
            final(reader).bytes() == old(reader).bytes(),
            read_players(old(reader).bytes(), old(reader).position(), count as nat) matches Ok((ps, p))
                ==> r matches Ok(v) && v@.map_values(|pl: PlayerInfo| pl@) == ps
                && final(reader).position() == p,
            read_players(old(reader).bytes(), old(reader).position(), count as nat) matches Err(e)
                ==> r == Err::<Vec<PlayerInfo>, NetError>(e),
    {
        let ghost data = reader.bytes();
        let ghost start = reader.position();
        let mut players: Vec<PlayerInfo> = Vec::new();
        assert(players@.map_values(|p: PlayerInfo| p@) =~= Seq::<PlayerModel>::empty());
        let mut i: u32 = 0;
        while i < count
            invariant
                reader.wf(),
                reader.bytes() == data,
                data == old(reader).bytes(),
                start == old(reader).position(),
                i <= count,
                read_players(data, start, i as nat) == Ok::<(Seq<PlayerModel>, nat), NetError>(
                    (players@.map_values(|p: PlayerInfo| p@), reader.position()),
                ),
            decreases count - i,
        {
            let name = match Self::read_huffman_string(reader) {
                Ok(s) => s,
                Err(e) => {
                    proof {
                        lemma_read_players_err(data, start, (i + 1) as nat, count as nat);
                    }
                    return Err(e);
                },
            };
            let score_bits = match reader.read_bits(16) {
                Ok(v) => v,
                Err(e) => {
                    proof {
                        lemma_read_players_err(data, start, (i + 1) as nat, count as nat);
                    }
                    return Err(e);
                },
            };
            let ping = match reader.read_bits(16) {
                Ok(v) => v,
                Err(e) => {
                    proof {
                        lemma_read_players_err(data, start, (i + 1) as nat, count as nat);
                    }
                    return Err(e);
                },
            };
            proof {
                crate::bitstream::lemma_bits_value_bound(
                    stream_bits(data).subrange(
                        (reader.position() - 32) as int,
                        (reader.position() - 16) as int,
                    ),
                );
                vstd::arithmetic::power2::lemma2_to64();
            }
            let ghost old_players = players@.map_values(|p: PlayerInfo| p@);
            let player = PlayerInfo { name, score: score_bits as i32, ping };
            players.push(player);
            proof {
                assert(players@.map_values(|p: PlayerInfo| p@) =~= old_players.push(player@));
            }
            i = i + 1;
        }
        Ok(players)
    }

    /// Writes the response; see `put_gameinfo`. Fails with `InvalidInput`,
    /// writing nothing, when more than 15 players are listed (the count field
    /// has 4 bits), and with `InvalidInput` when a string has a byte without a
    /// Huffman code.
    pub fn to_bitstream(&self, writer: &mut BitStreamWriter) -> (r: Result<(), NetError>)
        requires
            old(writer).wf(),
            old(writer)@.len() + gameinfo_max_bits(self@) <= usize::MAX,
        ensures
            final(writer).wf(),
            r is Ok <==> gameinfo_encodable(self@) && self@.players.len() <= 15,
            r is Err ==> r == Err::<(), NetError>(NetError::InvalidInput),
            self@.players.len() > 15 ==> final(writer)@ == old(writer)@,
            r is Ok ==> final(writer)@ == put_gameinfo(old(writer)@, self@),
    {
        let ghost g = self@;
        if self.players.len() > 15 {
            return Err(NetError::InvalidInput);
        }
        proof {
            lemma_players_max_bits_nonneg(g.players);
        }
        let _ = writer.write_u32(self.flags);
        match Self::write_huffman_string(writer, self.name.as_str()) {
            Ok(()) => {},
            Err(e) => {
                return Err(e);
            },
        }
        match Self::write_huffman_string(writer, self.game_type.as_str()) {
            Ok(()) => {},
            Err(e) => {
                return Err(e);
            },
        }
        match Self::write_huffman_string(writer, self.mission.as_str()) {
            Ok(()) => {},
            Err(e) => {
                return Err(e);
            },
        }
        let n = #[verifier::truncate] (self.players.len() as u32);
        let player_count = if n < 15 {
            n
        } else {
            15
        };
        let _ = writer.write_bits(player_count, 4);
        let max_players = if self.max_players < 15 {
            self.max_players
        } else {
            15
        };
        let _ = writer.write_bits(max_players, 4);
        let cpu_speed = if self.cpu_speed < 65535 {
            self.cpu_speed
        } else {
            65535
        };
        let _ = writer.write_bits(cpu_speed, 16);
        let bandwidth = if self.bandwidth < 65535 {
            self.bandwidth
        } else {
            65535
        };
        let _ = writer.write_bits(bandwidth, 16);
        let r = Self::write_player_list(writer, &self.players);
        proof {
            assert forall|i: int| 0 <= i < self.players@.len() implies #[trigger] g.players[i]
                == self.players@[i]@ by {}
            if r is Ok {
                assert forall|i: int| 0 <= i < g.players.len() implies block_ok(
                    #[trigger] g.players[i].name,
                ) by {
                    assert(block_ok(self.players@[i].name@));
                }
            } else {
                let i = choose|i: int|
                    0 <= i < self.players@.len() && !block_ok(#[trigger] self.players@[i].name@);
                assert(g.players[i].name == self.players@[i].name@);
            }
        }
        r
    }

    /// Writes every player, in order.
    fn write_player_list(writer: &mut BitStreamWriter, players: &Vec<PlayerInfo>) -> (r: Result<
        (),
        NetError,
    >)
        requires
            old(writer).wf(),
            old(writer)@.len() + players_max_bits(players@.map_values(|p: PlayerInfo| p@))
                <= usize::MAX,
        ensures
            final(writer).wf(),
            r is Ok <==> forall|i: int|
                0 <= i < players@.len() ==> block_ok(#[trigger] players@[i].name@),
            r is Err ==> r == Err::<(), NetError>(NetError::InvalidInput),
            r is Ok ==> final(writer)@ == put_players(
                old(writer)@,
                players@.map_values(|p: PlayerInfo| p@),
            ),
    {
        let ghost header = writer@;
        let ghost ps = players@.map_values(|p: PlayerInfo| p@);
        proof {
            lemma_players_max_bits_take(ps, 0);
            assert(ps.take(0) =~= Seq::<PlayerModel>::empty());
        }
        let mut i: usize = 0;
        while i < players.len()
            invariant
                writer.wf(),
                ps == players@.map_values(|p: PlayerInfo| p@),
                header == old(writer)@,
                i <= players@.len(),
                forall|k: int| 0 <= k < i ==> block_ok(#[trigger] players@[k].name@),
                writer@ == put_players(header, ps.take(i as int)),
                writer@.len() <= header.len() + players_max_bits(ps.take(i as int)),
                header.len() + players_max_bits(ps) <= usize::MAX,
            decreases players.len() - i,
        {
            proof {
                lemma_put_players_step(header, ps, i as int);
                lemma_players_max_bits_take(ps, i as int + 1);
                assert(ps[i as int] == players@[i as int]@);
            }
            match players[i].write_to(writer) {
                Ok(()) => {},
                Err(e) => {
                    return Err(e);
                },
            }
            i = i + 1;
        }
        proof {
            assert(ps.take(ps.len() as int) =~= ps);
        }
        Ok(())
    }

    /// Reads a Huffman block: aligns to a byte boundary, decodes, and skips
    /// the bytes consumed.
    fn read_huffman_string(reader: &mut BitStreamReader) -> (r: Result<String, NetError>)
        requires
            old(reader).wf(),
        ensures
            final(reader).wf(),
            final(reader).bytes() == old(reader).bytes(),
            block_at(old(reader).bytes(), old(reader).position()) matches Ok((syms, p)) ==> r matches Ok(
                s,
            ) && s@ == decode_utf8(syms) && final(reader).position() == p,
            block_at(old(reader).bytes(), old(reader).position()) matches Err(e) ==> r == Err::<
                String,
                NetError,
            >(e),
    {
        let ghost data = reader.bytes();
        let ghost start = ceil_bytes(reader.position());
        reader.align();
        let rem = reader.remaining_bytes();
        proof {
            reader.lemma_position_bound();
            lemma_ceil_bytes(reader.position());
            assert(ceil_bytes(reader.position()) == start);
            if start >= data.len() {
                assert(rem@ =~= Seq::<u8>::empty());
            }
        }
        let codec = HuffmanCodec::new();
        let (s, consumed) = match codec.decode_string(rem) {
            Ok(v) => v,
            Err(e) => {
                return Err(e);
            },
        };
        proof {
            crate::huffman::lemma_decode_consumed(&codec, rem@);
            lemma_ceil_bytes(old(reader).position());
        }
        match reader.skip_bits(consumed * 8) {
            Ok(()) => {},
            Err(e) => {
                return Err(e);
            },
        }
        Ok(s)
    }

    /// Writes the Huffman block of `s`, starting on a byte boundary. Fails with
    /// `InvalidInput`, writing nothing, when a byte of `s` has no code.
    fn write_huffman_string(writer: &mut BitStreamWriter, s: &str) -> (r: Result<(), NetError>)
        requires
            old(writer).wf(),
            old(writer)@.len() + block_max_bits(s@) <= usize::MAX,
        ensures
            final(writer).wf(),
            r is Ok <==> block_ok(s@),
            r is Err ==> r == Err::<(), NetError>(NetError::InvalidInput),
            r is Err ==> final(writer)@ == old(writer)@,
            r is Ok ==> final(writer)@ == put_block(old(writer)@, s@),
            r is Ok ==> final(writer)@.len() <= old(writer)@.len() + block_max_bits(s@),
    {
        let codec = HuffmanCodec::new();
        let encoded = match codec.encode_string(s) {
            Ok(v) => v,
            Err(e) => {
                return Err(e);
            },
        };
        let ghost e = encoded_bits(tribes_leaves(), encode_utf8(s@));
        proof {
            lemma_block_len(&codec, s@);
        }
        writer.align();
        let ghost base = writer@;
        let mut i: usize = 0;
        while i < encoded.len()
            invariant
                writer.wf(),
                i <= encoded@.len(),
                is_packing(encoded@, e),
                base.len() + 8 * encoded@.len() <= usize::MAX,
                writer@ == base + stream_bits(encoded@.take(i as int)),
            decreases encoded.len() - i,
        {
            proof {
                crate::bitstream::lemma_stream_bits_push(encoded@.take(i as int), encoded@[i as int]);
                assert(encoded@.take(i as int).push(encoded@[i as int]) =~= encoded@.take(i + 1));
            }
            let _ = writer.write_byte(encoded[i]);
            i = i + 1;
        }
        proof {
            assert(encoded@.take(encoded@.len() as int) =~= encoded@);
        }
        Ok(())
    }
}

/// A block of an encodable string takes at most `block_max_bits` bits, and
/// its encoding fills `ceil_bytes` bytes.
proof fn lemma_block_len(codec: &HuffmanCodec, s: Seq<char>)
    requires
        codec.wf(),
        codec.leaves_view() == tribes_leaves(),
    ensures
        block_ok(s) ==> {
            let e = encoded_bits(tribes_leaves(), encode_utf8(s));
            8 * ceil_bytes(e.len()) + 8 <= block_max_bits(s)
        },
{
    if block_ok(s) {
        let b = encode_utf8(s);
        let e = encoded_bits(tribes_leaves(), b);
        crate::huffman::lemma_encoded_len(codec, b);
        lemma_ceil_bytes(e.len());
    }
}

/// The bound on the players' bits grows with the list.
proof fn lemma_players_max_bits_take(ps: Seq<PlayerModel>, k: int)
    requires
        0 <= k <= ps.len(),
    ensures
        0 <= players_max_bits(ps.take(k)) <= players_max_bits(ps),
    decreases ps.len() - k,
{
    lemma_players_max_bits_nonneg(ps.take(k));
    if k < ps.len() {
        lemma_players_max_bits_take(ps, k + 1);
        lemma_put_players_step(Seq::empty(), ps, k);
    } else {
        assert(ps.take(k) =~= ps);
        lemma_players_max_bits_nonneg(ps);
    }
}

proof fn lemma_players_max_bits_nonneg(ps: Seq<PlayerModel>)
    ensures
        players_max_bits(ps) >= 0,
    decreases ps.len(),
{
    if ps.len() > 0 {
        lemma_players_max_bits_nonneg(ps.drop_last());
    }
}

/// Aligning adds fewer than eight bits.
proof fn lemma_aligned_len(bits: Seq<bool>)
    ensures
        bits.len() <= aligned(bits).len() <= bits.len() + 7,
{
    lemma_ceil_bytes(bits.len());
}

/// A block adds at most `block_max_bits` bits.
proof fn lemma_put_block_len(bits: Seq<bool>, s: Seq<char>)
    requires
        block_ok(s),
    ensures
        put_block(bits, s).len() <= bits.len() + block_max_bits(s),
{
    let e = encoded_bits(tribes_leaves(), encode_utf8(s));
    crate::huffman::lemma_encoded_bits_len(tribes_leaves(), encode_utf8(s));
    lemma_aligned_len(bits);
    lemma_aligned_len(e);
}

/// The players add at most `players_max_bits` bits.
proof fn lemma_put_players_len(bits: Seq<bool>, ps: Seq<PlayerModel>)
    requires
        forall|i: int| 0 <= i < ps.len() ==> block_ok(#[trigger] ps[i].name),
    ensures
        put_players(bits, ps).len() <= bits.len() + players_max_bits(ps),
    decreases ps.len(),
{
    if ps.len() > 0 {
        let front = ps.drop_last();
        assert forall|i: int| 0 <= i < front.len() implies block_ok(#[trigger] front[i].name) by {
            assert(front[i] == ps[i]);
        }
        lemma_put_players_len(bits, front);
        assert(block_ok(ps[ps.len() - 1].name));
        lemma_put_block_len(put_players(bits, front), ps.last().name);
    }
}

/// An encodable response adds at most `gameinfo_max_bits` bits: what a
/// caller reserves before writing it.
pub proof fn lemma_put_gameinfo_len(bits: Seq<bool>, g: GameInfoModel)
    requires
        gameinfo_encodable(g),
    ensures
        put_gameinfo(bits, g).len() <= bits.len() + gameinfo_max_bits(g),
{
    let b1 = bits + word_bits(g.flags, 32);
    lemma_put_block_len(b1, g.name);
    lemma_put_block_len(put_block(b1, g.name), g.game_type);
    lemma_put_block_len(put_block(put_block(b1, g.name), g.game_type), g.mission);
    let b2 = put_block(put_block(put_block(b1, g.name), g.game_type), g.mission);
    let b3 = b2 + word_bits(capped(g.players.len() as u32, 15), 4) + word_bits(
        capped(g.max_players, 15),
        4,
    ) + word_bits(capped(g.cpu_speed, 65535), 16) + word_bits(capped(g.bandwidth, 65535), 16);
    lemma_put_players_len(b3, g.players);
}

// ---------------------------------------------------------------------------
// Reading back what was written
// ---------------------------------------------------------------------------

/// A sequence is a prefix of itself followed by anything.
proof fn lemma_prefix_concat(a: Seq<bool>, y: Seq<bool>)
    ensures
        a.is_prefix_of(a + y),
{
    assert(a =~= (a + y).subrange(0, a.len() as int));
}

/// A prefix of a prefix is a prefix.
proof fn lemma_prefix_trans(a: Seq<bool>, b: Seq<bool>, c: Seq<bool>)
    requires
        a.is_prefix_of(b),
        b.is_prefix_of(c),
    ensures
        a.is_prefix_of(c),
{
    assert forall|i: int| 0 <= i < a.len() implies a[i] == c[i] by {
        assert(a[i] == b.subrange(0, a.len() as int)[i]);
        assert(b[i] == c.subrange(0, b.len() as int)[i]);
    }
    assert(a =~= c.subrange(0, a.len() as int));
}

/// A field of `n` bits holding `v` (below `2^n`) written after `w` reads back as `v`.
proof fn lemma_field_roundtrip(data: Seq<u8>, w: Seq<bool>, v: u32, n: nat)
    requires
        1 <= n <= 32,
        v < vstd::arithmetic::power2::pow2(n),
        (w + word_bits(v, n)).is_prefix_of(stream_bits(data)),
    ensures
        has_bits(data, w.len(), n),
        field(data, w.len(), n) == v,
{
    let all = stream_bits(data);
    let x = w + word_bits(v, n);
    assert(all.subrange(w.len() as int, (w.len() + n) as int) =~= word_bits(v, n)) by {
        assert forall|k: int| 0 <= k < n implies all.subrange(w.len() as int, (w.len() + n) as int)[k]
            == word_bits(v, n)[k] by {
            assert(x[w.len() + k] == all.subrange(0, x.len() as int)[w.len() + k]);
        }
    }
    crate::bitstream::lemma_word_bits_value(v, n);
    vstd::arithmetic::div_mod::lemma_small_mod(v as nat, vstd::arithmetic::power2::pow2(n));
}

/// A Huffman block of a string of at most 255 coded bytes, written after `bits`,
/// reads back as the string's bytes, ending where the block ends.
proof fn lemma_block_roundtrip(codec: &HuffmanCodec, data: Seq<u8>, bits: Seq<bool>, s: Seq<char>)
    requires
        codec.wf(),
        codec.nodes_view() == tribes_nodes(),
        codec.leaves_view() == tribes_leaves(),
        block_ok(s),
        encode_utf8(s).len() <= 255,
        put_block(bits, s).is_prefix_of(stream_bits(data)),
    ensures
        block_at(data, bits.len()) == Ok::<(Seq<u8>, nat), NetError>(
            (encode_utf8(s), put_block(bits, s).len()),
        ),
        decode_utf8(encode_utf8(s)) == s,
{
    let all = stream_bits(data);
    let e = encoded_bits(tribes_leaves(), encode_utf8(s));
    let w = put_block(bits, s);
    let start = ceil_bytes(bits.len());
    let cb = ceil_bytes(e.len());
    lemma_ceil_bytes(bits.len());
    lemma_ceil_bytes(e.len());
    assert(aligned(bits).len() == start * 8);
    assert(aligned(e).len() == cb * 8);
    crate::huffman::lemma_encoded_len(codec, encode_utf8(s));
    assert(e.len() >= 9);
    assert(start + cb <= data.len());
    let out = data.subrange(start as int, (start + cb) as int);
    let rest = data.subrange(start as int, data.len() as int);
    crate::bitstream::lemma_stream_bits_subrange(data, start as int, (start + cb) as int);
    assert(stream_bits(out) =~= aligned(e)) by {
        assert forall|k: int| 0 <= k < cb * 8 implies stream_bits(out)[k] == aligned(e)[k] by {
            assert(w[start * 8 + k] == all.subrange(0, w.len() as int)[start * 8 + k]);
            assert(w[start * 8 + k] == aligned(e)[k]);
        }
    }
    assert(is_packing(out, e));
    assert(rest.subrange(0, cb as int) =~= out);
    crate::huffman::lemma_huffman_roundtrip_in(codec, s, out, rest);
}

/// A player written after `bits` reads back, ending where it ends.
proof fn lemma_player_roundtrip(codec: &HuffmanCodec, data: Seq<u8>, bits: Seq<bool>, p: PlayerModel)
    requires
        codec.wf(),
        codec.nodes_view() == tribes_nodes(),
        codec.leaves_view() == tribes_leaves(),
        block_ok(p.name),
        encode_utf8(p.name).len() <= 255,
        0 <= p.score <= 65535,
        p.ping <= 65535,
        put_player(bits, p).is_prefix_of(stream_bits(data)),
    ensures
        read_player(data, bits.len()) == Ok::<(PlayerModel, nat), NetError>(
            (p, put_player(bits, p).len()),
        ),
{
    let b1 = put_block(bits, p.name);
    let sc = (p.score as u32) & 0xFFFFu32;
    let b2 = b1 + word_bits(sc, 16);
    let w = b2 + word_bits(capped(p.ping, 65535), 16);
    lemma_prefix_concat(b2, word_bits(capped(p.ping, 65535), 16));
    lemma_prefix_concat(b1, word_bits(sc, 16));
    lemma_prefix_trans(b2, w, stream_bits(data));
    lemma_prefix_trans(b1, b2, stream_bits(data));
    lemma_block_roundtrip(codec, data, bits, p.name);
    let score = p.score;
    assert(0 <= score <= 65535 ==> (score as u32) & 0xFFFFu32 == score as u32) by (bit_vector);
    vstd::arithmetic::power2::lemma2_to64();
    lemma_field_roundtrip(data, b1, sc, 16);
    lemma_field_roundtrip(data, b2, capped(p.ping, 65535), 16);
}

/// Writing players only extends what was written before them.
proof fn lemma_put_players_extends(bits: Seq<bool>, ps: Seq<PlayerModel>, k: int)
    requires
        0 <= k <= ps.len(),
    ensures
        put_players(bits, ps.take(k)).is_prefix_of(put_players(bits, ps)),
    decreases ps.len(),
{
    if k == ps.len() {
        assert(ps.take(k) =~= ps);
    } else {
        let front = ps.drop_last();
        assert(ps.take(k) =~= front.take(k));
        lemma_put_players_extends(bits, front, k);
        let pre = put_players(bits, front);
        let l = ps.last();
        let b1 = put_block(pre, l.name);
        lemma_prefix_concat(pre, zero_bits((ceil_bytes(pre.len()) * 8 - pre.len()) as nat));
        lemma_prefix_concat(aligned(pre), aligned(encoded_bits(tribes_leaves(), encode_utf8(l.name))));
        lemma_prefix_trans(pre, aligned(pre), b1);
        lemma_prefix_concat(b1, word_bits((l.score as u32) & 0xFFFFu32, 16));
        lemma_prefix_trans(pre, b1, b1 + word_bits((l.score as u32) & 0xFFFFu32, 16));
        lemma_prefix_concat(
            b1 + word_bits((l.score as u32) & 0xFFFFu32, 16),
            word_bits(capped(l.ping, 65535), 16),
        );
        lemma_prefix_trans(
            pre,
            b1 + word_bits((l.score as u32) & 0xFFFFu32, 16),
            put_players(bits, ps),
        );
        lemma_prefix_trans(put_players(bits, front.take(k)), pre, put_players(bits, ps));
    }
}

/// Each string, score and ping of a player can be read back as written.
pub open spec fn player_roundtrips(p: PlayerModel) -> bool {
    &&& block_ok(p.name)
    &&& encode_utf8(p.name).len() <= 255
    &&& 0 <= p.score <= 65535
    &&& p.ping <= 65535
}

/// The first `k` players written after `bits` read back, in order.
proof fn lemma_players_roundtrip(
    codec: &HuffmanCodec,
    data: Seq<u8>,
    bits: Seq<bool>,
    ps: Seq<PlayerModel>,
    k: nat,
)
    requires
        codec.wf(),
        codec.nodes_view() == tribes_nodes(),
        codec.leaves_view() == tribes_leaves(),
        k <= ps.len(),
        forall|i: int| 0 <= i < ps.len() ==> player_roundtrips(#[trigger] ps[i]),
        put_players(bits, ps).is_prefix_of(stream_bits(data)),
    ensures
        read_players(data, bits.len(), k) == Ok::<(Seq<PlayerModel>, nat), NetError>(
            (ps.take(k as int), put_players(bits, ps.take(k as int)).len()),
        ),
    decreases k,
{
    if k == 0 {
        assert(ps.take(0) =~= Seq::<PlayerModel>::empty());
    } else {
        let j = (k - 1) as nat;
        lemma_players_roundtrip(codec, data, bits, ps, j);
        lemma_put_players_step(bits, ps, j as int);
        lemma_put_players_extends(bits, ps, k as int);
        lemma_prefix_trans(put_players(bits, ps.take(k as int)), put_players(bits, ps), stream_bits(data));
        assert(player_roundtrips(ps[j as int]));
        lemma_player_roundtrip(codec, data, put_players(bits, ps.take(j as int)), ps[j as int]);
        assert(ps.take(k as int) =~= ps.take(j as int).push(ps[j as int]));
    }
}

/// Each string and number of a response can be read back as written: the
/// strings have at most 255 bytes, all with codes, at most 15 players are listed and
/// `player_count` says how many, the maximum is at most 15, CPU speed and
/// bandwidth fit 16 bits, and so do each player's score (not negative) and ping.
pub open spec fn gameinfo_roundtrips(g: GameInfoModel) -> bool {
    &&& gameinfo_encodable(g)
    &&& encode_utf8(g.name).len() <= 255
    &&& encode_utf8(g.game_type).len() <= 255
    &&& encode_utf8(g.mission).len() <= 255
    &&& g.players.len() <= 15
    &&& g.player_count == g.players.len()
    &&& g.max_players <= 15
    &&& g.cpu_speed <= 65535
    &&& g.bandwidth <= 65535
    &&& forall|i: int| 0 <= i < g.players.len() ==> player_roundtrips(#[trigger] g.players[i])
}

/// Reading a response back from the bytes it was written to gives the same
/// response, and the reader ends where the writing ended. `codec` stands for
/// the codec that `HuffmanCodec::new` builds, which both sides use.
pub proof fn lemma_gameinfo_roundtrip(
    codec: &HuffmanCodec,
    prefix: Seq<bool>,
    g: GameInfoModel,
    data: Seq<u8>,
)
    requires
        codec.wf(),
        codec.nodes_view() == tribes_nodes(),
        codec.leaves_view() == tribes_leaves(),
        gameinfo_roundtrips(g),
        put_gameinfo(prefix, g).is_prefix_of(stream_bits(data)),
    ensures
        read_gameinfo(data, prefix.len()) == Ok::<(GameInfoModel, nat), NetError>(
            (g, put_gameinfo(prefix, g).len()),
        ),
{
    let all = stream_bits(data);
    let total = put_gameinfo(prefix, g);
    let b1 = prefix + word_bits(g.flags, 32);
    let n1 = put_block(b1, g.name);
    let n2 = put_block(n1, g.game_type);
    let n3 = put_block(n2, g.mission);
    let c = capped(g.players.len() as u32, 15);
    let m = capped(g.max_players, 15);
    let cpu = capped(g.cpu_speed, 65535);
    let bw = capped(g.bandwidth, 65535);
    let h1 = n3 + word_bits(c, 4);
    let h2 = h1 + word_bits(m, 4);
    let h3 = h2 + word_bits(cpu, 16);
    let h4 = h3 + word_bits(bw, 16);
    // Every stage is a prefix of the whole.
    lemma_put_players_extends(h4, g.players, 0);
    assert(g.players.take(0) =~= Seq::<PlayerModel>::empty());
    lemma_prefix_trans(h4, total, all);
    lemma_prefix_concat(h3, word_bits(bw, 16));
    lemma_prefix_trans(h3, h4, all);
    lemma_prefix_concat(h2, word_bits(cpu, 16));
    lemma_prefix_trans(h2, h3, all);
    lemma_prefix_concat(h1, word_bits(m, 4));
    lemma_prefix_trans(h1, h2, all);
    lemma_prefix_concat(n3, word_bits(c, 4));
    lemma_prefix_trans(n3, h1, all);
    lemma_prefix_concat(aligned(n2), aligned(encoded_bits(tribes_leaves(), encode_utf8(g.mission))));
    lemma_prefix_concat(n2, zero_bits((ceil_bytes(n2.len()) * 8 - n2.len()) as nat));
    lemma_prefix_trans(n2, aligned(n2), n3);
    lemma_prefix_trans(n2, n3, all);
    lemma_prefix_concat(aligned(n1), aligned(encoded_bits(tribes_leaves(), encode_utf8(g.game_type))));
    lemma_prefix_concat(n1, zero_bits((ceil_bytes(n1.len()) * 8 - n1.len()) as nat));
    lemma_prefix_trans(n1, aligned(n1), n2);
    lemma_prefix_trans(n1, n2, all);
    lemma_prefix_concat(aligned(b1), aligned(encoded_bits(tribes_leaves(), encode_utf8(g.name))));
    lemma_prefix_concat(b1, zero_bits((ceil_bytes(b1.len()) * 8 - b1.len()) as nat));
    lemma_prefix_trans(b1, aligned(b1), n1);
    lemma_prefix_trans(b1, n1, all);
    // The fields and blocks read back one by one.
    vstd::arithmetic::power2::lemma2_to64();
    lemma_field_roundtrip(data, prefix, g.flags, 32);
    lemma_block_roundtrip(codec, data, b1, g.name);
    lemma_block_roundtrip(codec, data, n1, g.game_type);
    lemma_block_roundtrip(codec, data, n2, g.mission);
    assert(c == g.players.len());
    lemma_field_roundtrip(data, n3, c, 4);
    lemma_field_roundtrip(data, h1, m, 4);
    lemma_field_roundtrip(data, h2, cpu, 16);
    lemma_field_roundtrip(data, h3, bw, 16);
    lemma_players_roundtrip(codec, data, h4, g.players, g.players.len());
    assert(g.players.take(g.players.len() as int) =~= g.players);
}

impl Default for GameInfo {
    fn default() -> (g: Self)
        ensures
            g.flags == 0,
            g.name@ == Seq::<char>::empty(),
            g.game_type@ == Seq::<char>::empty(),
            g.mission@ == Seq::<char>::empty(),
            g.player_count == 0,
            g.max_players == 0,
            g.cpu_speed == 0,
            g.bandwidth == 0,
            g.players@.len() == 0,
    {
        Self::new()
    }
}

} // verus!
