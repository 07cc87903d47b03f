//! Query protocols: Tribes ping and game info queries, and Steam A2S framing.

pub mod a2s;
pub mod gameinfo;
pub mod query;

use vstd::prelude::*;
use vstd::utf8::{encode_utf8, valid_utf8};
use crate::text::{hex_lower, push_hex2, push_str, text_of};

verus! {

/// The protocol packet kinds.
#[derive(Debug, Clone, Copy, PartialEq, Eq, Structural)]
pub enum PacketType {
    /// Ping query packet.
    Ping,
    /// GameInfo query packet.
    GameInfo,
    /// Steamworks (A2S) protocol packet.
    Steamworks,
    /// Master server packet.
    MasterServer,
    /// Unrecognized packet type byte.
    Unknown(u8),
}

/// The UTF-8 bytes of a packet kind's name; an unknown kind shows its byte
/// as two lowercase hex digits, as in `Unknown(0x1f)`.
pub open spec fn packet_type_bytes(t: PacketType) -> Seq<u8> {
    match t {
        PacketType::Ping => encode_utf8("Ping"@),
        PacketType::GameInfo => encode_utf8("GameInfo"@),
        PacketType::Steamworks => encode_utf8("Steamworks"@),
        PacketType::MasterServer => encode_utf8("MasterServer"@),
        PacketType::Unknown(b) => encode_utf8("Unknown(0x"@) + seq![hex_lower(b as nat / 16), hex_lower(b as nat % 16)]
            + encode_utf8(")"@),
    }
}

impl PacketType {
    /// The kind's name; see `packet_type_bytes`.
    pub fn text(&self) -> (r: String)
        ensures
            encode_utf8(r@) == packet_type_bytes(*self),
    {
        let mut out: Vec<u8> = Vec::new();
        proof {
            assert(valid_utf8(out@));
        }
        match self {
            PacketType::Ping => push_str(&mut out, "Ping"),
            PacketType::GameInfo => push_str(&mut out, "GameInfo"),
            PacketType::Steamworks => push_str(&mut out, "Steamworks"),
            PacketType::MasterServer => push_str(&mut out, "MasterServer"),
            PacketType::Unknown(b) => {
                push_str(&mut out, "Unknown(0x");
                push_hex2(&mut out, *b);
                push_str(&mut out, ")");
            },
        }
        proof {
            assert(out@ =~= packet_type_bytes(*self));
        }
        text_of(out)
    }
}

} // verus!
