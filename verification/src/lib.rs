//! Tribes-style game networking: bit-level packing, static Huffman string
//! compression, packet and query framing, and the authentication and session
//! state machines of an authoritative server.

pub mod error;
pub mod bytes;
pub mod text;
pub mod clock;
pub mod bitstream;
pub mod auth;
pub mod auth_codec;
pub mod connection;
pub mod client;
pub mod server;
pub mod huffman;
pub mod lan_sync;
pub mod sync_codec;
pub mod packet;
pub mod protocol;
pub mod wad;
pub mod udmf;
pub mod archive;
pub mod map_source;
pub mod steam_auth;
pub mod ergo_preset;
pub mod settings;
pub mod remote;
pub mod steam_browser;

pub use bitstream::{BitStreamReader, BitStreamWriter};
