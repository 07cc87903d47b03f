//! Generic packet framing: a magic byte, a little-endian key echo, and a payload.

use vstd::prelude::*;
use crate::bitstream::{BitStreamReader, BitStreamWriter, is_packing};
use crate::bytes::{le16, from_le16, push_le16, read_le16, lemma_le16_roundtrip};
use crate::error::NetError;

verus! {

/// Minimum packet size in bytes (some networks drop very small packets).
const MIN_PACKET_SIZE: usize = 8;

/// Header bytes before the payload: the magic byte and the two key echo bytes.
pub open spec fn header_len() -> nat {
    3
}

/// The wire form of a packet.
pub open spec fn packet_wire(magic: u8, key_echo: u16, payload: Seq<u8>) -> Seq<u8> {
    seq![magic] + le16(key_echo) + payload
}

/// What a packet's bytes decode to: the magic byte, the key echo (0 when the
/// input is shorter than three bytes), and the payload (empty when there is
/// nothing after the header); `None` for empty input.
pub open spec fn parse_packet(data: Seq<u8>) -> Option<(u8, u16, Seq<u8>)> {
    if data.len() == 0 {
        None
    } else {
        Some(
            (
                data[0],
                if data.len() >= 3 {
                    from_le16(data[1], data[2])
                } else {
                    0
                },
                if data.len() > 3 {
                    data.subrange(3, data.len() as int)
                } else {
                    Seq::<u8>::empty()
                },
            ),
        )
    }
}

/// A network packet.
#[derive(Debug, Clone)]
pub struct Packet {
    /// Protocol magic byte identifying the packet type.
    pub magic: u8,
    /// Key echo value (2 bytes, little-endian on the wire).
    pub key_echo: u16,
    /// Connection identifier (not carried on the wire).
    pub connection_id: u32,
    /// Payload bytes.
    pub payload: Vec<u8>,
}

impl Packet {
    /// Creates a packet with the given magic byte, a zero key echo and an empty payload.
    pub fn new(magic: u8) -> (p: Self)
        ensures
            p.magic == magic,
            p.key_echo == 0,
            p.connection_id == 0,
            p.payload@ == Seq::<u8>::empty(),
    {
        Packet { magic, key_echo: 0, connection_id: 0, payload: Vec::new() }
    }

    /// Parses a packet; fails with `InvalidData` on empty input.
    pub fn from_bytes(data: &[u8]) -> (r: Result<Self, NetError>)
        ensures
            r is Err <==> parse_packet(data@) is None,
            r is Err ==> r == Err::<Self, NetError>(NetError::InvalidData),
            r matches Ok(p) ==> {
                &&& parse_packet(data@) == Some((p.magic, p.key_echo, p.payload@))
                &&& p.connection_id == 0
            },
    {
        if data.len() == 0 {
            return Err(NetError::InvalidData);
        }
        let magic = data[0];
        let key_echo = if data.len() >= 3 {
            read_le16(data, 1)
        } else {
            0
        };
        let payload = if data.len() > 3 {
            vstd::slice::slice_to_vec(vstd::slice::slice_subrange(data, 3, data.len()))
        } else {
            Vec::new()
        };
        Ok(Packet { magic, key_echo, connection_id: 0, payload })
    }

    /// The wire bytes of the packet.
    pub fn to_bytes(&self) -> (r: Vec<u8>)
        requires
            self.payload@.len() + 3 <= usize::MAX,
        ensures
            r@ == packet_wire(self.magic, self.key_echo, self.payload@),
    {
        let mut bytes: Vec<u8> = Vec::with_capacity(3 + self.payload.len());
        bytes.push(self.magic);
        push_le16(&mut bytes, self.key_echo);
        bytes.extend_from_slice(self.payload.as_slice());
        assert(bytes@ =~= packet_wire(self.magic, self.key_echo, self.payload@));
        bytes
    }

    /// Pads the payload with zero bytes until the packet is at least 8 bytes long.
    pub fn apply_padding(&mut self)
        requires
            old(self).payload@.len() + 3 <= usize::MAX,
        ensures
            final(self).magic == old(self).magic,
            final(self).key_echo == old(self).key_echo,
            final(self).connection_id == old(self).connection_id,
            final(self).payload@ == old(self).payload@ + Seq::new(
                if 3 + old(self).payload@.len() < 8 {
                    (8 - 3 - old(self).payload@.len()) as nat
                } else {
                    0
                },
                |i: int| 0u8,
            ),
    {
        self.apply_padding_to(MIN_PACKET_SIZE);
    }

    /// Pads the payload with zero bytes until the packet is at least `min_size` bytes long.
    pub fn apply_padding_to(&mut self, min_size: usize)
        requires
            old(self).payload@.len() + 3 <= usize::MAX,
        ensures
            final(self).magic == old(self).magic,
            final(self).key_echo == old(self).key_echo,
            final(self).connection_id == old(self).connection_id,
            final(self).payload@ == old(self).payload@ + Seq::new(
                if 3 + old(self).payload@.len() < min_size {
                    (min_size - 3 - old(self).payload@.len()) as nat
                } else {
                    0
                },
                |i: int| 0u8,
            ),
    {
        let total_size = 3 + self.payload.len();
        if total_size < min_size {
            let padding_needed = min_size - total_size;
            let new_len = self.payload.len() + padding_needed;
            self.payload.resize(new_len, 0);
            assert(self.payload@ =~= old(self).payload@ + Seq::new(
                padding_needed as nat,
                |i: int| 0u8,
            ));
        } else {
            assert(self.payload@ =~= old(self).payload@ + Seq::new(0, |i: int| 0u8));
        }
    }

    /// The total packet size: header plus payload.
    pub fn packet_size(&self) -> (r: usize)
        requires
            self.payload@.len() + 3 <= usize::MAX,
        ensures
            r == 3 + self.payload@.len(),
    {
        3 + self.payload.len()
    }

    /// Replaces the payload with the bytes of a bit stream.
    pub fn with_bitstream_payload(self, writer: &BitStreamWriter) -> (p: Self)
        requires
            writer.wf(),
        ensures
            p.magic == self.magic,
            p.key_echo == self.key_echo,
            p.connection_id == self.connection_id,
            is_packing(p.payload@, writer@),
    {
        let mut p = self;
        p.payload = vstd::slice::slice_to_vec(writer.as_bytes());
        p
    }

    /// A bit stream reader over the payload.
    pub fn payload_as_bitstream(&self) -> (r: BitStreamReader<'_>)
        requires
            self.payload@.len() * 8 <= usize::MAX,
        ensures
            r.wf(),
            r.bytes() == self.payload@,
            r.position() == 0,
    {
        BitStreamReader::new(self.payload.as_slice())
    }
}

/// Parsing the wire form of a packet gives back its magic byte, key echo and payload.
pub proof fn lemma_packet_roundtrip(magic: u8, key_echo: u16, payload: Seq<u8>)
    ensures
        parse_packet(packet_wire(magic, key_echo, payload)) == Some((magic, key_echo, payload)),
{
    let w = packet_wire(magic, key_echo, payload);
    lemma_le16_roundtrip(key_echo);
    assert(w[1] == le16(key_echo)[0]);
    assert(w[2] == le16(key_echo)[1]);
    if w.len() > 3 {
        assert(w.subrange(3, w.len() as int) =~= payload);
    } else {
        assert(payload =~= Seq::<u8>::empty());
    }
}

} // verus!
