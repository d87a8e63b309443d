//! The UnsubAck packet, which acknowledges an Unsubscribe.
use crate::decode::DecodingError;
use crate::encode::be16;
use crate::packet::ack::{encode_ack, lemma_ack_inverse, lemma_ack_round_trip, parse_ack, spec_ack_bytes, spec_parse_ack};
use crate::packet::PacketType;
use vstd::prelude::*;

verus! {

/// The first byte of every UnsubAck.
pub const FIRST_BYTE: u8 = 176;

/// A UnsubAck: four bytes that carry a packet identifier.
#[derive(Debug, Clone, Copy, PartialEq, Eq, Structural)]
pub struct UnsubAck {
    packet_identifier: u16,
}

impl UnsubAck {
    /// The packet identifier that the packet carries.
    pub closed spec fn spec_packet_identifier(self) -> u16 {
        self.packet_identifier
    }

    /// The wire form of the packet.
    pub open spec fn spec_encode(self) -> Seq<u8> {
        spec_ack_bytes(FIRST_BYTE, self.spec_packet_identifier())
    }

    /// Decodes a UnsubAck from its wire form: the identifier it carries.
    pub open spec fn spec_parse(s: Seq<u8>) -> Result<u16, DecodingError> {
        spec_parse_ack(s, PacketType::UnsubAck, 0)
    }

    /// A UnsubAck that carries `packet_identifier`.
    pub fn new(packet_identifier: u16) -> (r: Self)
        ensures
            r.spec_packet_identifier() == packet_identifier,
    {
        UnsubAck { packet_identifier }
    }

    /// The packet identifier that the packet carries.
    pub fn packet_identifier(&self) -> (r: u16)
        ensures
            r == self.spec_packet_identifier(),
    {
        self.packet_identifier
    }

    /// The type of the packet.
    pub fn packet_type(&self) -> (r: PacketType)
        ensures
            r == PacketType::UnsubAck,
    {
        PacketType::UnsubAck
    }

    /// The wire form of the packet.
    pub fn into_bytes(self) -> (r: Vec<u8>)
        ensures
            r@ == self.spec_encode(),
    {
        encode_ack(FIRST_BYTE, self.packet_identifier)
    }

    /// The wire form of the packet.
    pub fn as_bytes(&self) -> (r: Vec<u8>)
        ensures
            r@ == self.spec_encode(),
    {
        encode_ack(FIRST_BYTE, self.packet_identifier)
    }

    /// The number of bytes of the wire form.
    pub fn length(&self) -> (r: usize)
        ensures
            r == self.spec_encode().len(),
            r == 4,
    {
        let b = encode_ack(FIRST_BYTE, self.packet_identifier);
        b.len()
    }

    /// The variable header: the packet identifier in big-endian order.
    pub fn variable_header(&self) -> (r: Vec<u8>)
        ensures
            r@ == be16(self.spec_packet_identifier()),
    {
        let mut r: Vec<u8> = Vec::new();
        crate::encode::put_u16(&mut r, self.packet_identifier);
        r
    }

    /// Decodes a UnsubAck.
    pub fn try_from(bytes: &[u8]) -> (r: Result<Self, DecodingError>)
        ensures
            match r {
                Ok(p) => Self::spec_parse(bytes@) == Ok::<u16, DecodingError>(p.spec_packet_identifier())
                    && p.spec_encode() == bytes@,
                Err(e) => Self::spec_parse(bytes@) == Err::<u16, DecodingError>(e),
            },
    {
        proof {
            lemma_decode_encode(bytes@);
        }
        match parse_ack(bytes, PacketType::UnsubAck, 0) {
            Ok(id) => Ok(UnsubAck { packet_identifier: id }),
            Err(e) => Err(e),
        }
    }
}

/// Every UnsubAck decodes from its wire form to the identifier it carries.
pub proof fn lemma_round_trip(id: u16)
    ensures
        UnsubAck::spec_parse(spec_ack_bytes(FIRST_BYTE, id)) == Ok::<u16, DecodingError>(id),
{
    lemma_ack_round_trip(PacketType::UnsubAck, 0, id);
}

/// A UnsubAck that decodes is the encoding of its identifier: decoding keeps
/// the received bytes.
pub proof fn lemma_decode_encode(s: Seq<u8>)
    ensures
        UnsubAck::spec_parse(s) matches Ok(id) ==> spec_ack_bytes(FIRST_BYTE, id) == s,
{
    lemma_ack_inverse(s, PacketType::UnsubAck, 0);
}

} // verus!
