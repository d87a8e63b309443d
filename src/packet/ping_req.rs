//! The PingReq packet, which asks the server to show that the connection is alive.
use crate::decode::DecodingError;
use crate::packet::ack::{encode_empty, lemma_empty_inverse, lemma_empty_round_trip, parse_empty, spec_empty_bytes, spec_parse_empty};
use crate::packet::PacketType;
use vstd::prelude::*;

verus! {

/// The first byte of every PingReq.
pub const FIRST_BYTE: u8 = 192;

/// A PingReq: two bytes, with neither variable header nor payload.
#[derive(Debug, Clone, Copy, PartialEq, Eq, Structural)]
pub struct PingReq;

impl PingReq {
    /// The wire form of the packet.
    pub open spec fn spec_encode(self) -> Seq<u8> {
        spec_empty_bytes(FIRST_BYTE)
    }

    /// Decodes a PingReq from its wire form.
    pub open spec fn spec_parse(s: Seq<u8>) -> Result<(), DecodingError> {
        spec_parse_empty(s, PacketType::PingReq)
    }

    /// The packet.
    pub fn new() -> (r: Self) {
        PingReq
    }

    /// The type of the packet.
    pub fn packet_type(&self) -> (r: PacketType)
        ensures
            r == PacketType::PingReq,
    {
        PacketType::PingReq
    }

    /// The wire form of the packet.
    pub fn into_bytes(self) -> (r: Vec<u8>)
        ensures
            r@ == self.spec_encode(),
    {
        encode_empty(FIRST_BYTE)
    }

    /// The wire form of the packet.
    pub fn as_bytes(&self) -> (r: Vec<u8>)
        ensures
            r@ == self.spec_encode(),
    {
        encode_empty(FIRST_BYTE)
    }

    /// The number of bytes of the wire form.
    pub fn length(&self) -> (r: usize)
        ensures
            r == self.spec_encode().len(),
            r == 2,
    {
        let b = encode_empty(FIRST_BYTE);
        b.len()
    }

    /// The variable header, which is empty.
    pub fn variable_header(&self) -> (r: Vec<u8>)
        ensures
            r@.len() == 0,
    {
        Vec::new()
    }

    /// Decodes a PingReq.
    pub fn try_from(bytes: &[u8]) -> (r: Result<Self, DecodingError>)
        ensures
            match r {
                Ok(p) => Self::spec_parse(bytes@) == Ok::<(), DecodingError>(()) && p.spec_encode() == bytes@,
                Err(e) => Self::spec_parse(bytes@) == Err::<(), DecodingError>(e),
            },
    {
        proof {
            lemma_decode_encode(bytes@);
        }
        match parse_empty(bytes, PacketType::PingReq) {
            Ok(()) => Ok(PingReq),
            Err(e) => Err(e),
        }
    }
}

/// A PingReq decodes from its wire form.
pub proof fn lemma_round_trip(p: PingReq)
    ensures
        PingReq::spec_parse(p.spec_encode()) == Ok::<(), DecodingError>(()),
{
    lemma_empty_round_trip(PacketType::PingReq);
}

/// A PingReq that decodes is its own encoding: decoding keeps the received
/// bytes.
pub proof fn lemma_decode_encode(s: Seq<u8>)
    ensures
        PingReq::spec_parse(s) is Ok ==> spec_empty_bytes(FIRST_BYTE) == s,
{
    lemma_empty_inverse(s, PacketType::PingReq);
}

} // verus!
