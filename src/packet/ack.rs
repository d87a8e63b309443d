//! What the four-byte acknowledgements and the two-byte packets share.
use crate::decode::{be16_value, frame, lemma_frame_inverse, lemma_frame_round_trip, spec_frame, DecodingError};
use crate::encode::{be16, framed, varint};
use crate::packet::PacketType;
use vstd::prelude::*;

verus! {

/// The wire form of a packet whose body is a packet identifier.
pub open spec fn spec_ack_bytes(first: u8, id: u16) -> Seq<u8> {
    framed(first, be16(id))
}

/// Decodes a packet of type `t`, with the flags `flags` in the low nibble of
/// its first byte, whose body is a packet identifier.
pub open spec fn spec_parse_ack(s: Seq<u8>, t: PacketType, flags: u8) -> Result<u16, DecodingError> {
    match spec_frame(s) {
        Err(e) => Err(e),
        Ok((f, body)) => if f / 16 != t.spec_code() {
            Err(DecodingError::InvalidPacketType(f))
        } else if f % 16 != flags {
            Err(DecodingError::HeaderContainsInvalidFlags)
        } else if body.len() != 2 {
            Err(DecodingError::Other)
        } else {
            Ok(be16_value(body[0], body[1]))
        },
    }
}

/// The wire form of a packet with an empty body.
pub open spec fn spec_empty_bytes(first: u8) -> Seq<u8> {
    framed(first, Seq::empty())
}

/// Decodes a packet of type `t` with no flags and an empty body.
pub open spec fn spec_parse_empty(s: Seq<u8>, t: PacketType) -> Result<(), DecodingError> {
    match spec_frame(s) {
        Err(e) => Err(e),
        Ok((f, body)) => if f / 16 != t.spec_code() {
            Err(DecodingError::InvalidPacketType(f))
        } else if f % 16 != 0 {
            Err(DecodingError::HeaderContainsInvalidFlags)
        } else if body.len() != 0 {
            Err(DecodingError::Other)
        } else {
            Ok(())
        },
    }
}

/// Encodes a packet whose body is a packet identifier.
pub fn encode_ack(first: u8, id: u16) -> (r: Vec<u8>)
    ensures
        r@ == spec_ack_bytes(first, id),
        r@.len() == 4,
{
    let r = vec![first, 2u8, (id / 256) as u8, (id % 256) as u8];
    proof {
        reveal_with_fuel(varint, 1);
        assert(r@ =~= spec_ack_bytes(first, id));
    }
    r
}

/// Decodes a packet whose body is a packet identifier.
pub fn parse_ack(bytes: &[u8], t: PacketType, flags: u8) -> (r: Result<u16, DecodingError>)
    ensures
        r == spec_parse_ack(bytes@, t, flags),
{
    match frame(bytes) {
        Err(e) => Err(e),
        Ok((f, body)) => {
            if f / 16 != t.code() {
                Err(DecodingError::InvalidPacketType(f))
            } else if f % 16 != flags {
                Err(DecodingError::HeaderContainsInvalidFlags)
            } else if body.len() != 2 {
                Err(DecodingError::Other)
            } else {
                Ok(body[0] as u16 * 256 + body[1] as u16)
            }
        },
    }
}

/// Encodes a packet with an empty body.
pub fn encode_empty(first: u8) -> (r: Vec<u8>)
    ensures
        r@ == spec_empty_bytes(first),
        r@.len() == 2,
{
    let r = vec![first, 0u8];
    proof {
        reveal_with_fuel(varint, 1);
        assert(r@ =~= spec_empty_bytes(first));
    }
    r
}

/// Decodes a packet with an empty body.
pub fn parse_empty(bytes: &[u8], t: PacketType) -> (r: Result<(), DecodingError>)
    ensures
        r == spec_parse_empty(bytes@, t),
{
    match frame(bytes) {
        Err(e) => Err(e),
        Ok((f, body)) => {
            if f / 16 != t.code() {
                Err(DecodingError::InvalidPacketType(f))
            } else if f % 16 != 0 {
                Err(DecodingError::HeaderContainsInvalidFlags)
            } else if body.len() != 0 {
                Err(DecodingError::Other)
            } else {
                Ok(())
            }
        },
    }
}

/// An acknowledgement decodes to the identifier it was encoded from.
pub proof fn lemma_ack_round_trip(t: PacketType, flags: u8, id: u16)
    requires
        flags < 16,
    ensures
        spec_parse_ack(spec_ack_bytes((t.spec_code() * 16 + flags) as u8, id), t, flags)
            == Ok::<u16, DecodingError>(id),
{
    let first = (t.spec_code() * 16 + flags) as u8;
    lemma_frame_round_trip(first, be16(id));
}

/// A packet with an empty body decodes from its encoding.
pub proof fn lemma_empty_round_trip(t: PacketType)
    ensures
        spec_parse_empty(spec_empty_bytes((t.spec_code() * 16) as u8), t) == Ok::<(), DecodingError>(()),
{
    lemma_frame_round_trip((t.spec_code() * 16) as u8, Seq::empty());
}

/// An acknowledgement that decodes is the encoding of its identifier.
pub proof fn lemma_ack_inverse(s: Seq<u8>, t: PacketType, flags: u8)
    requires
        flags < 16,
    ensures
        spec_parse_ack(s, t, flags) matches Ok(id) ==> s == spec_ack_bytes((t.spec_code() * 16 + flags) as u8, id),
{
    lemma_frame_inverse(s);
    if let Ok(id) = spec_parse_ack(s, t, flags) {
        let (f, body) = spec_frame(s)->Ok_0;
        assert(f == (t.spec_code() * 16 + flags) as u8);
        assert(body =~= be16(id));
    }
}

/// A packet with an empty body that decodes is its own encoding.
pub proof fn lemma_empty_inverse(s: Seq<u8>, t: PacketType)
    ensures
        spec_parse_empty(s, t) is Ok ==> s == spec_empty_bytes((t.spec_code() * 16) as u8),
{
    lemma_frame_inverse(s);
    if let Ok(_) = spec_parse_empty(s, t) {
        let (f, body) = spec_frame(s)->Ok_0;
        assert(f == (t.spec_code() * 16) as u8);
        assert(body =~= Seq::<u8>::empty());
    }
}

} // verus!
