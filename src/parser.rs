//! A reassembler that collects the bytes of one packet and tells how many
//! more it needs.
use crate::decode::{remaining_length, spec_varint, DecodingError};
use crate::packet::{spec_parse_packet, Packet, PacketView};
use vstd::prelude::*;
use vstd::slice::slice_subrange;

verus! {

/// How many more bytes the packet that starts with `s` needs: 0 once it is
/// complete, or once its header cannot be read, so that decoding reports why.
pub open spec fn spec_min_bytes_required(s: Seq<u8>) -> nat {
    if s.len() < 2 {
        (2 - s.len()) as nat
    } else {
        match spec_varint(s.drop_first(), 0) {
            Ok((v, n)) => if 1 + n + v >= s.len() {
                (1 + n + v - s.len()) as nat
            } else {
                0
            },
            Err(DecodingError::NotEnoughBytes { .. }) => 1,
            Err(_) => 0,
        }
    }
}

/// How many more bytes the packet that starts with `payload` needs.
pub fn min_bytes_required(payload: &[u8]) -> (r: u32)
    ensures
        r as nat == spec_min_bytes_required(payload@),
{
    if payload.len() < 2 {
        return 2 - payload.len() as u32;
    }
    let rest = slice_subrange(payload, 1, payload.len());
    proof {
        assert(rest@ =~= payload@.drop_first());
    }
    match remaining_length(rest) {
        Ok((v, n)) => {
            let total: u64 = 1 + n as u64 + v as u64;
            if total >= payload.len() as u64 {
                (total - payload.len() as u64) as u32
            } else {
                0
            }
        },
        Err(DecodingError::NotEnoughBytes { .. }) => 1,
        Err(_) => 0,
    }
}

/// Collects the bytes of one packet.
pub struct Parser {
    inner: Vec<u8>,
}

impl View for Parser {
    type V = Seq<u8>;

    closed spec fn view(&self) -> Seq<u8> {
        self.inner@
    }
}

impl Parser {
    /// A parser that holds no byte.
    pub fn new() -> (r: Self)
        ensures
            r@ == Seq::<u8>::empty(),
    {
        Parser { inner: Vec::new() }
    }

    /// Adds bytes that arrived.
    pub fn push(&mut self, data: &[u8])
        ensures
            final(self)@ == old(self)@ + data@,
    {
        crate::encode::put_slice(&mut self.inner, data);
    }

    /// How many more bytes the packet needs; 0 when it can be decoded.
    pub fn bytes_required(&self) -> (r: u32)
        ensures
            r as nat == spec_min_bytes_required(self@),
    {
        min_bytes_required(self.inner.as_slice())
    }

    /// Decodes the packet; on success the parser starts afresh, and on
    /// failure it keeps its bytes.
    pub fn parse(&mut self) -> (r: Result<Packet, DecodingError>)
        ensures
            match r {
                Ok(p) => spec_parse_packet(old(self)@) == Ok::<PacketView, DecodingError>(p@)
                    && final(self)@ == Seq::<u8>::empty(),
                Err(e) => spec_parse_packet(old(self)@) == Err::<PacketView, DecodingError>(e)
                    && final(self)@ == old(self)@,
            },
    {
        match Packet::try_from(self.inner.as_slice()) {
            Ok(p) => {
                self.inner = Vec::new();
                Ok(p)
            },
            Err(e) => Err(e),
        }
    }
}

} // verus!
