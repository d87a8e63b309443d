//! The SubAck packet, with which the server answers a Subscribe.
use crate::decode::{frame, lemma_frame_inverse, lemma_frame_round_trip, lemma_u16_inverse, lemma_u16_round_trip, spec_frame, spec_u16, DecodingError, Reason};
use crate::encode::{be16, frame_bytes, framed, put_u16, MAX_REMAINING_LENGTH};
use crate::packet::{Packet, PacketType, QoS};
use vstd::prelude::*;

verus! {

/// The first byte of every SubAck.
pub const FIRST_BYTE: u8 = 144;

/// The answer of the server to one entry of a Subscribe.
#[derive(Debug, Clone, Copy, PartialEq, Eq, Structural)]
pub enum ReturnCode {
    /// The subscription holds, with this maximum QoS.
    QoS(QoS),
    /// The subscription was refused.
    Failure,
}

/// A byte that is not a SubAck return code.
#[derive(Debug, Clone, Copy, PartialEq, Eq, Structural)]
pub struct InvalidReturnCode(pub u8);

impl ReturnCode {
    /// The byte that stands for the return code.
    pub open spec fn spec_code(self) -> u8 {
        match self {
            ReturnCode::QoS(q) => q.spec_code(),
            ReturnCode::Failure => 128,
        }
    }

    /// The return code that a byte stands for, if any.
    pub open spec fn spec_from_code(b: u8) -> Option<ReturnCode> {
        if b == 128 {
            Some(ReturnCode::Failure)
        } else {
            match QoS::spec_from_code(b) {
                Some(q) => Some(ReturnCode::QoS(q)),
                None => None,
            }
        }
    }

    /// The byte that stands for the return code.
    pub fn code(self) -> (r: u8)
        ensures
            r == self.spec_code(),
    {
        match self {
            ReturnCode::QoS(q) => q.code(),
            ReturnCode::Failure => 128,
        }
    }

    /// The return code that a byte stands for.
    pub fn try_from_byte(b: u8) -> (r: Result<ReturnCode, InvalidReturnCode>)
        ensures
            match r {
                Ok(c) => Self::spec_from_code(b) == Some(c),
                Err(e) => Self::spec_from_code(b) is None && e.0 == b,
            },
    {
        if b == 128 {
            return Ok(ReturnCode::Failure);
        }
        match QoS::try_from_byte(b) {
            Ok(q) => Ok(ReturnCode::QoS(q)),
            Err(_) => Err(InvalidReturnCode(b)),
        }
    }
}

impl From<QoS> for ReturnCode {
    fn from(q: QoS) -> (r: ReturnCode) {
        ReturnCode::QoS(q)
    }
}

impl vstd::std_specs::convert::FromSpecImpl<QoS> for ReturnCode {
    open spec fn obeys_from_spec() -> bool {
        true
    }

    open spec fn from_spec(q: QoS) -> ReturnCode {
        ReturnCode::QoS(q)
    }
}

/// What a SubAck says: its identifier and one return code per entry of the
/// Subscribe it answers.
pub struct SubAckView {
    pub packet_identifier: u16,
    pub return_codes: Seq<ReturnCode>,
}

/// The bytes of a list of return codes.
pub open spec fn spec_codes(cs: Seq<ReturnCode>) -> Seq<u8> {
    cs.map_values(|c: ReturnCode| c.spec_code())
}

/// The body of a SubAck.
pub open spec fn spec_suback_body(v: SubAckView) -> Seq<u8> {
    be16(v.packet_identifier) + spec_codes(v.return_codes)
}

/// The wire form of a SubAck.
pub open spec fn spec_suback_bytes(v: SubAckView) -> Seq<u8> {
    framed(FIRST_BYTE, spec_suback_body(v))
}

/// The rules that every SubAck keeps.
pub open spec fn suback_wf(v: SubAckView) -> bool {
    &&& v.return_codes.len() >= 1
    &&& spec_suback_body(v).len() <= MAX_REMAINING_LENGTH
}

/// Every byte of `s` is a return code.
pub open spec fn all_codes(s: Seq<u8>) -> bool {
    forall|i: int| 0 <= i < s.len() ==> (#[trigger] ReturnCode::spec_from_code(s[i])) is Some
}

/// Decodes a SubAck.
pub open spec fn spec_parse_suback(s: Seq<u8>) -> Result<SubAckView, DecodingError> {
    match spec_frame(s) {
        Err(e) => Err(e),
        Ok((f, body)) => if f / 16 != 9 {
            Err(DecodingError::InvalidPacketType(f))
        } else if f % 16 != 0 {
            Err(DecodingError::HeaderContainsInvalidFlags)
        } else {
            match spec_u16(body) {
                Err(e) => Err(e),
                Ok(id) => {
                    let cs = body.subrange(2, body.len() as int);
                    if cs.len() == 0 {
                        Err(DecodingError::InvalidValue(Reason::EmptyPayload))
                    } else if !all_codes(cs) {
                        Err(DecodingError::InvalidValue(Reason::ReturnCode))
                    } else {
                        Ok(SubAckView {
                            packet_identifier: id,
                            return_codes: cs.map_values(|b: u8| ReturnCode::spec_from_code(b)->0),
                        })
                    }
                },
            }
        },
    }
}

/// Every well-formed SubAck decodes from its wire form to what it says.
pub proof fn lemma_round_trip(v: SubAckView)
    requires
        suback_wf(v),
    ensures
        spec_parse_suback(spec_suback_bytes(v)) == Ok::<SubAckView, DecodingError>(v),
{
    let body = spec_suback_body(v);
    let cs = spec_codes(v.return_codes);
    lemma_frame_round_trip(FIRST_BYTE, body);
    lemma_u16_round_trip(v.packet_identifier, cs);
    assert(body.subrange(2, body.len() as int) =~= cs);
    assert forall|i: int| 0 <= i < cs.len() implies (#[trigger] ReturnCode::spec_from_code(cs[i])) == Some(v.return_codes[i]) by {
        match v.return_codes[i] {
            ReturnCode::QoS(q) => {},
            ReturnCode::Failure => {},
        }
    }
    assert(cs.map_values(|b: u8| ReturnCode::spec_from_code(b)->0) =~= v.return_codes);
}

/// A SubAck that decodes is the encoding of what it says: decoding keeps the
/// received bytes.
pub proof fn lemma_decode_encode(s: Seq<u8>)
    ensures
        spec_parse_suback(s) matches Ok(v) ==> spec_suback_bytes(v) == s,
{
    lemma_frame_inverse(s);
    if let Ok(v) = spec_parse_suback(s) {
        let (f, body) = spec_frame(s)->Ok_0;
        let cs = body.subrange(2, body.len() as int);
        lemma_u16_inverse(body);
        assert forall|i: int| 0 <= i < cs.len() implies #[trigger] spec_codes(v.return_codes)[i] == cs[i] by {
            assert(ReturnCode::spec_from_code(cs[i]) is Some);
        }
        assert(spec_codes(v.return_codes) =~= cs);
        assert(body =~= body.subrange(0, 2) + cs);
    }
}

/// The server's answer to a Subscribe.
#[derive(Debug, PartialEq, Eq)]
pub struct SubAck {
    packet_identifier: u16,
    return_codes: Vec<ReturnCode>,
}

impl View for SubAck {
    type V = SubAckView;

    closed spec fn view(&self) -> SubAckView {
        SubAckView { packet_identifier: self.packet_identifier, return_codes: self.return_codes@ }
    }
}

/// Copies a list of return codes.
fn copy_codes(cs: &Vec<ReturnCode>) -> (r: Vec<ReturnCode>)
    ensures
        r@ == cs@,
{
    let mut r: Vec<ReturnCode> = Vec::new();
    let mut i: usize = 0;
    while i < cs.len()
        invariant
            i <= cs@.len(),
            r@ == cs@.subrange(0, i as int),
        decreases cs@.len() - i,
    {
        r.push(cs[i]);
        i = i + 1;
        proof {
            assert(r@ =~= cs@.subrange(0, i as int));
        }
    }
    proof {
        assert(cs@.subrange(0, cs@.len() as int) =~= cs@);
    }
    r
}

/// Appends the bytes of a list of return codes.
fn encode_codes(buf: &mut Vec<u8>, cs: &Vec<ReturnCode>)
    ensures
        final(buf)@ == old(buf)@ + spec_codes(cs@),
{
    let mut i: usize = 0;
    while i < cs.len()
        invariant
            i <= cs@.len(),
            buf@ == old(buf)@ + spec_codes(cs@.subrange(0, i as int)),
        decreases cs@.len() - i,
    {
        buf.push(cs[i].code());
        i = i + 1;
        proof {
            assert(buf@ =~= old(buf)@ + spec_codes(cs@.subrange(0, i as int)));
        }
    }
    proof {
        assert(cs@.subrange(0, cs@.len() as int) =~= cs@);
    }
}

impl Clone for SubAck {
    fn clone(&self) -> (r: Self)
        ensures
            r@ == self@,
    {
        proof {
            use_type_invariant(self);
        }
        SubAck { packet_identifier: self.packet_identifier, return_codes: copy_codes(&self.return_codes) }
    }
}

impl SubAck {
    #[verifier::type_invariant]
    closed spec fn inv(&self) -> bool {
        suback_wf(self@)
    }

    /// A builder for a SubAck with `packet_identifier` and one return code.
    pub fn builder(packet_identifier: u16, return_code: ReturnCode) -> (r: Builder)
        ensures
            r@ == (SubAckView { packet_identifier, return_codes: seq![return_code] }),
    {
        Builder::new(packet_identifier, return_code)
    }

    /// The packet identifier of the Subscribe that this answers.
    pub fn packet_identifier(&self) -> (r: u16)
        ensures
            r == self@.packet_identifier,
    {
        self.packet_identifier
    }

    /// The return codes, one per entry of the Subscribe.
    pub fn return_codes(&self) -> (r: Vec<ReturnCode>)
        ensures
            r@ == self@.return_codes,
    {
        copy_codes(&self.return_codes)
    }

    /// The type of the packet.
    pub fn packet_type(&self) -> (r: PacketType)
        ensures
            r == PacketType::SubAck,
    {
        PacketType::SubAck
    }

    /// The variable header: the packet identifier.
    pub fn variable_header(&self) -> (r: Vec<u8>)
        ensures
            r@ == be16(self@.packet_identifier),
    {
        let mut r: Vec<u8> = Vec::new();
        put_u16(&mut r, self.packet_identifier);
        r
    }

    /// The payload: the return codes.
    pub fn payload(&self) -> (r: Vec<u8>)
        ensures
            r@ == spec_codes(self@.return_codes),
    {
        let mut r: Vec<u8> = Vec::new();
        encode_codes(&mut r, &self.return_codes);
        proof {
            assert(r@ =~= spec_codes(self@.return_codes));
        }
        r
    }

    /// The wire form of the packet.
    pub fn as_bytes(&self) -> (r: Vec<u8>)
        ensures
            r@ == spec_suback_bytes(self@),
    {
        proof {
            use_type_invariant(self);
        }
        let mut body = self.variable_header();
        encode_codes(&mut body, &self.return_codes);
        frame_bytes(FIRST_BYTE, body.as_slice())
    }

    /// The wire form of the packet.
    pub fn into_bytes(self) -> (r: Vec<u8>)
        ensures
            r@ == spec_suback_bytes(self@),
    {
        self.as_bytes()
    }

    /// The number of bytes of the wire form.
    pub fn length(&self) -> (r: usize)
        ensures
            r == spec_suback_bytes(self@).len(),
    {
        let b = self.as_bytes();
        b.len()
    }

    /// Decodes a SubAck.
    pub fn try_from(bytes: &[u8]) -> (r: Result<SubAck, DecodingError>)
        ensures
            match r {
                Ok(p) => spec_parse_suback(bytes@) == Ok::<SubAckView, DecodingError>(p@)
                    && spec_suback_bytes(p@) == bytes@,
                Err(e) => spec_parse_suback(bytes@) == Err::<SubAckView, DecodingError>(e),
            },
    {
        proof {
            lemma_decode_encode(bytes@);
        }
        let (f, body) = match frame(bytes) {
            Err(e) => return Err(e),
            Ok(x) => x,
        };
        if f / 16 != 9 {
            return Err(DecodingError::InvalidPacketType(f));
        }
        if f % 16 != 0 {
            return Err(DecodingError::HeaderContainsInvalidFlags);
        }
        let id = match crate::decode::u16(body) {
            Err(e) => return Err(e),
            Ok(id) => id,
        };
        if body.len() == 2 {
            return Err(DecodingError::InvalidValue(Reason::EmptyPayload));
        }
        let ghost cs = body@.subrange(2, body@.len() as int);
        let mut codes: Vec<ReturnCode> = Vec::new();
        let mut i: usize = 2;
        while i < body.len()
            invariant
                2 <= i <= body@.len(),
                body@.len() > 2,
                cs == body@.subrange(2, body@.len() as int),
                spec_frame(bytes@) == Ok::<(u8, Seq<u8>), DecodingError>((f, body@)),
                body@.len() <= MAX_REMAINING_LENGTH,
                f / 16 == 9,
                f % 16 == 0,
                spec_u16(body@) == Ok::<u16, DecodingError>(id),
                codes@.len() == i - 2,
                forall|j: int| 0 <= j < i - 2 ==> (#[trigger] ReturnCode::spec_from_code(cs[j])) == Some(codes@[j]),
            decreases body@.len() - i,
        {
            match ReturnCode::try_from_byte(body[i]) {
                Ok(c) => codes.push(c),
                Err(_) => {
                    proof {
                        assert(cs[i - 2] == body@[i as int]);
                        assert(ReturnCode::spec_from_code(cs[i - 2]) is None);
                        assert(!all_codes(cs));
                    }
                    return Err(DecodingError::InvalidValue(Reason::ReturnCode));
                },
            }
            i = i + 1;
        }
        proof {
            assert(codes@ =~= cs.map_values(|b: u8| ReturnCode::spec_from_code(b)->0));
            assert(spec_codes(codes@).len() == cs.len());
        }
        Ok(SubAck { packet_identifier: id, return_codes: codes })
    }
}

/// Builds a SubAck.
#[derive(Debug)]
pub struct Builder {
    packet_identifier: u16,
    return_codes: Vec<ReturnCode>,
}

impl View for Builder {
    type V = SubAckView;

    closed spec fn view(&self) -> SubAckView {
        SubAckView { packet_identifier: self.packet_identifier, return_codes: self.return_codes@ }
    }
}

impl Builder {
    #[verifier::type_invariant]
    closed spec fn inv(&self) -> bool {
        suback_wf(self@)
    }

    /// A builder for a SubAck with `packet_identifier` and one return code.
    pub fn new(packet_identifier: u16, return_code: ReturnCode) -> (r: Self)
        ensures
            r@ == (SubAckView { packet_identifier, return_codes: seq![return_code] }),
    {
        let cs = vec![return_code];
        proof {
            assert(cs@ =~= seq![return_code]);
        }
        Builder { packet_identifier, return_codes: cs }
    }

    /// Adds a return code.
    pub fn add_return_code(self, return_code: ReturnCode) -> (r: Self)
        requires
            spec_suback_body(self@).len() < MAX_REMAINING_LENGTH,
        ensures
            r@ == (SubAckView { return_codes: self@.return_codes.push(return_code), ..self@ }),
    {
        proof {
            use_type_invariant(&self);
        }
        let mut cs = self.return_codes;
        cs.push(return_code);
        Builder { packet_identifier: self.packet_identifier, return_codes: cs }
    }

    /// The SubAck.
    pub fn build(self) -> (r: SubAck)
        ensures
            r@ == self@,
    {
        proof {
            use_type_invariant(&self);
        }
        SubAck { packet_identifier: self.packet_identifier, return_codes: self.return_codes }
    }

    /// The SubAck, as a packet.
    pub fn build_packet(self) -> (r: Packet)
        ensures
            r matches Packet::SubAck(p) && p@ == self@,
    {
        Packet::SubAck(self.build())
    }
}

} // verus!
