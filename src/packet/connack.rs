//! The ConnAck packet, with which the server answers a Connect.
use crate::decode::{frame, lemma_frame_inverse, lemma_frame_round_trip, spec_frame, DecodingError, Reason};
use crate::encode::{framed, varint};
use crate::packet::{Packet, PacketType};
use vstd::prelude::*;

verus! {

/// The first byte of every ConnAck.
pub const FIRST_BYTE: u8 = 32;

/// The answer of the server to a Connect.
#[derive(Debug, Clone, Copy, PartialEq, Eq, Structural)]
pub enum ReturnCode {
    ConnectionAccepted,
    ConnectionRefusedUnacceptableProtocolVersion,
    ConnectionRefusedIdentifierRejected,
    ConnectionRefusedServerUnavailable,
    ConnectionRefusedBadUsernameOrPassword,
    ConnectionRefusedNotAuthorized,
}

impl ReturnCode {
    /// The byte that stands for the return code.
    pub open spec fn spec_code(self) -> u8 {
        match self {
            ReturnCode::ConnectionAccepted => 0,
            ReturnCode::ConnectionRefusedUnacceptableProtocolVersion => 1,
            ReturnCode::ConnectionRefusedIdentifierRejected => 2,
            ReturnCode::ConnectionRefusedServerUnavailable => 3,
            ReturnCode::ConnectionRefusedBadUsernameOrPassword => 4,
            ReturnCode::ConnectionRefusedNotAuthorized => 5,
        }
    }

    /// The return code that a byte stands for, if any.
    pub open spec fn spec_from_code(n: u8) -> Option<ReturnCode> {
        if n == 0 {
            Some(ReturnCode::ConnectionAccepted)
        } else if n == 1 {
            Some(ReturnCode::ConnectionRefusedUnacceptableProtocolVersion)
        } else if n == 2 {
            Some(ReturnCode::ConnectionRefusedIdentifierRejected)
        } else if n == 3 {
            Some(ReturnCode::ConnectionRefusedServerUnavailable)
        } else if n == 4 {
            Some(ReturnCode::ConnectionRefusedBadUsernameOrPassword)
        } else if n == 5 {
            Some(ReturnCode::ConnectionRefusedNotAuthorized)
        } else {
            None
        }
    }

    /// The byte that stands for the return code.
    pub fn code(self) -> (r: u8)
        ensures
            r == self.spec_code(),
    {
        match self {
            ReturnCode::ConnectionAccepted => 0,
            ReturnCode::ConnectionRefusedUnacceptableProtocolVersion => 1,
            ReturnCode::ConnectionRefusedIdentifierRejected => 2,
            ReturnCode::ConnectionRefusedServerUnavailable => 3,
            ReturnCode::ConnectionRefusedBadUsernameOrPassword => 4,
            ReturnCode::ConnectionRefusedNotAuthorized => 5,
        }
    }

    /// The return code that a byte stands for.
    pub fn try_from_byte(value: u8) -> (r: Result<ReturnCode, DecodingError>)
        ensures
            match r {
                Ok(c) => Self::spec_from_code(value) == Some(c),
                Err(e) => Self::spec_from_code(value) is None
                    && e == DecodingError::InvalidValue(Reason::ReturnCode),
            },
    {
        match value {
            0 => Ok(ReturnCode::ConnectionAccepted),
            1 => Ok(ReturnCode::ConnectionRefusedUnacceptableProtocolVersion),
            2 => Ok(ReturnCode::ConnectionRefusedIdentifierRejected),
            3 => Ok(ReturnCode::ConnectionRefusedServerUnavailable),
            4 => Ok(ReturnCode::ConnectionRefusedBadUsernameOrPassword),
            5 => Ok(ReturnCode::ConnectionRefusedNotAuthorized),
            _ => Err(DecodingError::InvalidValue(Reason::ReturnCode)),
        }
    }
}

/// What a ConnAck says: whether a session is present, and the return code.
pub struct ConnAckView {
    pub session_present: bool,
    pub return_code: ReturnCode,
}

/// The wire form of a ConnAck.
pub open spec fn spec_connack_bytes(v: ConnAckView) -> Seq<u8> {
    framed(FIRST_BYTE, seq![if v.session_present { 1u8 } else { 0u8 }, v.return_code.spec_code()])
}

/// Decodes a ConnAck.
pub open spec fn spec_parse_connack(s: Seq<u8>) -> Result<ConnAckView, DecodingError> {
    match spec_frame(s) {
        Err(e) => Err(e),
        Ok((f, body)) => if f / 16 != PacketType::ConnAck.spec_code() {
            Err(DecodingError::InvalidPacketType(f))
        } else if f % 16 != 0 {
            Err(DecodingError::HeaderContainsInvalidFlags)
        } else if body.len() != 2 || body[0] > 1 {
            Err(DecodingError::Other)
        } else {
            match ReturnCode::spec_from_code(body[1]) {
                None => Err(DecodingError::InvalidValue(Reason::ReturnCode)),
                Some(c) => if c != ReturnCode::ConnectionAccepted && body[0] != 0 {
                    Err(DecodingError::InvalidValue(Reason::SessionPresent))
                } else {
                    Ok(ConnAckView { session_present: body[0] == 1, return_code: c })
                },
            }
        },
    }
}

/// The server's answer to a Connect.
#[derive(Debug, Clone, Copy, PartialEq, Eq, Structural)]
pub struct ConnAck {
    session_present: bool,
    return_code: ReturnCode,
}

impl View for ConnAck {
    type V = ConnAckView;

    closed spec fn view(&self) -> ConnAckView {
        ConnAckView { session_present: self.session_present, return_code: self.return_code }
    }
}

/// A refused connection has no session.
pub open spec fn connack_wf(v: ConnAckView) -> bool {
    v.return_code != ReturnCode::ConnectionAccepted ==> !v.session_present
}

impl ConnAck {
    /// A builder whose defaults are an accepted connection without session.
    pub fn builder() -> (r: ConnAckBuilder)
        ensures
            !r.spec_session_present(),
            r.spec_return_code() == ReturnCode::ConnectionAccepted,
    {
        ConnAckBuilder::new()
    }

    /// Whether the server holds a session for the client.
    pub fn session_present(&self) -> (r: bool)
        ensures
            r == self@.session_present,
    {
        self.session_present
    }

    /// The answer of the server.
    pub fn return_code(&self) -> (r: ReturnCode)
        ensures
            r == self@.return_code,
    {
        self.return_code
    }

    /// The type of the packet.
    pub fn packet_type(&self) -> (r: PacketType)
        ensures
            r == PacketType::ConnAck,
    {
        PacketType::ConnAck
    }

    /// The wire form of the packet.
    pub fn into_bytes(self) -> (r: Vec<u8>)
        ensures
            r@ == spec_connack_bytes(self@),
    {
        self.as_bytes()
    }

    /// The wire form of the packet.
    pub fn as_bytes(&self) -> (r: Vec<u8>)
        ensures
            r@ == spec_connack_bytes(self@),
            r@.len() == 4,
    {
        let sp: u8 = if self.session_present { 1 } else { 0 };
        let r = vec![FIRST_BYTE, 2u8, sp, self.return_code.code()];
        proof {
            reveal_with_fuel(varint, 1);
            assert(r@ =~= spec_connack_bytes(self@));
        }
        r
    }

    /// The variable header: the session-present byte and the return code.
    pub fn variable_header(&self) -> (r: Vec<u8>)
        ensures
            r@ == seq![if self@.session_present { 1u8 } else { 0u8 }, self@.return_code.spec_code()],
    {
        let sp: u8 = if self.session_present { 1 } else { 0 };
        let r = vec![sp, self.return_code.code()];
        proof {
            assert(r@ =~= seq![if self@.session_present { 1u8 } else { 0u8 }, self@.return_code.spec_code()]);
        }
        r
    }

    /// The number of bytes of the wire form.
    pub fn length(&self) -> (r: usize)
        ensures
            r == spec_connack_bytes(self@).len(),
    {
        let b = self.as_bytes();
        b.len()
    }

    /// Decodes a ConnAck.
    pub fn try_from(bytes: &[u8]) -> (r: Result<Self, DecodingError>)
        ensures
            match r {
                Ok(p) => spec_parse_connack(bytes@) == Ok::<ConnAckView, DecodingError>(p@) && connack_wf(p@)
                    && spec_connack_bytes(p@) == bytes@,
                Err(e) => spec_parse_connack(bytes@) == Err::<ConnAckView, DecodingError>(e),
            },
    {
        proof {
            lemma_decode_encode(bytes@);
        }
        match frame(bytes) {
            Err(e) => Err(e),
            Ok((f, body)) => {
                if f / 16 != 2 {
                    Err(DecodingError::InvalidPacketType(f))
                } else if f % 16 != 0 {
                    Err(DecodingError::HeaderContainsInvalidFlags)
                } else if body.len() != 2 || body[0] > 1 {
                    Err(DecodingError::Other)
                } else {
                    match ReturnCode::try_from_byte(body[1]) {
                        Err(e) => Err(e),
                        Ok(c) => {
                            if c != ReturnCode::ConnectionAccepted && body[0] != 0 {
                                Err(DecodingError::InvalidValue(Reason::SessionPresent))
                            } else {
                                Ok(ConnAck { session_present: body[0] == 1, return_code: c })
                            }
                        },
                    }
                }
            },
        }
    }
}

/// Every well-formed ConnAck decodes from its wire form to what it says.
pub proof fn lemma_round_trip(v: ConnAckView)
    requires
        connack_wf(v),
    ensures
        spec_parse_connack(spec_connack_bytes(v)) == Ok::<ConnAckView, DecodingError>(v),
{
    let body = seq![if v.session_present { 1u8 } else { 0u8 }, v.return_code.spec_code()];
    lemma_frame_round_trip(FIRST_BYTE, body);
}

/// A ConnAck that decodes is the encoding of what it says: decoding keeps
/// the received bytes.
pub proof fn lemma_decode_encode(s: Seq<u8>)
    ensures
        spec_parse_connack(s) matches Ok(v) ==> spec_connack_bytes(v) == s && connack_wf(v),
{
    lemma_frame_inverse(s);
    if let Ok(v) = spec_parse_connack(s) {
        let (f, body) = spec_frame(s)->Ok_0;
        assert(v.return_code.spec_code() == body[1]);
        assert(body =~= seq![if v.session_present { 1u8 } else { 0u8 }, v.return_code.spec_code()]);
    }
}

/// Builds a ConnAck.
pub struct ConnAckBuilder {
    return_code: ReturnCode,
    session_present: bool,
}

impl ConnAckBuilder {
    /// Whether the ConnAck to build tells that a session is present.
    pub closed spec fn spec_session_present(&self) -> bool {
        self.session_present
    }

    /// The return code of the ConnAck to build.
    pub closed spec fn spec_return_code(&self) -> ReturnCode {
        self.return_code
    }

    /// A builder for an accepted connection without session.
    pub fn new() -> (r: Self)
        ensures
            !r.spec_session_present(),
            r.spec_return_code() == ReturnCode::ConnectionAccepted,
    {
        ConnAckBuilder { return_code: ReturnCode::ConnectionAccepted, session_present: false }
    }

    /// Tells that a session is present.
    pub fn session_present(self) -> (r: Self)
        ensures
            r.spec_session_present(),
            r.spec_return_code() == self.spec_return_code(),
    {
        ConnAckBuilder { session_present: true, ..self }
    }

    /// Sets the return code.
    pub fn return_code(self, return_code: ReturnCode) -> (r: Self)
        ensures
            r.spec_session_present() == self.spec_session_present(),
            r.spec_return_code() == return_code,
    {
        ConnAckBuilder { return_code, ..self }
    }

    /// The ConnAck. A refused connection never tells that a session is present.
    pub fn build(self) -> (r: ConnAck)
        ensures
            r@.return_code == self.spec_return_code(),
            r@.session_present == (self.spec_session_present()
                && self.spec_return_code() == ReturnCode::ConnectionAccepted),
            connack_wf(r@),
    {
        let accepted = match self.return_code {
            ReturnCode::ConnectionAccepted => true,
            _ => false,
        };
        ConnAck { session_present: self.session_present && accepted, return_code: self.return_code }
    }

    /// The ConnAck, as a packet.
    pub fn build_packet(self) -> (r: Packet)
        ensures
            r matches Packet::ConnAck(p) && p@.return_code == self.spec_return_code() && connack_wf(p@),
    {
        Packet::ConnAck(self.build())
    }
}

} // verus!
