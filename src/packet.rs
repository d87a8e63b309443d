//! The control packets, their types, and the quality-of-service levels.
use crate::decode::{spec_packet_type, DecodingError, InvalidPacketTypeError};
use crate::packet::ack::{spec_ack_bytes, spec_empty_bytes};
use crate::packet::connect::{Connect, ConnectView, spec_connect_bytes, spec_parse_connect, connect_wf};
use crate::packet::connack::{ConnAck, ConnAckView, spec_connack_bytes, spec_parse_connack, connack_wf};
use crate::packet::publish::{Publish, PublishView, spec_publish_bytes, spec_parse_publish, publish_wf};
use crate::packet::puback::{PubAck};
use crate::packet::pubrec::{PubRec};
use crate::packet::pubrel::{PubRel};
use crate::packet::pubcomp::{PubComp};
use crate::packet::subscribe::{Subscribe, SubscribeView, spec_subscribe_bytes, spec_parse_subscribe, subscribe_wf};
use crate::packet::suback::{SubAck, SubAckView, spec_suback_bytes, spec_parse_suback, suback_wf};
use crate::packet::unsubscribe::{Unsubscribe, UnsubscribeView, spec_unsubscribe_bytes, spec_parse_unsubscribe, unsubscribe_wf};
use crate::packet::unsuback::{UnsubAck};
use crate::packet::ping_req::{PingReq};
use crate::packet::ping_resp::{PingResp};
use crate::packet::disconnect::{Disconnect};
use vstd::prelude::*;

pub mod ack;
pub mod connack;
pub mod connect;
pub mod disconnect;
pub mod ping_req;
pub mod ping_resp;
pub mod publish;
pub mod puback;
pub mod pubcomp;
pub mod pubrec;
pub mod pubrel;
pub mod suback;
pub mod subscribe;
pub mod unsubscribe;
pub mod unsuback;

verus! {

/// The fourteen control packet types, numbered as on the wire.
#[derive(Debug, Clone, Copy, PartialEq, Eq, Structural)]
pub enum PacketType {
    Connect,
    ConnAck,
    Publish,
    PubAck,
    PubRec,
    PubRel,
    PubComp,
    Subscribe,
    SubAck,
    Unsubscribe,
    UnsubAck,
    PingReq,
    PingResp,
    Disconnect,
}

impl PacketType {
    /// The number that stands for the type in the high nibble of the first byte.
    pub open spec fn spec_code(self) -> u8 {
        match self {
            PacketType::Connect => 1,
            PacketType::ConnAck => 2,
            PacketType::Publish => 3,
            PacketType::PubAck => 4,
            PacketType::PubRec => 5,
            PacketType::PubRel => 6,
            PacketType::PubComp => 7,
            PacketType::Subscribe => 8,
            PacketType::SubAck => 9,
            PacketType::Unsubscribe => 10,
            PacketType::UnsubAck => 11,
            PacketType::PingReq => 12,
            PacketType::PingResp => 13,
            PacketType::Disconnect => 14,
        }
    }

    /// The type that a number stands for, if any.
    pub open spec fn spec_from_code(n: u8) -> Option<PacketType> {
        if n == 1 {
            Some(PacketType::Connect)
        } else if n == 2 {
            Some(PacketType::ConnAck)
        } else if n == 3 {
            Some(PacketType::Publish)
        } else if n == 4 {
            Some(PacketType::PubAck)
        } else if n == 5 {
            Some(PacketType::PubRec)
        } else if n == 6 {
            Some(PacketType::PubRel)
        } else if n == 7 {
            Some(PacketType::PubComp)
        } else if n == 8 {
            Some(PacketType::Subscribe)
        } else if n == 9 {
            Some(PacketType::SubAck)
        } else if n == 10 {
            Some(PacketType::Unsubscribe)
        } else if n == 11 {
            Some(PacketType::UnsubAck)
        } else if n == 12 {
            Some(PacketType::PingReq)
        } else if n == 13 {
            Some(PacketType::PingResp)
        } else if n == 14 {
            Some(PacketType::Disconnect)
        } else {
            None
        }
    }

    /// The number that stands for the type.
    pub fn code(self) -> (r: u8)
        ensures
            r == self.spec_code(),
            1 <= r <= 14,
    {
        match self {
            PacketType::Connect => 1,
            PacketType::ConnAck => 2,
            PacketType::Publish => 3,
            PacketType::PubAck => 4,
            PacketType::PubRec => 5,
            PacketType::PubRel => 6,
            PacketType::PubComp => 7,
            PacketType::Subscribe => 8,
            PacketType::SubAck => 9,
            PacketType::Unsubscribe => 10,
            PacketType::UnsubAck => 11,
            PacketType::PingReq => 12,
            PacketType::PingResp => 13,
            PacketType::Disconnect => 14,
        }
    }

    /// The type that a number stands for, if any.
    pub fn from_code(n: u8) -> (r: Option<PacketType>)
        ensures
            r == Self::spec_from_code(n),
            r matches Some(t) ==> t.spec_code() == n,
    {
        match n {
            1 => Some(PacketType::Connect),
            2 => Some(PacketType::ConnAck),
            3 => Some(PacketType::Publish),
            4 => Some(PacketType::PubAck),
            5 => Some(PacketType::PubRec),
            6 => Some(PacketType::PubRel),
            7 => Some(PacketType::PubComp),
            8 => Some(PacketType::Subscribe),
            9 => Some(PacketType::SubAck),
            10 => Some(PacketType::Unsubscribe),
            11 => Some(PacketType::UnsubAck),
            12 => Some(PacketType::PingReq),
            13 => Some(PacketType::PingResp),
            14 => Some(PacketType::Disconnect),
            _ => None,
        }
    }

    /// Reads the type from the high nibble of a packet's first byte.
    pub fn try_from_byte(byte: u8) -> (r: Result<PacketType, InvalidPacketTypeError>)
        ensures
            match r {
                Ok(t) => Self::spec_from_code(byte / 16) == Some(t),
                Err(e) => Self::spec_from_code(byte / 16) is None && e.0 == byte,
            },
    {
        match Self::from_code(byte / 16) {
            Some(t) => Ok(t),
            None => Err(InvalidPacketTypeError(byte)),
        }
    }
}

/// Decoding a code and encoding it again gives the code back.
pub proof fn lemma_packet_type_code(t: PacketType)
    ensures
        PacketType::spec_from_code(t.spec_code()) == Some(t),
{
}

impl From<PacketType> for u8 {
    fn from(value: PacketType) -> (r: u8) {
        value.code()
    }
}

impl vstd::std_specs::convert::FromSpecImpl<PacketType> for u8 {
    open spec fn obeys_from_spec() -> bool {
        true
    }

    open spec fn from_spec(v: PacketType) -> u8 {
        v.spec_code()
    }
}

/// The protocol level of MQTT 3.1.1.
#[derive(Debug, Clone, Copy, PartialEq, Eq, Structural)]
pub enum ProtocolLevel {
    V311,
}

impl ProtocolLevel {
    /// The byte that stands for the level in a Connect.
    pub fn code(self) -> (r: u8)
        ensures
            r == 4,
    {
        4
    }
}

/// The quality-of-service levels.
#[derive(Debug, Clone, Copy, PartialEq, Eq, Structural)]
pub enum QoS {
    AtMostOnceDelivery,
    AtLeastOnceDelivery,
    ExactlyOnceDelivery,
}

/// A byte that is not a quality-of-service level.
#[derive(Debug, Clone, Copy, PartialEq, Eq, Structural)]
pub struct InvalidQoS(pub u8);

impl QoS {
    /// The number that stands for the level.
    pub open spec fn spec_code(self) -> u8 {
        match self {
            QoS::AtMostOnceDelivery => 0,
            QoS::AtLeastOnceDelivery => 1,
            QoS::ExactlyOnceDelivery => 2,
        }
    }

    /// The level that a number stands for, if any.
    pub open spec fn spec_from_code(n: u8) -> Option<QoS> {
        if n == 0 {
            Some(QoS::AtMostOnceDelivery)
        } else if n == 1 {
            Some(QoS::AtLeastOnceDelivery)
        } else if n == 2 {
            Some(QoS::ExactlyOnceDelivery)
        } else {
            None
        }
    }

    /// The number that stands for the level.
    pub fn code(self) -> (r: u8)
        ensures
            r == self.spec_code(),
            r <= 2,
    {
        match self {
            QoS::AtMostOnceDelivery => 0,
            QoS::AtLeastOnceDelivery => 1,
            QoS::ExactlyOnceDelivery => 2,
        }
    }

    /// The level that a byte stands for.
    pub fn try_from_byte(value: u8) -> (r: Result<QoS, InvalidQoS>)
        ensures
            match r {
                Ok(q) => Self::spec_from_code(value) == Some(q) && q.spec_code() == value,
                Err(e) => Self::spec_from_code(value) is None && e.0 == value,
            },
    {
        match value {
            0 => Ok(QoS::AtMostOnceDelivery),
            1 => Ok(QoS::AtLeastOnceDelivery),
            2 => Ok(QoS::ExactlyOnceDelivery),
            _ => Err(InvalidQoS(value)),
        }
    }
}

impl InvalidQoS {
    /// The decoding error that stands for this one.
    pub fn into_decoding_error(self) -> (r: DecodingError)
        ensures
            r == DecodingError::InvalidValue(crate::decode::Reason::QoS),
    {
        DecodingError::InvalidValue(crate::decode::Reason::QoS)
    }
}

/// What a packet says.
pub enum PacketView {
    Connect(ConnectView),
    ConnAck(ConnAckView),
    Publish(PublishView),
    PubAck(u16),
    PubRec(u16),
    PubRel(u16),
    PubComp(u16),
    Subscribe(SubscribeView),
    SubAck(SubAckView),
    Unsubscribe(UnsubscribeView),
    UnsubAck(u16),
    PingReq,
    PingResp,
    Disconnect,
}

/// The rules that every packet keeps.
pub open spec fn packet_wf(p: PacketView) -> bool {
    match p {
        PacketView::Connect(v) => connect_wf(v),
        PacketView::ConnAck(v) => connack_wf(v),
        PacketView::Publish(v) => publish_wf(v),
        PacketView::Subscribe(v) => subscribe_wf(v),
        PacketView::SubAck(v) => suback_wf(v),
        PacketView::Unsubscribe(v) => unsubscribe_wf(v),
        _ => true,
    }
}

/// The wire form of a packet.
pub open spec fn spec_packet_bytes(p: PacketView) -> Seq<u8> {
    match p {
        PacketView::Connect(v) => spec_connect_bytes(v),
        PacketView::ConnAck(v) => spec_connack_bytes(v),
        PacketView::Publish(v) => spec_publish_bytes(v),
        PacketView::PubAck(id) => spec_ack_bytes(puback::FIRST_BYTE, id),
        PacketView::PubRec(id) => spec_ack_bytes(pubrec::FIRST_BYTE, id),
        PacketView::PubRel(id) => spec_ack_bytes(pubrel::FIRST_BYTE, id),
        PacketView::PubComp(id) => spec_ack_bytes(pubcomp::FIRST_BYTE, id),
        PacketView::Subscribe(v) => spec_subscribe_bytes(v),
        PacketView::SubAck(v) => spec_suback_bytes(v),
        PacketView::Unsubscribe(v) => spec_unsubscribe_bytes(v),
        PacketView::UnsubAck(id) => spec_ack_bytes(unsuback::FIRST_BYTE, id),
        PacketView::PingReq => spec_empty_bytes(ping_req::FIRST_BYTE),
        PacketView::PingResp => spec_empty_bytes(ping_resp::FIRST_BYTE),
        PacketView::Disconnect => spec_empty_bytes(disconnect::FIRST_BYTE),
    }
}

/// Decodes a packet of any type.
pub open spec fn spec_parse_packet(s: Seq<u8>) -> Result<PacketView, DecodingError> {
    match spec_packet_type(s) {
        Err(e) => Err(e),
        Ok(t) => match t {
            PacketType::Connect => match spec_parse_connect(s) {
                Ok(v) => Ok(PacketView::Connect(v)),
                Err(e) => Err(e),
            },
            PacketType::ConnAck => match spec_parse_connack(s) {
                Ok(v) => Ok(PacketView::ConnAck(v)),
                Err(e) => Err(e),
            },
            PacketType::Publish => match spec_parse_publish(s) {
                Ok(v) => Ok(PacketView::Publish(v)),
                Err(e) => Err(e),
            },
            PacketType::PubAck => match PubAck::spec_parse(s) {
                Ok(id) => Ok(PacketView::PubAck(id)),
                Err(e) => Err(e),
            },
            PacketType::PubRec => match PubRec::spec_parse(s) {
                Ok(id) => Ok(PacketView::PubRec(id)),
                Err(e) => Err(e),
            },
            PacketType::PubRel => match PubRel::spec_parse(s) {
                Ok(id) => Ok(PacketView::PubRel(id)),
                Err(e) => Err(e),
            },
            PacketType::PubComp => match PubComp::spec_parse(s) {
                Ok(id) => Ok(PacketView::PubComp(id)),
                Err(e) => Err(e),
            },
            PacketType::Subscribe => match spec_parse_subscribe(s) {
                Ok(v) => Ok(PacketView::Subscribe(v)),
                Err(e) => Err(e),
            },
            PacketType::SubAck => match spec_parse_suback(s) {
                Ok(v) => Ok(PacketView::SubAck(v)),
                Err(e) => Err(e),
            },
            PacketType::Unsubscribe => match spec_parse_unsubscribe(s) {
                Ok(v) => Ok(PacketView::Unsubscribe(v)),
                Err(e) => Err(e),
            },
            PacketType::UnsubAck => match UnsubAck::spec_parse(s) {
                Ok(id) => Ok(PacketView::UnsubAck(id)),
                Err(e) => Err(e),
            },
            PacketType::PingReq => match PingReq::spec_parse(s) {
                Ok(_) => Ok(PacketView::PingReq),
                Err(e) => Err(e),
            },
            PacketType::PingResp => match PingResp::spec_parse(s) {
                Ok(_) => Ok(PacketView::PingResp),
                Err(e) => Err(e),
            },
            PacketType::Disconnect => match Disconnect::spec_parse(s) {
                Ok(_) => Ok(PacketView::Disconnect),
                Err(e) => Err(e),
            },
        },
    }
}

/// Every well-formed packet decodes from its wire form to what it says:
/// decoding the encoding of a packet gives the packet back, and so encoding
/// it again gives the same bytes.
#[verifier::spinoff_prover]
pub proof fn lemma_packet_round_trip(p: PacketView)
    requires
        packet_wf(p),
    ensures
        spec_parse_packet(spec_packet_bytes(p)) == Ok::<PacketView, DecodingError>(p),
{
    reveal_with_fuel(crate::encode::varint, 1);
    match p {
        PacketView::Connect(v) => {
            connect::lemma_round_trip(v);
        },
        PacketView::ConnAck(v) => {
            connack::lemma_round_trip(v);
        },
        PacketView::Publish(v) => {
            publish::lemma_round_trip(v);
        },
        PacketView::PubAck(id) => {
            puback::lemma_round_trip(id);
        },
        PacketView::PubRec(id) => {
            pubrec::lemma_round_trip(id);
        },
        PacketView::PubRel(id) => {
            pubrel::lemma_round_trip(id);
        },
        PacketView::PubComp(id) => {
            pubcomp::lemma_round_trip(id);
        },
        PacketView::Subscribe(v) => {
            subscribe::lemma_round_trip(v);
        },
        PacketView::SubAck(v) => {
            suback::lemma_round_trip(v);
        },
        PacketView::Unsubscribe(v) => {
            unsubscribe::lemma_round_trip(v);
        },
        PacketView::UnsubAck(id) => {
            unsuback::lemma_round_trip(id);
        },
        PacketView::PingReq => {
            ping_req::lemma_round_trip(PingReq);
        },
        PacketView::PingResp => {
            ping_resp::lemma_round_trip(PingResp);
        },
        PacketView::Disconnect => {
            disconnect::lemma_round_trip(Disconnect);
        },
    }
}

/// A control packet of any type.
#[derive(Debug, PartialEq, Eq)]
pub enum Packet {
    Connect(Connect),
    ConnAck(ConnAck),
    Publish(Publish),
    PubAck(PubAck),
    PubRec(PubRec),
    PubRel(PubRel),
    PubComp(PubComp),
    Subscribe(Subscribe),
    SubAck(SubAck),
    Unsubscribe(Unsubscribe),
    UnsubAck(UnsubAck),
    PingReq(PingReq),
    PingResp(PingResp),
    Disconnect(Disconnect),
}

impl View for Packet {
    type V = PacketView;

    open spec fn view(&self) -> PacketView {
        match self {
            Packet::Connect(p) => PacketView::Connect(p@),
            Packet::ConnAck(p) => PacketView::ConnAck(p@),
            Packet::Publish(p) => PacketView::Publish(p@),
            Packet::PubAck(p) => PacketView::PubAck(p.spec_packet_identifier()),
            Packet::PubRec(p) => PacketView::PubRec(p.spec_packet_identifier()),
            Packet::PubRel(p) => PacketView::PubRel(p.spec_packet_identifier()),
            Packet::PubComp(p) => PacketView::PubComp(p.spec_packet_identifier()),
            Packet::Subscribe(p) => PacketView::Subscribe(p@),
            Packet::SubAck(p) => PacketView::SubAck(p@),
            Packet::Unsubscribe(p) => PacketView::Unsubscribe(p@),
            Packet::UnsubAck(p) => PacketView::UnsubAck(p.spec_packet_identifier()),
            Packet::PingReq(_) => PacketView::PingReq,
            Packet::PingResp(_) => PacketView::PingResp,
            Packet::Disconnect(_) => PacketView::Disconnect,
        }
    }
}

impl Clone for Packet {
    fn clone(&self) -> (r: Self)
        ensures
            r@ == self@,
    {
        match self {
            Packet::Connect(p) => Packet::Connect(p.clone()),
            Packet::ConnAck(p) => Packet::ConnAck(p.clone()),
            Packet::Publish(p) => Packet::Publish(p.clone()),
            Packet::PubAck(p) => Packet::PubAck(p.clone()),
            Packet::PubRec(p) => Packet::PubRec(p.clone()),
            Packet::PubRel(p) => Packet::PubRel(p.clone()),
            Packet::PubComp(p) => Packet::PubComp(p.clone()),
            Packet::Subscribe(p) => Packet::Subscribe(p.clone()),
            Packet::SubAck(p) => Packet::SubAck(p.clone()),
            Packet::Unsubscribe(p) => Packet::Unsubscribe(p.clone()),
            Packet::UnsubAck(p) => Packet::UnsubAck(p.clone()),
            Packet::PingReq(p) => Packet::PingReq(p.clone()),
            Packet::PingResp(p) => Packet::PingResp(p.clone()),
            Packet::Disconnect(p) => Packet::Disconnect(p.clone()),
        }
    }
}

impl Packet {
    /// The type of the packet.
    pub fn packet_type(&self) -> (r: PacketType)
        ensures
            r == spec_view_type(self@),
    {
        match self {
            Packet::Connect(_) => PacketType::Connect,
            Packet::ConnAck(_) => PacketType::ConnAck,
            Packet::Publish(_) => PacketType::Publish,
            Packet::PubAck(_) => PacketType::PubAck,
            Packet::PubRec(_) => PacketType::PubRec,
            Packet::PubRel(_) => PacketType::PubRel,
            Packet::PubComp(_) => PacketType::PubComp,
            Packet::Subscribe(_) => PacketType::Subscribe,
            Packet::SubAck(_) => PacketType::SubAck,
            Packet::Unsubscribe(_) => PacketType::Unsubscribe,
            Packet::UnsubAck(_) => PacketType::UnsubAck,
            Packet::PingReq(_) => PacketType::PingReq,
            Packet::PingResp(_) => PacketType::PingResp,
            Packet::Disconnect(_) => PacketType::Disconnect,
        }
    }

    /// The wire form of the packet.
    pub fn as_bytes(&self) -> (r: Vec<u8>)
        ensures
            r@ == spec_packet_bytes(self@),
    {
        match self {
            Packet::Connect(p) => p.as_bytes(),
            Packet::ConnAck(p) => p.as_bytes(),
            Packet::Publish(p) => p.as_bytes(),
            Packet::PubAck(p) => p.as_bytes(),
            Packet::PubRec(p) => p.as_bytes(),
            Packet::PubRel(p) => p.as_bytes(),
            Packet::PubComp(p) => p.as_bytes(),
            Packet::Subscribe(p) => p.as_bytes(),
            Packet::SubAck(p) => p.as_bytes(),
            Packet::Unsubscribe(p) => p.as_bytes(),
            Packet::UnsubAck(p) => p.as_bytes(),
            Packet::PingReq(p) => p.as_bytes(),
            Packet::PingResp(p) => p.as_bytes(),
            Packet::Disconnect(p) => p.as_bytes(),
        }
    }

    /// The wire form of the packet.
    pub fn into_bytes(self) -> (r: Vec<u8>)
        ensures
            r@ == spec_packet_bytes(self@),
    {
        self.as_bytes()
    }

    /// The number of bytes of the wire form.
    pub fn length(&self) -> (r: usize)
        ensures
            r == spec_packet_bytes(self@).len(),
    {
        let b = self.as_bytes();
        b.len()
    }

    /// The fixed header of the packet: the first byte and the
    /// remaining-length field, one to four bytes read by their continuation
    /// bits.
    pub fn header(&self) -> (r: Vec<u8>)
        ensures
            r@ == spec_packet_bytes(self@).subrange(0, spec_header_len(spec_packet_bytes(self@))),
    {
        let b = self.as_bytes();
        if b.len() < 2 {
            return b;
        }
        let rest = vstd::slice::slice_subrange(b.as_slice(), 1, b.len());
        proof {
            assert(rest@ =~= b@.drop_first());
        }
        let end = match crate::decode::remaining_length(rest) {
            Ok((_, n)) => 1 + n,
            Err(_) => b.len(),
        };
        let r = vstd::slice::slice_to_vec(vstd::slice::slice_subrange(b.as_slice(), 0, end));
        proof {
            assert(b@.subrange(0, b@.len() as int) =~= b@);
        }
        r
    }

    /// The variable header of the packet: what follows the fixed header and
    /// comes before the payload.
    pub fn variable_header(&self) -> (r: Vec<u8>)
        ensures
            r@ == spec_variable_header(self@),
    {
        match self {
            Packet::Connect(p) => p.variable_header(),
            Packet::ConnAck(p) => p.variable_header(),
            Packet::Publish(p) => p.variable_header(),
            Packet::PubAck(p) => p.variable_header(),
            Packet::PubRec(p) => p.variable_header(),
            Packet::PubRel(p) => p.variable_header(),
            Packet::PubComp(p) => p.variable_header(),
            Packet::Subscribe(p) => p.variable_header(),
            Packet::SubAck(p) => p.variable_header(),
            Packet::Unsubscribe(p) => p.variable_header(),
            Packet::UnsubAck(p) => p.variable_header(),
            _ => Vec::new(),
        }
    }

    /// The payload of the packet: what follows the variable header.
    pub fn payload(&self) -> (r: Vec<u8>)
        ensures
            r@ == spec_payload(self@),
    {
        match self {
            Packet::Connect(p) => p.payload(),
            Packet::Publish(p) => {
                let r = vstd::slice::slice_to_vec(p.payload());
                r
            },
            Packet::Subscribe(p) => p.payload(),
            Packet::SubAck(p) => p.payload(),
            Packet::Unsubscribe(p) => p.payload(),
            _ => Vec::new(),
        }
    }

    /// The packet identifier that the packet carries, if its type has one.
    pub fn packet_identifier(&self) -> (r: Option<u16>)
        ensures
            r == spec_view_identifier(self@),
    {
        match self {
            Packet::Publish(p) => p.packet_identifier(),
            Packet::PubAck(p) => Some(p.packet_identifier()),
            Packet::PubRec(p) => Some(p.packet_identifier()),
            Packet::PubRel(p) => Some(p.packet_identifier()),
            Packet::PubComp(p) => Some(p.packet_identifier()),
            Packet::Subscribe(p) => Some(p.packet_identifier()),
            Packet::SubAck(p) => Some(p.packet_identifier()),
            Packet::Unsubscribe(p) => Some(p.packet_identifier()),
            Packet::UnsubAck(p) => Some(p.packet_identifier()),
            _ => None,
        }
    }

    /// Decodes a packet of any type.
    pub fn try_from(bytes: &[u8]) -> (r: Result<Packet, DecodingError>)
        ensures
            match r {
                Ok(p) => spec_parse_packet(bytes@) == Ok::<PacketView, DecodingError>(p@)
                    && spec_packet_bytes(p@) == bytes@,
                Err(e) => spec_parse_packet(bytes@) == Err::<PacketView, DecodingError>(e),
            },
    {
        proof {
            lemma_packet_decode_encode(bytes@);
        }
        let t = match crate::decode::packet_type(bytes) {
            Err(e) => return Err(e),
            Ok(t) => t,
        };
        match t {
            PacketType::Connect => match Connect::try_from(bytes) {
                Ok(p) => Ok(Packet::Connect(p)),
                Err(e) => Err(e),
            },
            PacketType::ConnAck => match ConnAck::try_from(bytes) {
                Ok(p) => Ok(Packet::ConnAck(p)),
                Err(e) => Err(e),
            },
            PacketType::Publish => match Publish::try_from(bytes) {
                Ok(p) => Ok(Packet::Publish(p)),
                Err(e) => Err(e),
            },
            PacketType::PubAck => match PubAck::try_from(bytes) {
                Ok(p) => Ok(Packet::PubAck(p)),
                Err(e) => Err(e),
            },
            PacketType::PubRec => match PubRec::try_from(bytes) {
                Ok(p) => Ok(Packet::PubRec(p)),
                Err(e) => Err(e),
            },
            PacketType::PubRel => match PubRel::try_from(bytes) {
                Ok(p) => Ok(Packet::PubRel(p)),
                Err(e) => Err(e),
            },
            PacketType::PubComp => match PubComp::try_from(bytes) {
                Ok(p) => Ok(Packet::PubComp(p)),
                Err(e) => Err(e),
            },
            PacketType::Subscribe => match Subscribe::try_from(bytes) {
                Ok(p) => Ok(Packet::Subscribe(p)),
                Err(e) => Err(e),
            },
            PacketType::SubAck => match SubAck::try_from(bytes) {
                Ok(p) => Ok(Packet::SubAck(p)),
                Err(e) => Err(e),
            },
            PacketType::Unsubscribe => match Unsubscribe::try_from(bytes) {
                Ok(p) => Ok(Packet::Unsubscribe(p)),
                Err(e) => Err(e),
            },
            PacketType::UnsubAck => match UnsubAck::try_from(bytes) {
                Ok(p) => Ok(Packet::UnsubAck(p)),
                Err(e) => Err(e),
            },
            PacketType::PingReq => match PingReq::try_from(bytes) {
                Ok(p) => Ok(Packet::PingReq(p)),
                Err(e) => Err(e),
            },
            PacketType::PingResp => match PingResp::try_from(bytes) {
                Ok(p) => Ok(Packet::PingResp(p)),
                Err(e) => Err(e),
            },
            PacketType::Disconnect => match Disconnect::try_from(bytes) {
                Ok(p) => Ok(Packet::Disconnect(p)),
                Err(e) => Err(e),
            },
        }
    }
}

/// The type of what a packet says.
pub open spec fn spec_view_type(p: PacketView) -> PacketType {
    match p {
        PacketView::Connect(_) => PacketType::Connect,
        PacketView::ConnAck(_) => PacketType::ConnAck,
        PacketView::Publish(_) => PacketType::Publish,
        PacketView::PubAck(_) => PacketType::PubAck,
        PacketView::PubRec(_) => PacketType::PubRec,
        PacketView::PubRel(_) => PacketType::PubRel,
        PacketView::PubComp(_) => PacketType::PubComp,
        PacketView::Subscribe(_) => PacketType::Subscribe,
        PacketView::SubAck(_) => PacketType::SubAck,
        PacketView::Unsubscribe(_) => PacketType::Unsubscribe,
        PacketView::UnsubAck(_) => PacketType::UnsubAck,
        PacketView::PingReq => PacketType::PingReq,
        PacketView::PingResp => PacketType::PingResp,
        PacketView::Disconnect => PacketType::Disconnect,
    }
}

/// The length of the fixed header at the start of `s`: the first byte and a
/// complete remaining-length field (all of `s` when there is none).
pub open spec fn spec_header_len(s: Seq<u8>) -> int {
    if s.len() < 2 {
        s.len() as int
    } else {
        match crate::decode::spec_varint(s.drop_first(), 0) {
            Ok((_, n)) => (1 + n) as int,
            Err(_) => s.len() as int,
        }
    }
}

/// The variable header of a packet.
pub open spec fn spec_variable_header(p: PacketView) -> Seq<u8> {
    match p {
        PacketView::Connect(v) => connect::spec_connect_variable_header(v),
        PacketView::ConnAck(v) => seq![if v.session_present { 1u8 } else { 0u8 }, v.return_code.spec_code()],
        PacketView::Publish(v) => crate::encode::length_prefixed(vstd::utf8::encode_utf8(v.topic))
            + publish::spec_identifier_bytes(v.packet_identifier),
        PacketView::PubAck(id) => crate::encode::be16(id),
        PacketView::PubRec(id) => crate::encode::be16(id),
        PacketView::PubRel(id) => crate::encode::be16(id),
        PacketView::PubComp(id) => crate::encode::be16(id),
        PacketView::Subscribe(v) => crate::encode::be16(v.packet_identifier),
        PacketView::SubAck(v) => crate::encode::be16(v.packet_identifier),
        PacketView::Unsubscribe(v) => crate::encode::be16(v.packet_identifier),
        PacketView::UnsubAck(id) => crate::encode::be16(id),
        _ => Seq::empty(),
    }
}

/// The payload of a packet: what follows the variable header.
pub open spec fn spec_payload(p: PacketView) -> Seq<u8> {
    match p {
        PacketView::Connect(v) => connect::spec_connect_payload(v),
        PacketView::Publish(v) => v.payload,
        PacketView::Subscribe(v) => subscribe::spec_entries(v.topics),
        PacketView::SubAck(v) => suback::spec_codes(v.return_codes),
        PacketView::Unsubscribe(v) => unsubscribe::spec_entries(v.topics),
        _ => Seq::empty(),
    }
}

/// The packet identifier of what a packet says, if its type has one.
pub open spec fn spec_view_identifier(p: PacketView) -> Option<u16> {
    match p {
        PacketView::Publish(v) => v.packet_identifier,
        PacketView::PubAck(id) => Some(id),
        PacketView::PubRec(id) => Some(id),
        PacketView::PubRel(id) => Some(id),
        PacketView::PubComp(id) => Some(id),
        PacketView::Subscribe(v) => Some(v.packet_identifier),
        PacketView::SubAck(v) => Some(v.packet_identifier),
        PacketView::Unsubscribe(v) => Some(v.packet_identifier),
        PacketView::UnsubAck(id) => Some(id),
        _ => None,
    }
}

impl From<Connect> for Packet {
    fn from(v: Connect) -> (r: Packet) {
        Packet::Connect(v)
    }
}

impl vstd::std_specs::convert::FromSpecImpl<Connect> for Packet {
    open spec fn obeys_from_spec() -> bool {
        true
    }

    open spec fn from_spec(v: Connect) -> Packet {
        Packet::Connect(v)
    }
}

impl From<ConnAck> for Packet {
    fn from(v: ConnAck) -> (r: Packet) {
        Packet::ConnAck(v)
    }
}

impl vstd::std_specs::convert::FromSpecImpl<ConnAck> for Packet {
    open spec fn obeys_from_spec() -> bool {
        true
    }

    open spec fn from_spec(v: ConnAck) -> Packet {
        Packet::ConnAck(v)
    }
}

impl From<Publish> for Packet {
    fn from(v: Publish) -> (r: Packet) {
        Packet::Publish(v)
    }
}

impl vstd::std_specs::convert::FromSpecImpl<Publish> for Packet {
    open spec fn obeys_from_spec() -> bool {
        true
    }

    open spec fn from_spec(v: Publish) -> Packet {
        Packet::Publish(v)
    }
}

impl From<PubAck> for Packet {
    fn from(v: PubAck) -> (r: Packet) {
        Packet::PubAck(v)
    }
}

impl vstd::std_specs::convert::FromSpecImpl<PubAck> for Packet {
    open spec fn obeys_from_spec() -> bool {
        true
    }

    open spec fn from_spec(v: PubAck) -> Packet {
        Packet::PubAck(v)
    }
}

impl From<PubRec> for Packet {
    fn from(v: PubRec) -> (r: Packet) {
        Packet::PubRec(v)
    }
}

impl vstd::std_specs::convert::FromSpecImpl<PubRec> for Packet {
    open spec fn obeys_from_spec() -> bool {
        true
    }

    open spec fn from_spec(v: PubRec) -> Packet {
        Packet::PubRec(v)
    }
}

impl From<PubRel> for Packet {
    fn from(v: PubRel) -> (r: Packet) {
        Packet::PubRel(v)
    }
}

impl vstd::std_specs::convert::FromSpecImpl<PubRel> for Packet {
    open spec fn obeys_from_spec() -> bool {
        true
    }

    open spec fn from_spec(v: PubRel) -> Packet {
        Packet::PubRel(v)
    }
}

impl From<PubComp> for Packet {
    fn from(v: PubComp) -> (r: Packet) {
        Packet::PubComp(v)
    }
}

impl vstd::std_specs::convert::FromSpecImpl<PubComp> for Packet {
    open spec fn obeys_from_spec() -> bool {
        true
    }

    open spec fn from_spec(v: PubComp) -> Packet {
        Packet::PubComp(v)
    }
}

impl From<Subscribe> for Packet {
    fn from(v: Subscribe) -> (r: Packet) {
        Packet::Subscribe(v)
    }
}

impl vstd::std_specs::convert::FromSpecImpl<Subscribe> for Packet {
    open spec fn obeys_from_spec() -> bool {
        true
    }

    open spec fn from_spec(v: Subscribe) -> Packet {
        Packet::Subscribe(v)
    }
}

impl From<SubAck> for Packet {
    fn from(v: SubAck) -> (r: Packet) {
        Packet::SubAck(v)
    }
}

impl vstd::std_specs::convert::FromSpecImpl<SubAck> for Packet {
    open spec fn obeys_from_spec() -> bool {
        true
    }

    open spec fn from_spec(v: SubAck) -> Packet {
        Packet::SubAck(v)
    }
}

impl From<Unsubscribe> for Packet {
    fn from(v: Unsubscribe) -> (r: Packet) {
        Packet::Unsubscribe(v)
    }
}

impl vstd::std_specs::convert::FromSpecImpl<Unsubscribe> for Packet {
    open spec fn obeys_from_spec() -> bool {
        true
    }

    open spec fn from_spec(v: Unsubscribe) -> Packet {
        Packet::Unsubscribe(v)
    }
}

impl From<UnsubAck> for Packet {
    fn from(v: UnsubAck) -> (r: Packet) {
        Packet::UnsubAck(v)
    }
}

impl vstd::std_specs::convert::FromSpecImpl<UnsubAck> for Packet {
    open spec fn obeys_from_spec() -> bool {
        true
    }

    open spec fn from_spec(v: UnsubAck) -> Packet {
        Packet::UnsubAck(v)
    }
}

impl From<PingReq> for Packet {
    fn from(v: PingReq) -> (r: Packet) {
        Packet::PingReq(v)
    }
}

impl vstd::std_specs::convert::FromSpecImpl<PingReq> for Packet {
    open spec fn obeys_from_spec() -> bool {
        true
    }

    open spec fn from_spec(v: PingReq) -> Packet {
        Packet::PingReq(v)
    }
}

impl From<PingResp> for Packet {
    fn from(v: PingResp) -> (r: Packet) {
        Packet::PingResp(v)
    }
}

impl vstd::std_specs::convert::FromSpecImpl<PingResp> for Packet {
    open spec fn obeys_from_spec() -> bool {
        true
    }

    open spec fn from_spec(v: PingResp) -> Packet {
        Packet::PingResp(v)
    }
}

impl From<Disconnect> for Packet {
    fn from(v: Disconnect) -> (r: Packet) {
        Packet::Disconnect(v)
    }
}

impl vstd::std_specs::convert::FromSpecImpl<Disconnect> for Packet {
    open spec fn obeys_from_spec() -> bool {
        true
    }

    open spec fn from_spec(v: Disconnect) -> Packet {
        Packet::Disconnect(v)
    }
}

/// The wire form of every well-formed packet is its fixed header, then its
/// variable header, then its payload; the fixed header is the first byte and
/// a remaining-length field of one to four bytes that gives the length of
/// the rest.
#[verifier::spinoff_prover]
pub proof fn lemma_frame_parts(p: PacketView)
    requires
        packet_wf(p),
    ensures
        2 <= spec_header_len(spec_packet_bytes(p)) <= 5,
        spec_packet_bytes(p) == spec_packet_bytes(p).subrange(0, spec_header_len(spec_packet_bytes(p)))
            + spec_variable_header(p) + spec_payload(p),
        (spec_variable_header(p) + spec_payload(p)).len() <= crate::encode::MAX_REMAINING_LENGTH,
{
    let first: u8 = match p {
        PacketView::Connect(_) => connect::FIRST_BYTE,
        PacketView::ConnAck(_) => connack::FIRST_BYTE,
        PacketView::Publish(v) => publish::spec_publish_first(v),
        PacketView::PubAck(_) => puback::FIRST_BYTE,
        PacketView::PubRec(_) => pubrec::FIRST_BYTE,
        PacketView::PubRel(_) => pubrel::FIRST_BYTE,
        PacketView::PubComp(_) => pubcomp::FIRST_BYTE,
        PacketView::Subscribe(_) => subscribe::FIRST_BYTE,
        PacketView::SubAck(_) => suback::FIRST_BYTE,
        PacketView::Unsubscribe(_) => unsubscribe::FIRST_BYTE,
        PacketView::UnsubAck(_) => unsuback::FIRST_BYTE,
        PacketView::PingReq => ping_req::FIRST_BYTE,
        PacketView::PingResp => ping_resp::FIRST_BYTE,
        PacketView::Disconnect => disconnect::FIRST_BYTE,
    };
    let body = spec_variable_header(p) + spec_payload(p);
    match p {
        PacketView::Connect(v) => {
            connect::lemma_connect_body_len(v);
        },
        PacketView::Publish(v) => {
            assert(body =~= publish::spec_publish_body(v));
        },
        PacketView::Subscribe(v) => {},
        PacketView::SubAck(v) => {},
        PacketView::Unsubscribe(v) => {},
        _ => {
            assert(body =~= spec_variable_header(p));
        },
    }
    assert(spec_packet_bytes(p) =~= crate::encode::framed(first, body));
    let e = spec_packet_bytes(p);
    let vi = crate::encode::varint(body.len());
    crate::encode::lemma_varint_len(body.len());
    assert(e.drop_first() =~= vi + body);
    crate::decode::lemma_varint_round_trip(body.len(), body, 0);
    assert(e =~= e.subrange(0, (1 + vi.len()) as int) + body);
}

/// Decoding keeps the received bytes: a packet decoded from `s` encodes to
/// `s` again. With the round trip above, decoding and encoding are inverse
/// on well-formed packets.
pub proof fn lemma_packet_decode_encode(s: Seq<u8>)
    ensures
        spec_parse_packet(s) matches Ok(p) ==> spec_packet_bytes(p) == s,
{
    connect::lemma_decode_encode(s);
    connack::lemma_decode_encode(s);
    publish::lemma_decode_encode(s);
    puback::lemma_decode_encode(s);
    pubrec::lemma_decode_encode(s);
    pubrel::lemma_decode_encode(s);
    pubcomp::lemma_decode_encode(s);
    subscribe::lemma_decode_encode(s);
    suback::lemma_decode_encode(s);
    unsubscribe::lemma_decode_encode(s);
    unsuback::lemma_decode_encode(s);
    ping_req::lemma_decode_encode(s);
    ping_resp::lemma_decode_encode(s);
    disconnect::lemma_decode_encode(s);
}

} // verus!
