//! An MQTT 3.1.1 protocol engine: a bit-exact wire codec for the fourteen
//! control packets, a reassembler for packets that arrive in pieces, and a
//! sans-I/O binding that runs the connection, keep-alive and acknowledgement
//! state machines.
use vstd::prelude::*;

pub mod binding;
pub mod broker;
pub mod client;
pub mod decode;
pub mod encode;
pub mod packet;
pub mod parser;
pub mod topic;

pub use crate::binding::{ClientDisconnected, ConnectionError, MqttBinding};
pub use crate::decode::DecodingError;
pub use crate::packet::connack::ConnAck;
pub use crate::packet::connect::Connect;
pub use crate::packet::disconnect::Disconnect;
pub use crate::packet::ping_req::PingReq;
pub use crate::packet::ping_resp::PingResp;
pub use crate::packet::puback::PubAck;
pub use crate::packet::pubcomp::PubComp;
pub use crate::packet::publish::Publish;
pub use crate::packet::pubrec::PubRec;
pub use crate::packet::pubrel::PubRel;
pub use crate::packet::suback::SubAck;
pub use crate::packet::subscribe::Subscribe;
pub use crate::packet::unsuback::UnsubAck;
pub use crate::packet::unsubscribe::Unsubscribe;
pub use crate::packet::{Packet, PacketType, ProtocolLevel, QoS};
use crate::packet::connect::ConnectView;
use crate::packet::publish::{publish_fits, PublishView};
use crate::packet::PacketView;
use vstd::string::StringSliceAdditionalSpecFns;

verus! {

/// Relies on `SystemTime::now` and `SystemTime::duration_since`: the
/// nanoseconds since the Unix epoch, when the clock is past it. Nothing is
/// promised of the value.
#[verifier::external_body]
fn nanos_since_epoch() -> (r: Option<u128>) {
    std::time::SystemTime::now().duration_since(std::time::UNIX_EPOCH).ok().map(|d| d.as_nanos())
}

/// The packet identifier that a reading of the clock gives: the low 16 bits
/// of the nanoseconds since the Unix epoch, or 0 when the clock is before it.
pub fn identifier_from_clock(nanos: Option<u128>) -> (r: u16)
    ensures
        r == match nanos {
            Some(n) => (n % 65536) as u16,
            None => 0u16,
        },
{
    match nanos {
        Some(n) => (n % 65536) as u16,
        None => 0,
    }
}

/// A packet identifier taken from the low 16 bits of the wall-clock time in
/// nanoseconds. Callers that need identifiers to be unique among the packets
/// in flight pick their own.
pub fn packet_identifier() -> (r: u16) {
    identifier_from_clock(nanos_since_epoch())
}

/// A Connect packet with `client_id` and `keep_alive_interval` seconds of
/// keep-alive, without will or credentials.
pub fn connect(client_id: &str, keep_alive_interval: u16) -> (r: Packet)
    requires
        client_id.spec_bytes().len() <= 65535,
    ensures
        r@ == PacketView::Connect(ConnectView {
            client_id: client_id@,
            keep_alive: keep_alive_interval,
            clean_session: client_id@.len() == 0,
            will: None,
            username: None,
            password: None,
        }),
{
    let c = Connect::builder().client_id(client_id).keep_alive(keep_alive_interval).build();
    Packet::Connect(c)
}

/// A Subscribe to `topic` with QoS 0.
pub fn subscribe(topic: &str) -> (r: Subscribe)
    requires
        topic.spec_bytes().len() <= 65535,
    ensures
        r@.topics == seq![(topic@, QoS::AtMostOnceDelivery)],
{
    Subscribe::builder(topic, QoS::AtMostOnceDelivery).build()
}

/// An Unsubscribe from `topic`.
pub fn unsubscribe(topic: &str) -> (r: Unsubscribe)
    requires
        topic.spec_bytes().len() <= 65535,
    ensures
        r@.topics == seq![topic@],
{
    Unsubscribe::builder(topic).build()
}

/// A Publish of `payload` on `topic`, with QoS 0 and neither RETAIN nor DUP.
pub fn publish(topic: &str, payload: &[u8]) -> (r: Publish)
    requires
        publish_fits(topic@, payload@),
    ensures
        r@ == (PublishView {
            topic: topic@,
            payload: payload@,
            qos: QoS::AtMostOnceDelivery,
            retain: false,
            duplicate: false,
            packet_identifier: None,
        }),
{
    Publish::builder(topic, payload).build()
}

} // verus!
