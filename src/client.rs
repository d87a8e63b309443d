//! The decisions of the client driver: which packet a command enqueues,
//! which request waits for which acknowledgement, and where an inbound
//! packet goes. The driver itself, which owns the socket, the timer and the
//! channels, only carries them out.
use crate::binding::{spec_request_identifier, ConnectionStatus, MqttBinding, Statistics};
use crate::packet::connect::{Connect, ConnectView};
use crate::packet::{Packet, PacketView};
use std::collections::HashMap;
use vstd::prelude::*;
use vstd::utf8::encode_utf8;

verus! {

broadcast use vstd::std_specs::hash::group_hash_axioms;

/// The settings of a client connection.
#[derive(Debug)]
pub struct Options {
    pub client_id: Option<String>,
    pub keep_alive: u16,
    pub username: Option<String>,
    pub password: Option<Vec<u8>>,
}

impl Default for Options {
    fn default() -> (r: Self)
        ensures
            r.client_id is None,
            r.keep_alive == 300,
            r.username is None,
            r.password is None,
    {
        Options { client_id: None, keep_alive: 300, username: None, password: None }
    }
}

/// Every text field of the options fits its length prefix.
pub open spec fn options_fit(o: &Options) -> bool {
    &&& (o.client_id matches Some(c) ==> encode_utf8(c@).len() <= 65535)
    &&& (o.username matches Some(u) ==> encode_utf8(u@).len() <= 65535)
    &&& (o.password matches Some(p) ==> p@.len() <= 65535)
}

/// The Connect that options ask for: no will; a clean session exactly when
/// the client identifier is empty; a password only with a username.
pub open spec fn options_connect(o: Options) -> ConnectView {
    let client_id = match o.client_id {
        Some(c) => c@,
        None => Seq::<char>::empty(),
    };
    ConnectView {
        client_id,
        keep_alive: o.keep_alive,
        clean_session: client_id.len() == 0,
        will: None,
        username: match o.username {
            Some(u) => Some(u@),
            None => None,
        },
        password: match (o.username, o.password) {
            (Some(_), Some(p)) => Some(p@),
            _ => None,
        },
    }
}

impl Options {
    /// The Connect that these options ask for. A password is only sent
    /// with a username.
    pub fn into_connect(self) -> (r: Connect)
        requires
            options_fit(&self),
        ensures
            r@ == options_connect(self),
    {
        let builder = Connect::builder().keep_alive(self.keep_alive);
        let builder = match &self.client_id {
            Some(c) => builder.client_id(c.as_str()),
            None => builder,
        };
        match &self.username {
            Some(u) => {
                let builder = builder.username(u.as_str());
                match &self.password {
                    Some(p) => builder.password(p.as_slice()).build(),
                    None => builder.build(),
                }
            },
            None => builder.build(),
        }
    }
}

/// Where an inbound packet goes.
#[derive(Debug, Clone, Copy, PartialEq, Eq, Structural)]
pub enum Route {
    /// To the reply channel registered under this number.
    Reply(u64),
    /// To every subscriber of the inbound stream.
    Broadcast,
}

/// The identifier of a request that an inbound packet completes: a PubAck
/// or PubComp completes a Publish, a SubAck a Subscribe, an UnsubAck an
/// Unsubscribe. A PubRec completes nothing: a Publish with QoS 2 is done only
/// at its PubComp.
pub open spec fn spec_reply_identifier(p: PacketView) -> Option<u16> {
    match p {
        PacketView::PubAck(id) => Some(id),
        PacketView::PubComp(id) => Some(id),
        PacketView::SubAck(v) => Some(v.packet_identifier),
        PacketView::UnsubAck(id) => Some(id),
        _ => None,
    }
}

/// The identifier of a request that an inbound packet completes.
pub fn reply_identifier(packet: &Packet) -> (r: Option<u16>)
    ensures
        r == spec_reply_identifier(packet@),
{
    match packet {
        Packet::PubAck(p) => Some(p.packet_identifier()),
        Packet::PubComp(p) => Some(p.packet_identifier()),
        Packet::SubAck(p) => Some(p.packet_identifier()),
        Packet::UnsubAck(p) => Some(p.packet_identifier()),
        _ => None,
    }
}

/// A packet that a server never sends: one of those only a client sends.
/// A driver that receives one fails the connection.
pub open spec fn spec_protocol_violation(p: PacketView) -> bool {
    match p {
        PacketView::Connect(_) => true,
        PacketView::Subscribe(_) => true,
        PacketView::Unsubscribe(_) => true,
        PacketView::PingReq => true,
        PacketView::Disconnect => true,
        _ => false,
    }
}

/// Whether an inbound packet is one that a server never sends.
pub fn is_protocol_violation(packet: &Packet) -> (r: bool)
    ensures
        r == spec_protocol_violation(packet@),
{
    match packet {
        Packet::Connect(_) | Packet::Subscribe(_) | Packet::Unsubscribe(_) | Packet::PingReq(_) | Packet::Disconnect(_) => true,
        _ => false,
    }
}

/// The requests that wait for an acknowledgement: packet identifier to the
/// number of a reply channel, which the driver keeps.
pub struct TokenTable {
    pending: HashMap<u16, u64>,
}

impl View for TokenTable {
    type V = Map<u16, u64>;

    closed spec fn view(&self) -> Map<u16, u64> {
        self.pending@
    }
}

impl TokenTable {
    /// A table without entries.
    pub fn new() -> (r: Self)
        ensures
            r@ == Map::<u16, u64>::empty(),
    {
        TokenTable { pending: HashMap::new() }
    }

    /// Registers the reply channel `reply` for the request `token`.
    pub fn register(&mut self, token: u16, reply: u64)
        ensures
            final(self)@ == old(self)@.insert(token, reply),
    {
        self.pending.insert(token, reply);
    }

    /// Whether a request waits under `token`.
    pub fn is_pending(&self, token: u16) -> (r: bool)
        ensures
            r == self@.contains_key(token),
    {
        self.pending.contains_key(&token)
    }

    /// Where an inbound packet goes: to the reply channel of the request it
    /// completes, whose entry is then consumed; else to every subscriber.
    /// A Publish always goes to every subscriber.
    pub fn route(&mut self, packet: &Packet) -> (r: Route)
        ensures
            match spec_reply_identifier(packet@) {
                Some(id) => if old(self)@.contains_key(id) {
                    r == Route::Reply(old(self)@[id]) && final(self)@ == old(self)@.remove(id)
                } else {
                    r == Route::Broadcast && final(self)@ == old(self)@
                },
                None => r == Route::Broadcast && final(self)@ == old(self)@,
            },
    {
        match reply_identifier(packet) {
            Some(id) => match self.pending.remove(&id) {
                Some(reply) => Route::Reply(reply),
                None => Route::Broadcast,
            },
            None => Route::Broadcast,
        }
    }

    /// Hands a command of the application to the binding: the packet is
    /// enqueued, and when it is a request that waits for an acknowledgement
    /// and the command carries a reply channel, the channel is registered
    /// under the request's identifier.
    pub fn submit(&mut self, binding: &mut MqttBinding, packet: Packet, reply: Option<u64>) -> (r: Option<u16>)
        requires
            old(binding).wf(),
        ensures
            final(binding).wf(),
            r == spec_request_identifier(packet@),
            final(binding)@.transmits == old(binding)@.transmits.push(packet@),
            final(binding)@.status == old(binding)@.status,
            final(self)@ == match (r, reply) {
                (Some(t), Some(c)) => old(self)@.insert(t, c),
                _ => old(self)@,
            },
    {
        let token = binding.send(packet);
        if let (Some(t), Some(c)) = (token, reply) {
            self.register(t, c);
        }
        token
    }
}

impl MqttBinding {
    /// A binding seeded with the Connect that `options` ask for.
    pub fn from_options(options: Options, now: u64) -> (r: MqttBinding)
        requires
            options_fit(&options),
        ensures
            r.wf(),
            r@.status == ConnectionStatus::NotConnected,
            r@.last_io == now,
            r@.transmits == Seq::<PacketView>::empty(),
            r@.pending == Seq::<u8>::empty(),
            r@.connect == options_connect(options),
            r@.statistics == Statistics::new_spec(),
    {
        MqttBinding::from_connect(options.into_connect(), now)
    }
}

} // verus!
