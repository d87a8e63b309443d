//! The sans-I/O protocol state machine: connection status, outbound queue,
//! reassembly of inbound packets, keep-alive, and automatic acknowledgements.
use crate::decode::{lemma_varint_round_trip, remaining_length, spec_varint, varint_cap, DecodingError};
use crate::encode::{framed, lemma_varint_len, varint, MAX_REMAINING_LENGTH};
use crate::packet::connack::ReturnCode;
use crate::packet::connect::{Connect, ConnectView};
use crate::packet::ping_req::PingReq;
use crate::packet::pubcomp::PubComp;
use crate::packet::pubrec::PubRec;
use crate::packet::puback::PubAck;
use crate::packet::pubrel::PubRel;
use crate::packet::{lemma_packet_round_trip, packet_wf, spec_parse_packet, spec_packet_bytes, Packet, PacketView, QoS};
use vstd::prelude::*;
use vstd::slice::slice_subrange;

verus! {

/// The time the binding waits when keep-alive is off: about thirty years,
/// in milliseconds.
pub const FAR_FUTURE_MS: u64 = 946080000000;

/// Where the connection stands.
#[derive(Debug, Clone, Copy, PartialEq, Eq, Structural)]
pub enum ConnectionStatus {
    NotConnected,
    Connecting,
    Connected,
    Disconnected,
}

/// The binding has sent a Disconnect and sends nothing more.
#[derive(Debug, Clone, Copy, PartialEq, Eq, Structural)]
pub struct ClientDisconnected;

/// The connection between a handle and the driver is broken.
#[derive(Debug, Clone, Copy, PartialEq, Eq, Structural)]
pub struct ConnectionError;

/// The reassembly state.
#[derive(Debug)]
pub enum State {
    /// No byte of the next packet has arrived.
    StartOfHeader,
    /// The first bytes arrived, but the remaining-length field is not complete.
    EndOfHeader { partial_header: Vec<u8> },
    /// The fixed header is complete; `bytes_remaining` bytes of the packet are
    /// still to come.
    RestOfPacket { header: Vec<u8>, bytes_remaining: u32 },
}

/// How far a buffer of inbound bytes goes towards a packet.
#[derive(Debug, Clone, Copy, PartialEq, Eq, Structural)]
pub enum FrameStatus {
    /// A prefix of a packet, which more bytes may complete.
    Incomplete,
    /// Exactly one packet.
    Complete,
    /// No packet starts so, or the bytes run past the end of the packet.
    Invalid,
}

/// How far `acc` goes towards a packet.
pub open spec fn spec_frame_status(acc: Seq<u8>) -> FrameStatus {
    if acc.len() < 2 {
        FrameStatus::Incomplete
    } else {
        match spec_varint(acc.drop_first(), 0) {
            Err(DecodingError::NotEnoughBytes { .. }) => FrameStatus::Incomplete,
            Err(_) => FrameStatus::Invalid,
            Ok((v, n)) => if acc.len() < 1 + n + v {
                FrameStatus::Incomplete
            } else if acc.len() == 1 + n + v {
                FrameStatus::Complete
            } else {
                FrameStatus::Invalid
            },
        }
    }
}

/// The number of bytes to read next, given the bytes of the packet that
/// have arrived: two to start the header, two or one more while the
/// remaining-length field is not complete, and then the rest of the packet.
pub open spec fn spec_wanted(pending: Seq<u8>) -> nat {
    if pending.len() < 2 {
        (2 - pending.len()) as nat
    } else {
        match spec_varint(pending.drop_first(), 0) {
            Ok((v, n)) => (1 + n + v - pending.len()) as nat,
            Err(_) => if pending.len() < 4 {
                2
            } else {
                1
            },
        }
    }
}

/// The acknowledgement that the binding sends on its own for an inbound packet.
pub open spec fn spec_auto_response(p: PacketView) -> Option<PacketView> {
    match p {
        PacketView::Publish(v) => match v.qos {
            QoS::AtMostOnceDelivery => None,
            QoS::AtLeastOnceDelivery => Some(PacketView::PubAck(v.packet_identifier->0)),
            QoS::ExactlyOnceDelivery => Some(PacketView::PubRec(v.packet_identifier->0)),
        },
        PacketView::PubRec(id) => Some(PacketView::PubRel(id)),
        PacketView::PubRel(id) => Some(PacketView::PubComp(id)),
        _ => None,
    }
}

/// The identifier under which a request waits for its acknowledgement, if
/// the packet is a request that gets one.
pub open spec fn spec_request_identifier(p: PacketView) -> Option<u16> {
    match p {
        PacketView::Publish(v) => v.packet_identifier,
        PacketView::PubRel(id) => Some(id),
        PacketView::Subscribe(v) => Some(v.packet_identifier),
        PacketView::Unsubscribe(v) => Some(v.packet_identifier),
        _ => None,
    }
}

/// The instant at which keep-alive is due, in milliseconds.
pub open spec fn spec_timeout(last_io: u64, keep_alive: u16) -> u64 {
    let interval: int = if keep_alive == 0 { FAR_FUTURE_MS as int } else { keep_alive as int * 1000 };
    if last_io + interval > u64::MAX {
        u64::MAX
    } else {
        (last_io + interval) as u64
    }
}

/// Whether keep-alive asks for a PingReq at `now`.
pub open spec fn spec_ping_due(last_io: u64, keep_alive: u16, now: u64) -> bool {
    keep_alive > 0 && now >= last_io && now - last_io >= keep_alive as int * 1000
}

/// A remaining-length field that needs more bytes has fewer than four.
pub proof fn lemma_short_varint(s: Seq<u8>, d: nat)
    requires
        d <= 3,
    ensures
        spec_varint(s, d) matches Err(DecodingError::NotEnoughBytes { .. }) ==> s.len() + d <= 3,
    decreases 3 - d,
{
    if s.len() > 0 && s[0] >= 128 && d < 3 {
        lemma_short_varint(s.drop_first(), d + 1);
    }
}

/// A remaining-length field cut short asks for more bytes.
pub proof fn lemma_varint_prefix(n: nat, k: int, d: nat)
    requires
        d <= 3,
        n < varint_cap(d),
        0 <= k < varint(n).len(),
    ensures
        spec_varint(varint(n).subrange(0, k), d) matches Err(DecodingError::NotEnoughBytes { .. }),
    decreases n,
{
    let s = varint(n).subrange(0, k);
    if k > 0 {
        assert(n >= 128) by {
            if n < 128 {
                assert(varint(n).len() == 1);
            }
        }
        assert(d < 3);
        assert(s[0] == varint(n)[0]);
        assert(s.drop_first() =~= varint(n / 128).subrange(0, k - 1));
        lemma_varint_prefix(n / 128, k - 1, d + 1);
    }
}

/// Every proper prefix of a packet is incomplete, and the packet itself is
/// complete.
#[verifier::spinoff_prover]
pub proof fn lemma_frame_prefixes(first: u8, body: Seq<u8>, m: int)
    requires
        body.len() <= MAX_REMAINING_LENGTH,
        0 <= m < framed(first, body).len(),
    ensures
        spec_frame_status(framed(first, body).subrange(0, m)) == FrameStatus::Incomplete,
        spec_frame_status(framed(first, body)) == FrameStatus::Complete,
{
    let e = framed(first, body);
    let v = varint(body.len());
    lemma_varint_len(body.len());
    assert(e.drop_first() =~= v + body);
    lemma_varint_round_trip(body.len(), body, 0);
    if m >= 2 {
        let acc = e.subrange(0, m);
        if m - 1 >= v.len() {
            assert(acc.drop_first() =~= v + body.subrange(0, m - 1 - v.len()));
            lemma_varint_round_trip(body.len(), body.subrange(0, m - 1 - v.len()), 0);
        } else {
            assert(acc.drop_first() =~= v.subrange(0, m - 1));
            lemma_varint_prefix(body.len(), m - 1, 0);
        }
    }
}

/// The wire form of every well-formed packet is a frame.
pub proof fn lemma_packet_is_framed(p: PacketView)
    requires
        packet_wf(p),
    ensures
        exists|first: u8, body: Seq<u8>|
            body.len() <= MAX_REMAINING_LENGTH && spec_packet_bytes(p) == #[trigger] framed(first, body),
{
    match p {
        PacketView::Connect(v) => {
            crate::packet::connect::lemma_connect_body_len(v);
            let b = crate::packet::connect::spec_connect_variable_header(v) + crate::packet::connect::spec_connect_payload(v);
            assert(spec_packet_bytes(p) == framed(crate::packet::connect::FIRST_BYTE, b));
        },
        PacketView::ConnAck(v) => {
            let b = seq![if v.session_present { 1u8 } else { 0u8 }, v.return_code.spec_code()];
            assert(spec_packet_bytes(p) == framed(crate::packet::connack::FIRST_BYTE, b));
        },
        PacketView::Publish(v) => {
            let b = crate::packet::publish::spec_publish_body(v);
            assert(spec_packet_bytes(p) == framed(crate::packet::publish::spec_publish_first(v), b));
        },
        PacketView::PubAck(id) => {
            assert(spec_packet_bytes(p) == framed(crate::packet::puback::FIRST_BYTE, crate::encode::be16(id)));
        },
        PacketView::PubRec(id) => {
            assert(spec_packet_bytes(p) == framed(crate::packet::pubrec::FIRST_BYTE, crate::encode::be16(id)));
        },
        PacketView::PubRel(id) => {
            assert(spec_packet_bytes(p) == framed(crate::packet::pubrel::FIRST_BYTE, crate::encode::be16(id)));
        },
        PacketView::PubComp(id) => {
            assert(spec_packet_bytes(p) == framed(crate::packet::pubcomp::FIRST_BYTE, crate::encode::be16(id)));
        },
        PacketView::UnsubAck(id) => {
            assert(spec_packet_bytes(p) == framed(crate::packet::unsuback::FIRST_BYTE, crate::encode::be16(id)));
        },
        PacketView::Subscribe(v) => {
            let b = crate::packet::subscribe::spec_subscribe_body(v);
            assert(spec_packet_bytes(p) == framed(crate::packet::subscribe::FIRST_BYTE, b));
        },
        PacketView::SubAck(v) => {
            let b = crate::packet::suback::spec_suback_body(v);
            assert(spec_packet_bytes(p) == framed(crate::packet::suback::FIRST_BYTE, b));
        },
        PacketView::Unsubscribe(v) => {
            let b = crate::packet::unsubscribe::spec_unsubscribe_body(v);
            assert(spec_packet_bytes(p) == framed(crate::packet::unsubscribe::FIRST_BYTE, b));
        },
        PacketView::PingReq => {
            assert(spec_packet_bytes(p) == framed(crate::packet::ping_req::FIRST_BYTE, Seq::empty()));
        },
        PacketView::PingResp => {
            assert(spec_packet_bytes(p) == framed(crate::packet::ping_resp::FIRST_BYTE, Seq::empty()));
        },
        PacketView::Disconnect => {
            assert(spec_packet_bytes(p) == framed(crate::packet::disconnect::FIRST_BYTE, Seq::empty()));
        },
    }
}

/// Framing: when the bytes of a well-formed packet arrive in pieces cut at
/// any places, every piece but the last leaves the reassembler waiting (the
/// bytes so far are incomplete), and the last one completes exactly that
/// packet. Since a completed packet empties the reassembler, a stream of
/// packets read as `get_read_buffer` asks comes out packet by packet.
pub proof fn lemma_framing(p: PacketView, m: int)
    requires
        packet_wf(p),
        0 <= m < spec_packet_bytes(p).len(),
    ensures
        spec_frame_status(spec_packet_bytes(p).subrange(0, m)) == FrameStatus::Incomplete,
        spec_frame_status(spec_packet_bytes(p)) == FrameStatus::Complete,
        spec_parse_packet(spec_packet_bytes(p)) == Ok::<PacketView, DecodingError>(p),
{
    lemma_packet_is_framed(p);
    let (first, body) = choose|first: u8, body: Seq<u8>|
        body.len() <= MAX_REMAINING_LENGTH && spec_packet_bytes(p) == #[trigger] framed(first, body);
    lemma_frame_prefixes(first, body, m);
    lemma_packet_round_trip(p);
}

/// A read of the size that `get_read_buffer` gives never runs past the end
/// of the packet whose first bytes have arrived.
#[verifier::spinoff_prover]
pub proof fn lemma_reads_stay_in_packet(p: PacketView, m: int)
    requires
        packet_wf(p),
        0 <= m < spec_packet_bytes(p).len(),
    ensures
        m + spec_wanted(spec_packet_bytes(p).subrange(0, m)) <= spec_packet_bytes(p).len(),
        spec_wanted(spec_packet_bytes(p).subrange(0, m)) >= 1,
{
    lemma_packet_is_framed(p);
    let (first, body) = choose|first: u8, body: Seq<u8>|
        body.len() <= MAX_REMAINING_LENGTH && spec_packet_bytes(p) == #[trigger] framed(first, body);
    let e = framed(first, body);
    let v = varint(body.len());
    lemma_varint_len(body.len());
    assert(e.drop_first() =~= v + body);
    if m >= 2 {
        let acc = e.subrange(0, m);
        if m - 1 >= v.len() {
            assert(acc.drop_first() =~= v + body.subrange(0, m - 1 - v.len()));
            lemma_varint_round_trip(body.len(), body.subrange(0, m - 1 - v.len()), 0);
        } else {
            assert(acc.drop_first() =~= v.subrange(0, m - 1));
            lemma_varint_prefix(body.len(), m - 1, 0);
            assert(body.len() >= 128) by {
                if body.len() < 128 {
                    reveal_with_fuel(varint, 1);
                }
            }
            if m >= 4 {
                assert(body.len() >= 16384) by {
                    if body.len() < 16384 {
                        lemma_varint_len(body.len());
                    }
                }
            }
        }
    } else {
        reveal_with_fuel(varint, 1);
    }
}

/// The bytes of a packet that have arrived, as the reassembly state holds them.
pub open spec fn spec_pending(s: State) -> Seq<u8> {
    match s {
        State::StartOfHeader => Seq::empty(),
        State::EndOfHeader { partial_header } => partial_header@,
        State::RestOfPacket { header, .. } => header@,
    }
}

/// The state holds a proper prefix of a packet, in the variant that fits it.
pub open spec fn state_wf(s: State) -> bool {
    match s {
        State::StartOfHeader => true,
        State::EndOfHeader { partial_header } => {
            &&& partial_header@.len() <= 4
            &&& (partial_header@.len() >= 2 ==> spec_varint(partial_header@.drop_first(), 0) is Err)
            &&& spec_frame_status(partial_header@) == FrameStatus::Incomplete
        },
        State::RestOfPacket { header, bytes_remaining } => {
            &&& header@.len() >= 2
            &&& (spec_varint(header@.drop_first(), 0) matches Ok((v, n))
                && bytes_remaining as int == 1 + n + v - header@.len())
            &&& bytes_remaining > 0
        },
    }
}

/// Counters of the traffic, for observation.
#[derive(Debug, Clone, Copy, PartialEq, Eq, Structural)]
pub struct Statistics {
    pub bytes_read: usize,
    pub bytes_sent: usize,
    pub packets_read: usize,
    pub packets_sent: usize,
}

impl Statistics {
    /// No traffic yet.
    pub open spec fn new_spec() -> Statistics {
        Statistics { bytes_read: 0, bytes_sent: 0, packets_read: 0, packets_sent: 0 }
    }

    /// The counters after an inbound packet of `length` bytes.
    pub open spec fn after_inbound(self, length: usize) -> Statistics {
        Statistics {
            bytes_read: self.bytes_read.saturating_add(length),
            packets_read: self.packets_read.saturating_add(1),
            ..self
        }
    }

    /// The counters after an outbound packet of `length` bytes.
    pub open spec fn after_outbound(self, length: usize) -> Statistics {
        Statistics {
            bytes_sent: self.bytes_sent.saturating_add(length),
            packets_sent: self.packets_sent.saturating_add(1),
            ..self
        }
    }

    /// No traffic yet.
    pub fn new() -> (r: Statistics)
        ensures
            r == (Statistics { bytes_read: 0, bytes_sent: 0, packets_read: 0, packets_sent: 0 }),
    {
        Statistics { bytes_read: 0, bytes_sent: 0, packets_read: 0, packets_sent: 0 }
    }

    /// Counts an inbound packet of `length` bytes; the counters saturate.
    pub fn record_inbound_packet(&mut self, length: usize)
        ensures
            *final(self) == old(self).after_inbound(length),
    {
        self.bytes_read = self.bytes_read.saturating_add(length);
        self.packets_read = self.packets_read.saturating_add(1);
    }

    /// Counts an outbound packet of `length` bytes; the counters saturate.
    pub fn record_outbound_packet(&mut self, length: usize)
        ensures
            *final(self) == old(self).after_outbound(length),
    {
        self.bytes_sent = self.bytes_sent.saturating_add(length);
        self.packets_sent = self.packets_sent.saturating_add(1);
    }
}

/// How far `acc` goes towards a packet, and the total length of the packet
/// when the remaining-length field is complete.
pub fn frame_status(acc: &[u8]) -> (r: (FrameStatus, Option<u32>))
    ensures
        r.0 == spec_frame_status(acc@),
        match r.1 {
            Some(total) => acc@.len() >= 2 && (spec_varint(acc@.drop_first(), 0) matches Ok((v, n))
                && total as int == 1 + n + v),
            None => acc@.len() < 2 || spec_varint(acc@.drop_first(), 0) is Err,
        },
{
    if acc.len() < 2 {
        return (FrameStatus::Incomplete, None);
    }
    let rest = slice_subrange(acc, 1, acc.len());
    proof {
        assert(rest@ =~= acc@.drop_first());
    }
    match remaining_length(rest) {
        Err(DecodingError::NotEnoughBytes { .. }) => (FrameStatus::Incomplete, None),
        Err(_) => (FrameStatus::Invalid, None),
        Ok((v, n)) => {
            let total: u32 = 1 + n as u32 + v;
            if (acc.len() as u64) < total as u64 {
                (FrameStatus::Incomplete, Some(total))
            } else if acc.len() as u64 == total as u64 {
                (FrameStatus::Complete, Some(total))
            } else {
                (FrameStatus::Invalid, Some(total))
            }
        },
    }
}

/// What the binding holds, as its contracts see it.
pub struct BindingView {
    pub status: ConnectionStatus,
    pub transmits: Seq<PacketView>,
    pub pending: Seq<u8>,
    pub last_io: u64,
    pub connect: ConnectView,
    pub statistics: Statistics,
}

/// The views of a list of packets.
pub open spec fn packets_view(ps: Seq<Packet>) -> Seq<PacketView> {
    ps.map_values(|p: Packet| p@)
}

/// The sans-I/O MQTT client: the driver feeds it bytes and the time, and
/// takes from it the bytes to send.
pub struct MqttBinding {
    connection_status: ConnectionStatus,
    state: State,
    transmits: Vec<Packet>,
    statistics: Statistics,
    last_io: u64,
    connect: Connect,
}

impl View for MqttBinding {
    type V = BindingView;

    closed spec fn view(&self) -> BindingView {
        BindingView {
            status: self.connection_status,
            transmits: packets_view(self.transmits@),
            pending: spec_pending(self.state),
            last_io: self.last_io,
            connect: self.connect@,
            statistics: self.statistics,
        }
    }
}

impl MqttBinding {
    /// The reassembly state holds a proper prefix of a packet.
    pub closed spec fn wf(&self) -> bool {
        state_wf(self.state)
    }

    /// A binding seeded with `connect`, at the time `now` in milliseconds.
    pub fn from_connect(connect: Connect, now: u64) -> (r: Self)
        ensures
            r@.status == ConnectionStatus::NotConnected,
            r@.transmits == Seq::<PacketView>::empty(),
            r@.pending == Seq::<u8>::empty(),
            r@.last_io == now,
            r@.connect == connect@,
            r@.statistics == Statistics::new_spec(),
            r.wf(),
    {
        let r = MqttBinding {
            connection_status: ConnectionStatus::NotConnected,
            state: State::StartOfHeader,
            transmits: Vec::new(),
            statistics: Statistics::new(),
            last_io: now,
            connect,
        };
        proof {
            assert(packets_view(r.transmits@) =~= Seq::<PacketView>::empty());
        }
        r
    }

    /// Enqueues a PingReq when keep-alive is on and its interval has passed
    /// since the last outbound packet.
    pub fn handle_timeout(&mut self, now: u64)
        requires
            old(self).wf(),
        ensures
            final(self).wf(),
            final(self)@.transmits == if spec_ping_due(old(self)@.last_io, old(self)@.connect.keep_alive, now) {
                old(self)@.transmits.push(PacketView::PingReq)
            } else {
                old(self)@.transmits
            },
            final(self)@ == (BindingView { transmits: final(self)@.transmits, ..old(self)@ }),
    {
        let keep_alive = self.connect.keep_alive() as u64;
        if keep_alive > 0 && now >= self.last_io && now - self.last_io >= keep_alive * 1000 {
            let ghost before = self.transmits@;
            self.transmits.push(Packet::PingReq(PingReq));
            proof {
                assert(packets_view(self.transmits@) =~= packets_view(before).push(PacketView::PingReq));
            }
        }
    }

    /// The instant in milliseconds at which `handle_timeout` is due: the last
    /// outbound packet plus the keep-alive interval, or about thirty years
    /// after it when keep-alive is off.
    pub fn poll_timeout(&self) -> (r: u64)
        ensures
            r == spec_timeout(self@.last_io, self@.connect.keep_alive),
    {
        let keep_alive = self.connect.keep_alive() as u64;
        let interval: u64 = if keep_alive == 0 { FAR_FUTURE_MS } else { keep_alive * 1000 };
        self.last_io.saturating_add(interval)
    }

    /// A zeroed buffer of the size of the next read.
    pub fn get_read_buffer(&self) -> (r: Vec<u8>)
        requires
            self.wf(),
        ensures
            r@.len() == spec_wanted(self@.pending),
            r@.len() >= 1,
            forall|i: int| 0 <= i < r@.len() ==> r@[i] == 0,
    {
        let size: usize = match &self.state {
            State::StartOfHeader => 2,
            State::EndOfHeader { partial_header } => if partial_header.len() < 2 {
                2 - partial_header.len()
            } else if partial_header.len() < 4 {
                2
            } else {
                1
            },
            State::RestOfPacket { bytes_remaining, .. } => *bytes_remaining as usize,
        };
        vec![0u8; size]
    }

    /// The next bytes to send. The first call sends the Connect; until the
    /// ConnAck comes nothing else is sent; then the queue is sent in order.
    /// After a Disconnect has been sent, every call fails.
    pub fn poll_transmits(&mut self, now: u64) -> (r: Result<Option<Vec<u8>>, ClientDisconnected>)
        requires
            old(self).wf(),
        ensures
            final(self).wf(),
            old(self)@.status == ConnectionStatus::Disconnected ==> r is Err && final(self)@ == old(self)@,
            old(self)@.status == ConnectionStatus::NotConnected ==> {
                &&& r matches Ok(Some(b)) && b@ == spec_packet_bytes(PacketView::Connect(old(self)@.connect))
                &&& final(self)@ == (BindingView {
                    status: ConnectionStatus::Connecting,
                    last_io: now,
                    statistics: old(self)@.statistics.after_outbound(spec_packet_bytes(PacketView::Connect(old(self)@.connect)).len() as usize),
                    ..old(self)@
                })
            },
            old(self)@.status == ConnectionStatus::Connecting ==> r == Ok::<Option<Vec<u8>>, ClientDisconnected>(None)
                && final(self)@ == old(self)@,
            old(self)@.status == ConnectionStatus::Connected && old(self)@.transmits.len() == 0
                ==> r == Ok::<Option<Vec<u8>>, ClientDisconnected>(None) && final(self)@ == old(self)@,
            old(self)@.status == ConnectionStatus::Connected && old(self)@.transmits.len() > 0 ==> {
                let p = old(self)@.transmits[0];
                &&& r matches Ok(Some(b)) && b@ == spec_packet_bytes(p)
                &&& final(self)@ == (BindingView {
                    status: if p is Disconnect { ConnectionStatus::Disconnected } else { ConnectionStatus::Connected },
                    transmits: old(self)@.transmits.drop_first(),
                    last_io: now,
                    statistics: old(self)@.statistics.after_outbound(spec_packet_bytes(p).len() as usize),
                    ..old(self)@
                })
            },
    {
        match self.connection_status {
            ConnectionStatus::Disconnected => Err(ClientDisconnected),
            ConnectionStatus::NotConnected => {
                self.connection_status = ConnectionStatus::Connecting;
                let bytes = self.connect.as_bytes();
                self.statistics.record_outbound_packet(bytes.len());
                self.last_io = now;
                Ok(Some(bytes))
            },
            ConnectionStatus::Connecting => Ok(None),
            ConnectionStatus::Connected => {
                if self.transmits.len() == 0 {
                    return Ok(None);
                }
                let ghost before = self.transmits@;
                let packet = self.transmits.remove(0);
                proof {
                    assert(packets_view(self.transmits@) =~= packets_view(before).drop_first());
                }
                if let Packet::Disconnect(_) = &packet {
                    self.connection_status = ConnectionStatus::Disconnected;
                }
                let bytes = packet.into_bytes();
                self.statistics.record_outbound_packet(bytes.len());
                self.last_io = now;
                Ok(Some(bytes))
            },
        }
    }

    /// Enqueues `packet` and gives the identifier under which a request
    /// waits for its acknowledgement, if it is such a request.
    pub fn send(&mut self, packet: Packet) -> (r: Option<u16>)
        requires
            old(self).wf(),
        ensures
            final(self).wf(),
            r == spec_request_identifier(packet@),
            final(self)@ == (BindingView { transmits: old(self)@.transmits.push(packet@), ..old(self)@ }),
    {
        let token = request_identifier(&packet);
        let ghost before = self.transmits@;
        self.transmits.push(packet);
        proof {
            assert(packets_view(self.transmits@) =~= packets_view(before).push(packet@));
        }
        token
    }

    /// Feeds the bytes of one read. Once they complete a packet, the packet
    /// is decoded and returned, the reassembly starts afresh, and the
    /// acknowledgement that the packet asks for is enqueued; an accepted
    /// ConnAck completes the connection. Bytes that cannot start or continue
    /// a packet are dropped, and so is a complete packet that does not decode.
    #[verifier::spinoff_prover]
    pub fn try_decode(&mut self, buf: &[u8], _now: u64) -> (r: Option<Packet>)
        requires
            old(self).wf(),
        ensures
            final(self).wf(),
            final(self)@.pending == spec_feed(old(self)@.pending, buf@).0,
            match r {
                Some(q) => spec_feed(old(self)@.pending, buf@).1 == Some(q@),
                None => spec_feed(old(self)@.pending, buf@).1 is None,
            },
            ({
                let acc = old(self)@.pending + buf@;
                match spec_frame_status(acc) {
                    FrameStatus::Incomplete => r is None && final(self)@ == (BindingView { pending: acc, ..old(self)@ }),
                    FrameStatus::Invalid => r is None
                        && final(self)@ == (BindingView { pending: Seq::empty(), ..old(self)@ }),
                    FrameStatus::Complete => match spec_parse_packet(acc) {
                        Err(_) => r is None && final(self)@ == (BindingView { pending: Seq::empty(), ..old(self)@ }),
                        Ok(p) => {
                            &&& r matches Some(q) && q@ == p
                            &&& final(self)@.pending == Seq::<u8>::empty()
                            &&& final(self)@.transmits == match spec_auto_response(p) {
                                Some(a) => old(self)@.transmits.push(a),
                                None => old(self)@.transmits,
                            }
                            &&& final(self)@.status == if (p matches PacketView::ConnAck(c)
                                && c.return_code == ReturnCode::ConnectionAccepted
                                && old(self)@.status == ConnectionStatus::Connecting) {
                                ConnectionStatus::Connected
                            } else {
                                old(self)@.status
                            }
                            &&& final(self)@.last_io == old(self)@.last_io
                            &&& final(self)@.connect == old(self)@.connect
                            &&& final(self)@.statistics == old(self)@.statistics.after_inbound(acc.len() as usize)
                        },
                    },
                }
            }),
    {
        proof {
            reveal(spec_feed);
        }
        let mut acc: Vec<u8> = match &self.state {
            State::StartOfHeader => Vec::new(),
            State::EndOfHeader { partial_header } => partial_header.clone(),
            State::RestOfPacket { header, .. } => header.clone(),
        };
        proof {
            assert(acc@ =~= spec_pending(self.state));
        }
        crate::encode::put_slice(&mut acc, buf);
        let (status, total) = frame_status(acc.as_slice());
        match status {
            FrameStatus::Incomplete => {
                match total {
                    Some(t) => {
                        let remaining: u32 = t - acc.len() as u32;
                        self.state = State::RestOfPacket { header: acc, bytes_remaining: remaining };
                    },
                    None => {
                        proof {
                            if acc@.len() >= 2 {
                                lemma_short_varint(acc@.drop_first(), 0);
                            }
                        }
                        self.state = State::EndOfHeader { partial_header: acc };
                    },
                }
                None
            },
            FrameStatus::Invalid => {
                self.state = State::StartOfHeader;
                None
            },
            FrameStatus::Complete => {
                self.state = State::StartOfHeader;
                match Packet::try_from(acc.as_slice()) {
                    Err(_) => None,
                    Ok(packet) => {
                        self.statistics.record_inbound_packet(acc.len());
                        self.respond(&packet);
                        Some(packet)
                    },
                }
            },
        }
    }

    /// Enqueues the acknowledgement that an inbound packet asks for, and
    /// completes the connection on an accepted ConnAck.
    fn respond(&mut self, packet: &Packet)
        requires
            old(self).wf(),
        ensures
            final(self).wf(),
            final(self)@.transmits == match spec_auto_response(packet@) {
                Some(a) => old(self)@.transmits.push(a),
                None => old(self)@.transmits,
            },
            final(self)@.status == if (packet@ matches PacketView::ConnAck(c)
                && c.return_code == ReturnCode::ConnectionAccepted
                && old(self)@.status == ConnectionStatus::Connecting) {
                ConnectionStatus::Connected
            } else {
                old(self)@.status
            },
            final(self)@.pending == old(self)@.pending,
            final(self)@.last_io == old(self)@.last_io,
            final(self)@.connect == old(self)@.connect,
            final(self)@.statistics == old(self)@.statistics,
    {
        let ghost before = self.transmits@;
        let response: Option<Packet> = match packet {
            Packet::Publish(p) => match (p.qos(), p.packet_identifier()) {
                (QoS::AtLeastOnceDelivery, Some(id)) => Some(Packet::PubAck(PubAck::new(id))),
                (QoS::ExactlyOnceDelivery, Some(id)) => Some(Packet::PubRec(PubRec::new(id))),
                _ => None,
            },
            Packet::PubRec(p) => Some(Packet::PubRel(PubRel::new(p.packet_identifier()))),
            Packet::PubRel(p) => Some(Packet::PubComp(PubComp::new(p.packet_identifier()))),
            Packet::ConnAck(c) => {
                if c.return_code() == ReturnCode::ConnectionAccepted
                    && self.connection_status == ConnectionStatus::Connecting {
                    self.connection_status = ConnectionStatus::Connected;
                }
                None
            },
            _ => None,
        };
        if let Some(a) = response {
            self.transmits.push(a);
            proof {
                assert(packets_view(self.transmits@) =~= packets_view(before).push(a@));
            }
        }
    }

    /// The traffic counters.
    pub fn statistics(&self) -> (r: Statistics)
        ensures
            r == self@.statistics,
    {
        self.statistics
    }

    /// Where the connection stands.
    pub fn connection_status(&self) -> (r: ConnectionStatus)
        ensures
            r == self@.status,
    {
        self.connection_status
    }
}

/// The identifier under which a request waits for its acknowledgement.
pub fn request_identifier(packet: &Packet) -> (r: Option<u16>)
    ensures
        r == spec_request_identifier(packet@),
{
    match packet {
        Packet::Publish(p) => p.packet_identifier(),
        Packet::PubRel(p) => Some(p.packet_identifier()),
        Packet::Subscribe(p) => Some(p.packet_identifier()),
        Packet::Unsubscribe(p) => Some(p.packet_identifier()),
        _ => None,
    }
}

/// What feeding `buf` to a reassembler that holds `pending` does: the bytes
/// it holds afterwards, and the packet that comes out, if any.
#[verifier::opaque]
pub open spec fn spec_feed(pending: Seq<u8>, buf: Seq<u8>) -> (Seq<u8>, Option<PacketView>) {
    let acc = pending + buf;
    match spec_frame_status(acc) {
        FrameStatus::Incomplete => (acc, None),
        FrameStatus::Invalid => (Seq::empty(), None),
        FrameStatus::Complete => (Seq::empty(), match spec_parse_packet(acc) {
            Ok(p) => Some(p),
            Err(_) => None,
        }),
    }
}

/// The packets that come out when a driver reads `stream` in pieces: each
/// read takes what the reassembler asks for, but at most the next of
/// `sizes` (how much the transport hands over at a time).
pub open spec fn spec_drive(pending: Seq<u8>, stream: Seq<u8>, sizes: Seq<nat>) -> Seq<PacketView>
    decreases sizes.len(),
{
    if sizes.len() == 0 || stream.len() == 0 {
        Seq::empty()
    } else {
        let w = spec_wanted(pending);
        let n = if w <= sizes[0] && w <= stream.len() {
            w
        } else if sizes[0] <= stream.len() {
            sizes[0]
        } else {
            stream.len()
        };
        let (next, out) = spec_feed(pending, stream.take(n as int));
        (match out {
            Some(p) => seq![p],
            None => Seq::empty(),
        }) + spec_drive(next, stream.skip(n as int), sizes.drop_first())
    }
}

/// The wire forms of a sequence of packets, one after the other.
pub open spec fn spec_stream(ps: Seq<PacketView>) -> Seq<u8>
    decreases ps.len(),
{
    if ps.len() == 0 {
        Seq::empty()
    } else {
        spec_packet_bytes(ps[0]) + spec_stream(ps.drop_first())
    }
}

/// Driving from inside the first packet of a stream gives the packets.
#[verifier::spinoff_prover]
#[verifier::rlimit(40)]
proof fn lemma_drive(ps: Seq<PacketView>, m: int, sizes: Seq<nat>)
    requires
        forall|i: int| 0 <= i < ps.len() ==> packet_wf(#[trigger] ps[i]),
        forall|i: int| 0 <= i < sizes.len() ==> #[trigger] sizes[i] >= 1,
        ps.len() == 0 ==> m == 0,
        ps.len() > 0 ==> 0 <= m < spec_packet_bytes(ps[0]).len(),
        sizes.len() >= spec_stream(ps).len() - m,
    ensures
        spec_drive(
            if ps.len() == 0 { Seq::empty() } else { spec_packet_bytes(ps[0]).subrange(0, m) },
            spec_stream(ps).skip(m),
            sizes,
        ) == ps,
    decreases sizes.len(),
{
    if ps.len() == 0 {
        assert(spec_stream(ps).skip(m) =~= Seq::<u8>::empty());
        assert(ps =~= Seq::<PacketView>::empty());
    } else {
        let e = spec_packet_bytes(ps[0]);
        let rest = spec_stream(ps.drop_first());
        let stream = spec_stream(ps).skip(m);
        let pending = e.subrange(0, m);
        assert(spec_stream(ps) == e + rest);
        assert(stream =~= e.skip(m) + rest);
        lemma_reads_stay_in_packet(ps[0], m);
        let w = spec_wanted(pending);
        assert(sizes.len() >= 1);
        let n: int = if w <= sizes[0] && w <= stream.len() {
            w as int
        } else if sizes[0] <= stream.len() {
            sizes[0] as int
        } else {
            stream.len() as int
        };
        assert(1 <= n <= e.len() - m);
        assert(stream.take(n) =~= e.subrange(m, m + n));
        assert(pending + stream.take(n) =~= e.subrange(0, m + n));
        assert(stream.skip(n) =~= spec_stream(ps).skip(m + n));
        lemma_feed_step(ps[0], m, n);
        if m + n == e.len() {
            assert(e.subrange(0, m + n) =~= e);
            assert(spec_stream(ps).skip(m + n) =~= rest);
            let tail = ps.drop_first();
            lemma_tails(ps, sizes);
            if tail.len() > 0 {
                lemma_packet_nonempty(tail[0]);
                assert(spec_stream(tail) == spec_packet_bytes(tail[0]) + spec_stream(tail.drop_first()));
                assert(spec_packet_bytes(tail[0]).subrange(0, 0) =~= Seq::<u8>::empty());
            }
            assert(rest.skip(0) =~= rest);
            lemma_drive(tail, 0, sizes.drop_first());
            assert(seq![ps[0]] + tail =~= ps);
        } else {
            assert(spec_stream(ps).skip(m + n) == stream.skip(n));
            lemma_tails(ps, sizes);
            lemma_drive(ps, m + n, sizes.drop_first());
            assert(Seq::<PacketView>::empty() + ps =~= ps);
        }
    }
}

/// Feeding the next bytes of a packet keeps them until the packet is
/// complete, and then gives the packet.
proof fn lemma_feed_step(p: PacketView, m: int, n: int)
    requires
        packet_wf(p),
        0 <= m,
        1 <= n,
        m + n <= spec_packet_bytes(p).len(),
    ensures
        ({
            let e = spec_packet_bytes(p);
            spec_feed(e.subrange(0, m), e.subrange(m, m + n)) == if m + n == e.len() {
                (Seq::<u8>::empty(), Some(p))
            } else {
                (e.subrange(0, m + n), None::<PacketView>)
            }
        }),
{
    reveal(spec_feed);
    let e = spec_packet_bytes(p);
    assert(e.subrange(0, m) + e.subrange(m, m + n) =~= e.subrange(0, m + n));
    if m + n == e.len() {
        lemma_framing(p, 0);
        assert(e.subrange(0, m + n) =~= e);
    } else {
        lemma_framing(p, m + n);
    }
}

/// What holds of every packet and every size holds of the tails.
proof fn lemma_tails(ps: Seq<PacketView>, sizes: Seq<nat>)
    requires
        ps.len() > 0,
        sizes.len() > 0,
        forall|i: int| 0 <= i < ps.len() ==> packet_wf(#[trigger] ps[i]),
        forall|i: int| 0 <= i < sizes.len() ==> #[trigger] sizes[i] >= 1,
    ensures
        forall|i: int| 0 <= i < ps.drop_first().len() ==> packet_wf(#[trigger] ps.drop_first()[i]),
        forall|i: int| 0 <= i < sizes.drop_first().len() ==> #[trigger] sizes.drop_first()[i] >= 1,
{
    assert forall|i: int| 0 <= i < ps.drop_first().len() implies packet_wf(#[trigger] ps.drop_first()[i]) by {
        assert(ps.drop_first()[i] == ps[i + 1]);
    }
    assert forall|i: int| 0 <= i < sizes.drop_first().len() implies #[trigger] sizes.drop_first()[i] >= 1 by {
        assert(sizes.drop_first()[i] == sizes[i + 1]);
    }
}

/// Every packet takes at least two bytes.
proof fn lemma_packet_nonempty(p: PacketView)
    requires
        packet_wf(p),
    ensures
        spec_packet_bytes(p).len() >= 2,
{
    lemma_framing(p, 0);
}

/// Framing: a stream of well-formed packets, handed over by the transport
/// in pieces of any sizes and read as the reassembler asks, comes out as
/// exactly the packets of the stream, in order.
pub proof fn lemma_stream_framing(ps: Seq<PacketView>, sizes: Seq<nat>)
    requires
        forall|i: int| 0 <= i < ps.len() ==> packet_wf(#[trigger] ps[i]),
        forall|i: int| 0 <= i < sizes.len() ==> #[trigger] sizes[i] >= 1,
        sizes.len() >= spec_stream(ps).len(),
    ensures
        spec_drive(Seq::empty(), spec_stream(ps), sizes) == ps,
{
    if ps.len() > 0 {
        lemma_packet_nonempty(ps[0]);
        assert(spec_packet_bytes(ps[0]).subrange(0, 0) =~= Seq::<u8>::empty());
    }
    assert(spec_stream(ps).skip(0) =~= spec_stream(ps));
    lemma_drive(ps, 0, sizes);
}

/// Keep-alive: with an interval of `k > 0` seconds, a call of
/// `handle_timeout` at least `k` seconds after the last outbound packet
/// enqueues one PingReq; with `k = 0` no call ever does.
pub proof fn lemma_keep_alive(last_io: u64, k: u16, now: u64)
    ensures
        k > 0 && now as int >= last_io as int + k as int * 1000 ==> spec_ping_due(last_io, k, now),
        k > 0 && (now as int) < last_io as int + k as int * 1000 ==> !spec_ping_due(last_io, k, now),
        k == 0 ==> !spec_ping_due(last_io, k, now),
{
}

/// With keep-alive off nothing in the binding ever queues a PingReq: no
/// call of `handle_timeout` finds one due, and no inbound packet is answered
/// with one. So a PingReq is sent only if the application queues one.
pub proof fn lemma_no_ping_without_keep_alive(p: PacketView, last_io: u64, now: u64)
    ensures
        !spec_ping_due(last_io, 0, now),
        spec_auto_response(p) != Some(PacketView::PingReq),
{
}

/// The QoS automaton: an inbound Publish with QoS 1 is answered by one
/// PubAck with its identifier, one with QoS 2 by one PubRec, a PubRel by one
/// PubComp, and a Publish with QoS 0 by nothing.
pub proof fn lemma_qos_automaton(v: crate::packet::publish::PublishView, id: u16)
    requires
        crate::packet::publish::publish_wf(v),
    ensures
        v.qos == QoS::AtMostOnceDelivery ==> spec_auto_response(PacketView::Publish(v)) is None,
        v.qos == QoS::AtLeastOnceDelivery ==> spec_auto_response(PacketView::Publish(v))
            == Some(PacketView::PubAck(v.packet_identifier->0)),
        v.qos == QoS::ExactlyOnceDelivery ==> spec_auto_response(PacketView::Publish(v))
            == Some(PacketView::PubRec(v.packet_identifier->0)),
        v.qos != QoS::AtMostOnceDelivery ==> v.packet_identifier is Some,
        spec_auto_response(PacketView::PubRel(id)) == Some(PacketView::PubComp(id)),
        spec_auto_response(PacketView::PubComp(id)) is None,
{
}

} // verus!
