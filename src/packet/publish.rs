//! The Publish packet, which carries an application message.
use crate::decode::{
    field, frame, lemma_frame_inverse, lemma_frame_round_trip, lemma_u16_inverse, lemma_utf8_field_inverse, lemma_u16_round_trip, lemma_utf8_field_round_trip,
    spec_frame, spec_u16, spec_utf8_field, DecodingError, Reason,
};
use crate::encode::{be16, frame_bytes, framed, length_prefixed, put_slice, put_u16, MAX_REMAINING_LENGTH};
use crate::packet::{Packet, PacketType, QoS};
use vstd::prelude::*;
use vstd::slice::{slice_subrange, slice_to_vec};
use vstd::utf8::encode_utf8;

verus! {

/// What a Publish says.
pub struct PublishView {
    pub topic: Seq<char>,
    pub payload: Seq<u8>,
    pub qos: QoS,
    pub retain: bool,
    pub duplicate: bool,
    pub packet_identifier: Option<u16>,
}

/// No byte is one of the wildcards `#` and `+`.
pub open spec fn no_wildcards(b: Seq<u8>) -> bool {
    forall|i: int| 0 <= i < b.len() ==> b[i] != 35u8 && b[i] != 43u8
}

/// The flags in the low nibble of the first byte: DUP, QoS and RETAIN.
pub open spec fn spec_publish_first(v: PublishView) -> u8 {
    (48 + (if v.duplicate { 8int } else { 0 }) + v.qos.spec_code() * 2 + (if v.retain { 1int } else { 0 })) as u8
}

/// The packet identifier as it stands in the variable header, if any.
pub open spec fn spec_identifier_bytes(id: Option<u16>) -> Seq<u8> {
    match id {
        Some(n) => be16(n),
        None => Seq::empty(),
    }
}

/// The body of a Publish: topic, packet identifier if any, payload.
pub open spec fn spec_publish_body(v: PublishView) -> Seq<u8> {
    length_prefixed(encode_utf8(v.topic)) + spec_identifier_bytes(v.packet_identifier) + v.payload
}

/// The wire form of a Publish.
pub open spec fn spec_publish_bytes(v: PublishView) -> Seq<u8> {
    framed(spec_publish_first(v), spec_publish_body(v))
}

/// A topic and a payload that fit in a Publish whatever its QoS.
pub open spec fn publish_fits(topic: Seq<char>, payload: Seq<u8>) -> bool {
    &&& encode_utf8(topic).len() <= 65535
    &&& no_wildcards(encode_utf8(topic))
    &&& 4 + encode_utf8(topic).len() + payload.len() <= MAX_REMAINING_LENGTH
}

/// The rules that every Publish keeps.
pub open spec fn publish_wf(v: PublishView) -> bool {
    &&& encode_utf8(v.topic).len() <= 65535
    &&& no_wildcards(encode_utf8(v.topic))
    &&& (v.qos == QoS::AtMostOnceDelivery <==> v.packet_identifier is None)
    &&& (v.qos == QoS::AtMostOnceDelivery ==> !v.duplicate)
    &&& spec_publish_body(v).len() <= MAX_REMAINING_LENGTH
}

/// Decodes a Publish.
pub open spec fn spec_parse_publish(s: Seq<u8>) -> Result<PublishView, DecodingError> {
    match spec_frame(s) {
        Err(e) => Err(e),
        Ok((f, body)) => if f / 16 != 3 {
            Err(DecodingError::InvalidPacketType(f))
        } else {
            match QoS::spec_from_code((f / 2) % 4) {
                None => Err(DecodingError::InvalidValue(Reason::QoS)),
                Some(qos) => if qos == QoS::AtMostOnceDelivery && f % 16 >= 8 {
                    Err(DecodingError::HeaderContainsInvalidFlags)
                } else {
                    match spec_utf8_field(body) {
                        Err(e) => Err(e),
                        Ok((topic, n)) => if !no_wildcards(body.subrange(2, n as int)) {
                            Err(DecodingError::InvalidValue(Reason::Wildcard))
                        } else if qos == QoS::AtMostOnceDelivery {
                            Ok(PublishView {
                                topic,
                                payload: body.subrange(n as int, body.len() as int),
                                qos,
                                retain: f % 2 == 1,
                                duplicate: false,
                                packet_identifier: None,
                            })
                        } else {
                            match spec_u16(body.subrange(n as int, body.len() as int)) {
                                Err(e) => Err(e),
                                Ok(id) => Ok(PublishView {
                                    topic,
                                    payload: body.subrange((n + 2) as int, body.len() as int),
                                    qos,
                                    retain: f % 2 == 1,
                                    duplicate: f % 16 >= 8,
                                    packet_identifier: Some(id),
                                }),
                            }
                        },
                    }
                },
            }
        },
    }
}

/// The fields of the first byte are read back from it.
proof fn lemma_publish_first(v: PublishView)
    ensures
        spec_publish_first(v) / 16 == 3,
        QoS::spec_from_code(((spec_publish_first(v) / 2) % 4) as u8) == Some(v.qos),
        (spec_publish_first(v) % 16 >= 8) == v.duplicate,
        (spec_publish_first(v) % 2 == 1) == v.retain,
{
    let d: int = if v.duplicate { 8 } else { 0 };
    let r: int = if v.retain { 1 } else { 0 };
    let q: int = v.qos.spec_code() as int;
    let f: int = 48 + d + q * 2 + r;
    assert(0 <= q <= 2);
    assert(f / 16 == 3);
    assert((f / 2) % 4 == q);
    assert(f % 16 >= 8 <==> v.duplicate);
    assert(f % 2 == 1 <==> v.retain);
}

/// Every well-formed Publish decodes from its wire form to what it says.
#[verifier::spinoff_prover]
pub proof fn lemma_round_trip(v: PublishView)
    requires
        publish_wf(v),
    ensures
        spec_parse_publish(spec_publish_bytes(v)) == Ok::<PublishView, DecodingError>(v),
{
    let first = spec_publish_first(v);
    let body = spec_publish_body(v);
    let t = encode_utf8(v.topic);
    let idb = spec_identifier_bytes(v.packet_identifier);
    lemma_publish_first(v);
    lemma_frame_round_trip(first, body);
    assert(body =~= length_prefixed(t) + (idb + v.payload));
    lemma_utf8_field_round_trip(v.topic, idb + v.payload);
    let n = t.len() + 2;
    assert(body.subrange(2, n as int) =~= t);
    assert(body.subrange(n as int, body.len() as int) =~= idb + v.payload);
    if let Some(id) = v.packet_identifier {
        lemma_u16_round_trip(id, v.payload);
        assert(body.subrange((n + 2) as int, body.len() as int) =~= v.payload);
    } else {
        assert(body.subrange(n as int, body.len() as int) =~= v.payload);
    }
}

/// A Publish that decodes is the encoding of what it says: decoding keeps
/// the received bytes.
#[verifier::spinoff_prover]
pub proof fn lemma_decode_encode(s: Seq<u8>)
    ensures
        spec_parse_publish(s) matches Ok(v) ==> spec_publish_bytes(v) == s,
{
    lemma_frame_inverse(s);
    if let Ok(v) = spec_parse_publish(s) {
        let (f, body) = spec_frame(s)->Ok_0;
        let q = v.qos.spec_code() as int;
        assert(q == (f / 2) % 4);
        assert(v.qos == QoS::AtMostOnceDelivery ==> f % 16 < 8);
        let d: int = if v.duplicate { 8 } else { 0 };
        let r: int = if v.retain { 1 } else { 0 };
        assert(f as int == 48 + d + q * 2 + r);
        assert(spec_publish_first(v) == f);
        lemma_utf8_field_inverse(body);
        let n = spec_utf8_field(body)->Ok_0.1;
        let rest = body.subrange(n as int, body.len() as int);
        lemma_u16_inverse(rest);
        assert(body =~= body.subrange(0, n as int) + rest);
        if v.qos == QoS::AtMostOnceDelivery {
            assert(rest =~= spec_identifier_bytes(v.packet_identifier) + v.payload);
        } else {
            assert(rest =~= rest.subrange(0, 2) + v.payload);
        }
        assert(body =~= spec_publish_body(v));
    }
}

/// Checks that no byte is a wildcard.
pub fn has_no_wildcards(b: &[u8]) -> (r: bool)
    ensures
        r == no_wildcards(b@),
{
    let mut i: usize = 0;
    while i < b.len()
        invariant
            0 <= i <= b@.len(),
            forall|j: int| 0 <= j < i ==> b@[j] != 35u8 && b@[j] != 43u8,
        decreases b@.len() - i,
    {
        if b[i] == 35 || b[i] == 43 {
            return false;
        }
        i = i + 1;
    }
    true
}

/// An application message on a topic.
#[derive(Debug, PartialEq, Eq)]
pub struct Publish {
    topic: String,
    payload: Vec<u8>,
    qos: QoS,
    retain: bool,
    duplicate: bool,
    packet_identifier: Option<u16>,
}

impl View for Publish {
    type V = PublishView;

    closed spec fn view(&self) -> PublishView {
        PublishView {
            topic: self.topic@,
            payload: self.payload@,
            qos: self.qos,
            retain: self.retain,
            duplicate: self.duplicate,
            packet_identifier: self.packet_identifier,
        }
    }
}

impl Clone for Publish {
    fn clone(&self) -> (r: Self)
        ensures
            r@ == self@,
    {
        proof {
            use_type_invariant(self);
        }
        let payload = self.payload.clone();
        proof {
            assert(payload@ =~= self.payload@);
        }
        Publish {
            topic: self.topic.clone(),
            payload,
            qos: self.qos,
            retain: self.retain,
            duplicate: self.duplicate,
            packet_identifier: self.packet_identifier,
        }
    }
}

impl Publish {
    #[verifier::type_invariant]
    closed spec fn inv(&self) -> bool {
        publish_wf(self@)
    }

    /// A builder for a Publish of `payload` on `topic`, with QoS 0 and
    /// neither RETAIN nor DUP.
    pub fn builder(topic: &str, payload: &[u8]) -> (r: Builder)
        requires
            publish_fits(topic@, payload@),
        ensures
            r@ == (PublishView {
                topic: topic@,
                payload: payload@,
                qos: QoS::AtMostOnceDelivery,
                retain: false,
                duplicate: false,
                packet_identifier: None,
            }),
    {
        Builder::new(topic, payload)
    }

    /// The topic.
    pub fn topic(&self) -> (r: &str)
        ensures
            r@ == self@.topic,
    {
        self.topic.as_str()
    }

    /// The application message.
    pub fn payload(&self) -> (r: &[u8])
        ensures
            r@ == self@.payload,
    {
        self.payload.as_slice()
    }

    /// The quality-of-service level.
    pub fn qos(&self) -> (r: QoS)
        ensures
            r == self@.qos,
    {
        self.qos
    }

    /// Whether the server keeps the message for later subscribers.
    pub fn retain(&self) -> (r: bool)
        ensures
            r == self@.retain,
    {
        self.retain
    }

    /// Whether this is a new attempt to deliver an earlier message.
    pub fn duplicate(&self) -> (r: bool)
        ensures
            r == self@.duplicate,
    {
        self.duplicate
    }

    /// The packet identifier, present exactly when QoS is above 0.
    pub fn packet_identifier(&self) -> (r: Option<u16>)
        ensures
            r == self@.packet_identifier,
            publish_wf(self@),
    {
        proof {
            use_type_invariant(self);
        }
        self.packet_identifier
    }

    /// The type of the packet.
    pub fn packet_type(&self) -> (r: PacketType)
        ensures
            r == PacketType::Publish,
    {
        PacketType::Publish
    }

    /// The variable header: the topic and the packet identifier, if any.
    pub fn variable_header(&self) -> (r: Vec<u8>)
        ensures
            r@ == length_prefixed(encode_utf8(self@.topic)) + spec_identifier_bytes(self@.packet_identifier),
    {
        proof {
            use_type_invariant(self);
        }
        let mut r = crate::encode::utf8(self.topic.as_str());
        if let Some(id) = self.packet_identifier {
            put_u16(&mut r, id);
        } else {
            proof {
                assert(r@ =~= r@ + spec_identifier_bytes(self@.packet_identifier));
            }
        }
        r
    }

    /// The body of the packet.
    fn body(&self) -> (r: Vec<u8>)
        ensures
            r@ == spec_publish_body(self@),
    {
        let mut r = self.variable_header();
        put_slice(&mut r, self.payload.as_slice());
        r
    }

    /// The first byte of the packet.
    fn first_byte(&self) -> (r: u8)
        ensures
            r == spec_publish_first(self@),
    {
        let dup: u8 = if self.duplicate { 8 } else { 0 };
        let retain: u8 = if self.retain { 1 } else { 0 };
        48 + dup + self.qos.code() * 2 + retain
    }

    /// The wire form of the packet.
    pub fn as_bytes(&self) -> (r: Vec<u8>)
        ensures
            r@ == spec_publish_bytes(self@),
    {
        proof {
            use_type_invariant(self);
        }
        let body = self.body();
        frame_bytes(self.first_byte(), body.as_slice())
    }

    /// The wire form of the packet.
    pub fn into_bytes(self) -> (r: Vec<u8>)
        ensures
            r@ == spec_publish_bytes(self@),
    {
        self.as_bytes()
    }

    /// The number of bytes of the wire form.
    pub fn length(&self) -> (r: usize)
        ensures
            r == spec_publish_bytes(self@).len(),
    {
        let b = self.as_bytes();
        b.len()
    }

    /// Decodes a Publish.
    pub fn try_from(bytes: &[u8]) -> (r: Result<Publish, DecodingError>)
        ensures
            match r {
                Ok(p) => spec_parse_publish(bytes@) == Ok::<PublishView, DecodingError>(p@)
                    && spec_publish_bytes(p@) == bytes@,
                Err(e) => spec_parse_publish(bytes@) == Err::<PublishView, DecodingError>(e),
            },
    {
        proof {
            lemma_decode_encode(bytes@);
        }
        let (f, body) = match frame(bytes) {
            Err(e) => return Err(e),
            Ok(x) => x,
        };
        if f / 16 != 3 {
            return Err(DecodingError::InvalidPacketType(f));
        }
        let qos = match QoS::try_from_byte((f / 2) % 4) {
            Err(_) => return Err(DecodingError::InvalidValue(Reason::QoS)),
            Ok(q) => q,
        };
        let at_most_once = qos == QoS::AtMostOnceDelivery;
        if at_most_once && f % 16 >= 8 {
            return Err(DecodingError::HeaderContainsInvalidFlags);
        }
        let (topic, n) = match field::utf8(body) {
            Err(e) => return Err(e),
            Ok(x) => x,
        };
        if !has_no_wildcards(slice_subrange(body, 2, n)) {
            return Err(DecodingError::InvalidValue(Reason::Wildcard));
        }
        if at_most_once {
            let payload = slice_to_vec(slice_subrange(body, n, body.len()));
            Ok(Publish {
                topic: topic.to_owned(),
                payload,
                qos,
                retain: f % 2 == 1,
                duplicate: false,
                packet_identifier: None,
            })
        } else {
            let id = match crate::decode::u16(slice_subrange(body, n, body.len())) {
                Err(e) => return Err(e),
                Ok(id) => id,
            };
            let payload = slice_to_vec(slice_subrange(body, n + 2, body.len()));
            Ok(Publish {
                topic: topic.to_owned(),
                payload,
                qos,
                retain: f % 2 == 1,
                duplicate: f % 16 >= 8,
                packet_identifier: Some(id),
            })
        }
    }
}

/// Builds a Publish.
#[derive(Debug)]
pub struct Builder {
    topic: String,
    payload: Vec<u8>,
    qos: QoS,
    retain: bool,
    duplicate: bool,
    packet_identifier: Option<u16>,
}

impl View for Builder {
    type V = PublishView;

    closed spec fn view(&self) -> PublishView {
        PublishView {
            topic: self.topic@,
            payload: self.payload@,
            qos: self.qos,
            retain: self.retain,
            duplicate: self.duplicate,
            packet_identifier: self.packet_identifier,
        }
    }
}

impl Builder {
    #[verifier::type_invariant]
    closed spec fn inv(&self) -> bool {
        publish_fits(self@.topic, self@.payload)
    }

    /// A builder for a Publish of `payload` on `topic`, with QoS 0 and
    /// neither RETAIN nor DUP.
    pub fn new(topic: &str, payload: &[u8]) -> (r: Self)
        requires
            publish_fits(topic@, payload@),
        ensures
            r@ == (PublishView {
                topic: topic@,
                payload: payload@,
                qos: QoS::AtMostOnceDelivery,
                retain: false,
                duplicate: false,
                packet_identifier: None,
            }),
    {
        Builder {
            topic: topic.to_owned(),
            payload: slice_to_vec(payload),
            qos: QoS::AtMostOnceDelivery,
            retain: false,
            duplicate: false,
            packet_identifier: None,
        }
    }

    /// Sets the quality-of-service level.
    pub fn qos(self, qos: QoS) -> (r: Self)
        ensures
            r@ == (PublishView { qos, ..self@ }),
    {
        proof {
            use_type_invariant(&self);
        }
        Builder { qos, ..self }
    }

    /// Sets RETAIN.
    pub fn retain(self, retain: bool) -> (r: Self)
        ensures
            r@ == (PublishView { retain, ..self@ }),
    {
        proof {
            use_type_invariant(&self);
        }
        Builder { retain, ..self }
    }

    /// Sets DUP; it is only encoded when QoS is above 0.
    pub fn duplicate(self, duplicate: bool) -> (r: Self)
        ensures
            r@ == (PublishView { duplicate, ..self@ }),
    {
        proof {
            use_type_invariant(&self);
        }
        Builder { duplicate, ..self }
    }

    /// Sets the packet identifier; it is only encoded when QoS is above 0.
    pub fn packet_identifier(self, id: u16) -> (r: Self)
        ensures
            r@ == (PublishView { packet_identifier: Some(id), ..self@ }),
    {
        proof {
            use_type_invariant(&self);
        }
        Builder { packet_identifier: Some(id), ..self }
    }

    /// The Publish. At QoS 0 it has neither packet identifier nor DUP; above,
    /// it has the identifier that was set, or else one taken from the clock.
    pub fn build(self) -> (r: Publish)
        ensures
            r@.topic == self@.topic,
            r@.payload == self@.payload,
            r@.qos == self@.qos,
            r@.retain == self@.retain,
            r@.duplicate == (self@.duplicate && self@.qos != QoS::AtMostOnceDelivery),
            self@.qos == QoS::AtMostOnceDelivery ==> r@.packet_identifier is None,
            self@.qos != QoS::AtMostOnceDelivery ==> r@.packet_identifier is Some,
            self@.qos != QoS::AtMostOnceDelivery && self@.packet_identifier is Some
                ==> r@.packet_identifier == self@.packet_identifier,
            publish_wf(r@),
    {
        proof {
            use_type_invariant(&self);
        }
        if self.qos == QoS::AtMostOnceDelivery {
            let r = Publish {
                topic: self.topic,
                payload: self.payload,
                qos: self.qos,
                retain: self.retain,
                duplicate: false,
                packet_identifier: None,
            };
            proof {
                assert(spec_publish_body(r@).len() == 2 + encode_utf8(r@.topic).len() + r@.payload.len());
            }
            r
        } else {
            let id = match self.packet_identifier {
                Some(id) => id,
                None => crate::packet_identifier(),
            };
            let r = Publish {
                topic: self.topic,
                payload: self.payload,
                qos: self.qos,
                retain: self.retain,
                duplicate: self.duplicate,
                packet_identifier: Some(id),
            };
            proof {
                assert(spec_publish_body(r@).len() == 4 + encode_utf8(r@.topic).len() + r@.payload.len());
            }
            r
        }
    }

    /// The Publish, as a packet.
    pub fn build_packet(self) -> (r: Packet)
        ensures
            r matches Packet::Publish(p) && publish_wf(p@) && p@.topic == self@.topic && p@.payload == self@.payload
                && p@.qos == self@.qos,
    {
        Packet::Publish(self.build())
    }
}

} // verus!
