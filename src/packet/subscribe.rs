//! The Subscribe packet, with which a client asks for the messages on topic
//! filters.
use crate::decode::{
    field, frame, lemma_frame_inverse, lemma_frame_round_trip, lemma_u16_inverse, lemma_utf8_field_inverse, lemma_u16_round_trip, lemma_utf8_field_round_trip,
    spec_frame, spec_u16, spec_utf8_field, DecodingError, Reason,
};
use crate::encode::{be16, frame_bytes, framed, length_prefixed, put_slice, put_u16, MAX_REMAINING_LENGTH};
use crate::packet::{Packet, PacketType, QoS};
use vstd::prelude::*;
use vstd::slice::slice_subrange;
use vstd::string::StringSliceAdditionalSpecFns;
use vstd::utf8::encode_utf8;

verus! {

/// The first byte of every Subscribe.
pub const FIRST_BYTE: u8 = 130;

/// What a Subscribe says: its identifier and its topic filters with the QoS
/// asked for each.
pub struct SubscribeView {
    pub packet_identifier: u16,
    pub topics: Seq<(Seq<char>, QoS)>,
}

/// The wire form of one entry: the filter, then the QoS byte.
pub open spec fn spec_entry(e: (Seq<char>, QoS)) -> Seq<u8> {
    length_prefixed(encode_utf8(e.0)) + seq![e.1.spec_code()]
}

/// The wire form of a list of entries.
pub open spec fn spec_entries(ts: Seq<(Seq<char>, QoS)>) -> Seq<u8>
    decreases ts.len(),
{
    if ts.len() == 0 {
        Seq::empty()
    } else {
        spec_entry(ts[0]) + spec_entries(ts.drop_first())
    }
}

/// The body of a Subscribe.
pub open spec fn spec_subscribe_body(v: SubscribeView) -> Seq<u8> {
    be16(v.packet_identifier) + spec_entries(v.topics)
}

/// The wire form of a Subscribe.
pub open spec fn spec_subscribe_bytes(v: SubscribeView) -> Seq<u8> {
    framed(FIRST_BYTE, spec_subscribe_body(v))
}

/// Every filter fits its length prefix.
pub open spec fn filters_fit(ts: Seq<(Seq<char>, QoS)>) -> bool {
    forall|i: int| 0 <= i < ts.len() ==> encode_utf8(#[trigger] ts[i].0).len() <= 65535
}

/// The rules that every Subscribe keeps.
pub open spec fn subscribe_wf(v: SubscribeView) -> bool {
    &&& v.topics.len() >= 1
    &&& filters_fit(v.topics)
    &&& spec_subscribe_body(v).len() <= MAX_REMAINING_LENGTH
}

/// The entries read so far, followed by what reading the rest gives.
pub open spec fn prepend_entries(
    acc: Seq<(Seq<char>, QoS)>,
    r: Result<Seq<(Seq<char>, QoS)>, DecodingError>,
) -> Result<Seq<(Seq<char>, QoS)>, DecodingError> {
    match r {
        Ok(rest) => Ok(acc + rest),
        Err(e) => Err(e),
    }
}

/// Decodes a list of entries that takes all of `s`.
pub open spec fn spec_parse_entries(s: Seq<u8>) -> Result<Seq<(Seq<char>, QoS)>, DecodingError>
    decreases s.len(),
{
    if s.len() == 0 {
        Ok(Seq::empty())
    } else {
        match spec_utf8_field(s) {
            Err(e) => Err(e),
            Ok((t, n)) => if s.len() <= n {
                Err(DecodingError::NotEnoughBytes { minimum: (n + 1) as usize, actual: s.len() as usize })
            } else {
                match QoS::spec_from_code(s[n as int]) {
                    None => Err(DecodingError::InvalidValue(Reason::QoS)),
                    Some(q) => prepend_entries(seq![(t, q)], spec_parse_entries(s.subrange((n + 1) as int, s.len() as int))),
                }
            },
        }
    }
}

/// Decodes a Subscribe.
pub open spec fn spec_parse_subscribe(s: Seq<u8>) -> Result<SubscribeView, DecodingError> {
    match spec_frame(s) {
        Err(e) => Err(e),
        Ok((f, body)) => if f / 16 != 8 {
            Err(DecodingError::InvalidPacketType(f))
        } else if f % 16 != 2 {
            Err(DecodingError::HeaderContainsInvalidFlags)
        } else {
            match spec_u16(body) {
                Err(e) => Err(e),
                Ok(id) => match spec_parse_entries(body.subrange(2, body.len() as int)) {
                    Err(e) => Err(e),
                    Ok(ts) => if ts.len() == 0 {
                        Err(DecodingError::InvalidValue(Reason::EmptyPayload))
                    } else {
                        Ok(SubscribeView { packet_identifier: id, topics: ts })
                    },
                },
            }
        },
    }
}

/// Encoding one more entry appends its wire form.
pub proof fn lemma_entries_push(ts: Seq<(Seq<char>, QoS)>, e: (Seq<char>, QoS))
    ensures
        spec_entries(ts.push(e)) == spec_entries(ts) + spec_entry(e),
    decreases ts.len(),
{
    if ts.len() == 0 {
        let p = ts.push(e);
        assert(p.drop_first() =~= Seq::<(Seq<char>, QoS)>::empty());
        assert(spec_entries(p.drop_first()) == Seq::<u8>::empty());
        assert(p[0] == e);
        assert(spec_entries(p) =~= spec_entry(e));
        assert(spec_entries(ts) == Seq::<u8>::empty());
        assert(spec_entries(ts) + spec_entry(e) =~= spec_entry(e));
    } else {
        lemma_entries_push(ts.drop_first(), e);
        assert(ts.push(e).drop_first() =~= ts.drop_first().push(e));
        assert(spec_entries(ts.push(e)) =~= spec_entries(ts) + spec_entry(e));
    }
}

/// The level that the code of a level stands for is that level.
pub proof fn lemma_qos_code(q: QoS)
    ensures
        QoS::spec_from_code(q.spec_code()) == Some(q),
{
}

/// A list of entries decodes from its wire form.
#[verifier::spinoff_prover]
pub proof fn lemma_entries_round_trip(ts: Seq<(Seq<char>, QoS)>)
    requires
        filters_fit(ts),
    ensures
        spec_parse_entries(spec_entries(ts)) == Ok::<Seq<(Seq<char>, QoS)>, DecodingError>(ts),
    decreases ts.len(),
{
    if ts.len() > 0 {
        let e = ts[0];
        let d = ts.drop_first();
        let s = spec_entries(ts);
        let t = encode_utf8(e.0);
        let rest = spec_entries(d);
        let tail = seq![e.1.spec_code()] + rest;
        assert(filters_fit(d)) by {
            assert forall|i: int| 0 <= i < d.len() implies encode_utf8(#[trigger] d[i].0).len() <= 65535 by {
                assert(d[i] == ts[i + 1]);
            }
        }
        assert(encode_utf8(ts[0].0).len() <= 65535);
        lemma_entries_round_trip(d);
        assert(s == spec_entry(e) + rest);
        assert(s =~= length_prefixed(t) + tail);
        lemma_utf8_field_round_trip(e.0, tail);
        let n = t.len() + 2;
        assert(s[n as int] == e.1.spec_code());
        lemma_qos_code(e.1);
        assert(s.subrange((n + 1) as int, s.len() as int) =~= rest);
        assert(spec_parse_entries(s.subrange((n + 1) as int, s.len() as int))
            == Ok::<Seq<(Seq<char>, QoS)>, DecodingError>(d));
        assert(s.len() > n);
        assert(seq![(e.0, e.1)] + d =~= ts);
    } else {
        assert(ts =~= Seq::<(Seq<char>, QoS)>::empty());
    }
}

/// Every well-formed Subscribe decodes from its wire form to what it says.
pub proof fn lemma_round_trip(v: SubscribeView)
    requires
        subscribe_wf(v),
    ensures
        spec_parse_subscribe(spec_subscribe_bytes(v)) == Ok::<SubscribeView, DecodingError>(v),
{
    let body = spec_subscribe_body(v);
    lemma_frame_round_trip(FIRST_BYTE, body);
    lemma_u16_round_trip(v.packet_identifier, spec_entries(v.topics));
    assert(body.subrange(2, body.len() as int) =~= spec_entries(v.topics));
    lemma_entries_round_trip(v.topics);
}

/// The view of a list of entries.
pub open spec fn entries_view(ts: Seq<(String, QoS)>) -> Seq<(Seq<char>, QoS)> {
    ts.map_values(|e: (String, QoS)| (e.0@, e.1))
}

/// Decodes a list of entries that takes all of `bytes`.
#[verifier::spinoff_prover]
fn parse_entries(bytes: &[u8]) -> (r: Result<Vec<(String, QoS)>, DecodingError>)
    ensures
        match r {
            Ok(ts) => spec_parse_entries(bytes@) == Ok::<Seq<(Seq<char>, QoS)>, DecodingError>(entries_view(ts@))
                && filters_fit(entries_view(ts@)),
            Err(e) => spec_parse_entries(bytes@) == Err::<Seq<(Seq<char>, QoS)>, DecodingError>(e),
        },
{
    let mut acc: Vec<(String, QoS)> = Vec::new();
    let mut pos: usize = 0;
    proof {
        assert(bytes@.subrange(0, bytes@.len() as int) =~= bytes@);
        assert(entries_view(acc@) =~= Seq::<(Seq<char>, QoS)>::empty());
    }
    while pos < bytes.len()
        invariant
            pos <= bytes@.len(),
            spec_parse_entries(bytes@) == prepend_entries(
                entries_view(acc@),
                spec_parse_entries(bytes@.subrange(pos as int, bytes@.len() as int)),
            ),
            filters_fit(entries_view(acc@)),
        decreases bytes@.len() - pos,
    {
        let rest = slice_subrange(bytes, pos, bytes.len());
        let (t, n) = match field::utf8(rest) {
            Err(e) => return Err(e),
            Ok(x) => x,
        };
        if rest.len() <= n {
            return Err(DecodingError::NotEnoughBytes { minimum: n + 1, actual: rest.len() });
        }
        let q = match QoS::try_from_byte(rest[n]) {
            Err(_) => return Err(DecodingError::InvalidValue(Reason::QoS)),
            Ok(q) => q,
        };
        let ghost old_acc = entries_view(acc@);
        acc.push((t.to_owned(), q));
        proof {
            assert(entries_view(acc@) =~= old_acc + seq![(t@, q)]);
            assert(rest@.subrange((n + 1) as int, rest@.len() as int)
                =~= bytes@.subrange((pos + n + 1) as int, bytes@.len() as int));
            let tail = spec_parse_entries(bytes@.subrange((pos + n + 1) as int, bytes@.len() as int));
            match tail {
                Ok(x) => assert(old_acc + (seq![(t@, q)] + x) =~= entries_view(acc@) + x),
                Err(_) => {},
            }
            assert forall|i: int| 0 <= i < entries_view(acc@).len() implies
                encode_utf8(#[trigger] entries_view(acc@)[i].0).len() <= 65535 by {
                if i < old_acc.len() {
                    assert(entries_view(acc@)[i] == old_acc[i]);
                }
            }
        }
        pos = pos + n + 1;
    }
    proof {
        assert(entries_view(acc@) + Seq::<(Seq<char>, QoS)>::empty() =~= entries_view(acc@));
    }
    Ok(acc)
}

/// A request for the messages on one or more topic filters.
#[derive(Debug, PartialEq, Eq)]
pub struct Subscribe {
    packet_identifier: u16,
    topics: Vec<(String, QoS)>,
}

impl View for Subscribe {
    type V = SubscribeView;

    closed spec fn view(&self) -> SubscribeView {
        SubscribeView { packet_identifier: self.packet_identifier, topics: entries_view(self.topics@) }
    }
}

/// Copies a list of entries.
fn clone_entries(ts: &Vec<(String, QoS)>) -> (r: Vec<(String, QoS)>)
    ensures
        entries_view(r@) == entries_view(ts@),
{
    let mut r: Vec<(String, QoS)> = Vec::new();
    let mut i: usize = 0;
    while i < ts.len()
        invariant
            i <= ts@.len(),
            entries_view(r@) == entries_view(ts@.subrange(0, i as int)),
        decreases ts@.len() - i,
    {
        let ghost old_r = r@;
        let x = (ts[i].0.clone(), ts[i].1);
        r.push(x);
        proof {
            assert(x.0@ == ts@[i as int].0@);
            assert(entries_view(r@) =~= entries_view(old_r).push((x.0@, x.1)));
            assert(entries_view(ts@.subrange(0, i + 1)) =~= entries_view(ts@.subrange(0, i as int)).push((x.0@, x.1)));
        }
        i = i + 1;
    }
    proof {
        assert(ts@.subrange(0, ts@.len() as int) =~= ts@);
    }
    r
}

/// Encodes a list of entries.
fn encode_entries(buf: &mut Vec<u8>, ts: &Vec<(String, QoS)>)
    requires
        filters_fit(entries_view(ts@)),
    ensures
        final(buf)@ == old(buf)@ + spec_entries(entries_view(ts@)),
{
    let mut i: usize = 0;
    proof {
        assert(entries_view(ts@.subrange(0, 0)) =~= Seq::<(Seq<char>, QoS)>::empty());
        assert(buf@ =~= old(buf)@ + spec_entries(entries_view(ts@.subrange(0, 0))));
    }
    while i < ts.len()
        invariant
            i <= ts@.len(),
            filters_fit(entries_view(ts@)),
            buf@ == old(buf)@ + spec_entries(entries_view(ts@.subrange(0, i as int))),
        decreases ts@.len() - i,
    {
        let ghost before = buf@;
        proof {
            assert(entries_view(ts@)[i as int] == (ts@[i as int].0@, ts@[i as int].1));
            assert(encode_utf8(entries_view(ts@)[i as int].0).len() <= 65535);
        }
        let t = crate::encode::utf8(ts[i].0.as_str());
        put_slice(buf, t.as_slice());
        buf.push(ts[i].1.code());
        proof {
            let e = (ts@[i as int].0@, ts@[i as int].1);
            assert(entries_view(ts@.subrange(0, i + 1)) =~= entries_view(ts@.subrange(0, i as int)).push(e));
            lemma_entries_push(entries_view(ts@.subrange(0, i as int)), e);
            assert(buf@ =~= before + spec_entry(e));
        }
        i = i + 1;
    }
    proof {
        assert(ts@.subrange(0, ts@.len() as int) =~= ts@);
    }
}

impl Clone for Subscribe {
    fn clone(&self) -> (r: Self)
        ensures
            r@ == self@,
    {
        proof {
            use_type_invariant(self);
        }
        Subscribe { packet_identifier: self.packet_identifier, topics: clone_entries(&self.topics) }
    }
}

impl Subscribe {
    #[verifier::type_invariant]
    closed spec fn inv(&self) -> bool {
        subscribe_wf(self@)
    }

    /// A builder for a Subscribe to `topic` with `qos`.
    pub fn builder(topic: &str, qos: QoS) -> (r: Builder)
        requires
            topic.spec_bytes().len() <= 65535,
        ensures
            r@.topics == seq![(topic@, qos)],
    {
        Builder::new(topic, qos)
    }

    /// The packet identifier.
    pub fn packet_identifier(&self) -> (r: u16)
        ensures
            r == self@.packet_identifier,
    {
        self.packet_identifier
    }

    /// The topic filters, each with the QoS asked for.
    pub fn topics(&self) -> (r: &[(String, QoS)])
        ensures
            entries_view(r@) == self@.topics,
            subscribe_wf(self@),
    {
        proof {
            use_type_invariant(self);
        }
        self.topics.as_slice()
    }

    /// The type of the packet.
    pub fn packet_type(&self) -> (r: PacketType)
        ensures
            r == PacketType::Subscribe,
    {
        PacketType::Subscribe
    }

    /// The variable header: the packet identifier.
    pub fn variable_header(&self) -> (r: Vec<u8>)
        ensures
            r@ == be16(self@.packet_identifier),
    {
        let mut r: Vec<u8> = Vec::new();
        put_u16(&mut r, self.packet_identifier);
        r
    }

    /// The payload: the entries.
    pub fn payload(&self) -> (r: Vec<u8>)
        ensures
            r@ == spec_entries(self@.topics),
    {
        proof {
            use_type_invariant(self);
        }
        let mut r: Vec<u8> = Vec::new();
        encode_entries(&mut r, &self.topics);
        r
    }

    /// The wire form of the packet.
    pub fn as_bytes(&self) -> (r: Vec<u8>)
        ensures
            r@ == spec_subscribe_bytes(self@),
    {
        proof {
            use_type_invariant(self);
        }
        let mut body = self.variable_header();
        encode_entries(&mut body, &self.topics);
        frame_bytes(FIRST_BYTE, body.as_slice())
    }

    /// The wire form of the packet.
    pub fn into_bytes(self) -> (r: Vec<u8>)
        ensures
            r@ == spec_subscribe_bytes(self@),
    {
        self.as_bytes()
    }

    /// The number of bytes of the wire form.
    pub fn length(&self) -> (r: usize)
        ensures
            r == spec_subscribe_bytes(self@).len(),
    {
        let b = self.as_bytes();
        b.len()
    }

    /// Decodes a Subscribe.
    pub fn try_from(bytes: &[u8]) -> (r: Result<Subscribe, DecodingError>)
        ensures
            match r {
                Ok(p) => spec_parse_subscribe(bytes@) == Ok::<SubscribeView, DecodingError>(p@)
                    && spec_subscribe_bytes(p@) == bytes@,
                Err(e) => spec_parse_subscribe(bytes@) == Err::<SubscribeView, DecodingError>(e),
            },
    {
        proof {
            lemma_decode_encode(bytes@);
        }
        let (f, body) = match frame(bytes) {
            Err(e) => return Err(e),
            Ok(x) => x,
        };
        if f / 16 != 8 {
            return Err(DecodingError::InvalidPacketType(f));
        }
        if f % 16 != 2 {
            return Err(DecodingError::HeaderContainsInvalidFlags);
        }
        let id = match crate::decode::u16(body) {
            Err(e) => return Err(e),
            Ok(id) => id,
        };
        let topics = match parse_entries(slice_subrange(body, 2, body.len())) {
            Err(e) => return Err(e),
            Ok(ts) => ts,
        };
        if topics.len() == 0 {
            return Err(DecodingError::InvalidValue(Reason::EmptyPayload));
        }
        proof {
            lemma_parse_entries_len(body@.subrange(2, body@.len() as int));
            let v = SubscribeView { packet_identifier: id, topics: entries_view(topics@) };
            assert(spec_subscribe_body(v).len() == body@.len());
        }
        Ok(Subscribe { packet_identifier: id, topics })
    }
}

/// Decoded entries are the encoding of what they say.
pub proof fn lemma_parse_entries_len(s: Seq<u8>)
    ensures
        spec_parse_entries(s) matches Ok(ts) ==> spec_entries(ts).len() == s.len() && spec_entries(ts) == s,
    decreases s.len(),
{
    if s.len() > 0 {
        if let Ok((t, n)) = spec_utf8_field(s) {
            if s.len() > n {
                lemma_parse_entries_len(s.subrange((n + 1) as int, s.len() as int));
                if let Ok(ts) = spec_parse_entries(s) {
                    let q = QoS::spec_from_code(s[n as int])->0;
                    let rest = spec_parse_entries(s.subrange((n + 1) as int, s.len() as int))->Ok_0;
                    assert(ts == seq![(t, q)] + rest);
                    assert(ts.drop_first() =~= rest);
                    vstd::utf8::decode_utf8_encode_utf8(s.subrange(2, n as int));
                    lemma_utf8_field_inverse(s);
                    assert(q.spec_code() == s[n as int]);
                    assert(s =~= s.subrange(0, n as int) + seq![s[n as int]]
                        + s.subrange((n + 1) as int, s.len() as int));
                    assert(spec_entries(ts) == spec_entry(ts[0]) + spec_entries(ts.drop_first()));
                }
            }
        }
    }
}

/// A Subscribe that decodes is the encoding of what it says: decoding keeps
/// the received bytes.
pub proof fn lemma_decode_encode(s: Seq<u8>)
    ensures
        spec_parse_subscribe(s) matches Ok(v) ==> spec_subscribe_bytes(v) == s,
{
    lemma_frame_inverse(s);
    if let Ok(v) = spec_parse_subscribe(s) {
        let (f, body) = spec_frame(s)->Ok_0;
        lemma_u16_inverse(body);
        lemma_parse_entries_len(body.subrange(2, body.len() as int));
        assert(body =~= body.subrange(0, 2) + body.subrange(2, body.len() as int));
    }
}

/// Builds a Subscribe.
#[derive(Debug)]
pub struct Builder {
    topics: Vec<(String, QoS)>,
    size: usize,
}

impl View for Builder {
    type V = SubscribeView;

    closed spec fn view(&self) -> SubscribeView {
        SubscribeView { packet_identifier: 0, topics: entries_view(self.topics@) }
    }
}

impl Builder {
    #[verifier::type_invariant]
    closed spec fn inv(&self) -> bool {
        &&& self.topics@.len() >= 1
        &&& filters_fit(entries_view(self.topics@))
        &&& self.size == spec_entries(entries_view(self.topics@)).len()
        &&& self.size + 2 <= MAX_REMAINING_LENGTH
    }

    /// A builder for a Subscribe to `topic` with `qos`.
    pub fn new(topic: &str, qos: QoS) -> (r: Self)
        requires
            topic.spec_bytes().len() <= 65535,
        ensures
            r@.topics == seq![(topic@, qos)],
    {
        let ts = vec![(topic.to_owned(), qos)];
        let size = topic.len() + 3;
        proof {
            assert(entries_view(ts@) =~= seq![(topic@, qos)]);
            assert(entries_view(ts@).drop_first() =~= Seq::<(Seq<char>, QoS)>::empty());
            assert(spec_entries(entries_view(ts@).drop_first()) == Seq::<u8>::empty());
            assert(spec_entries(entries_view(ts@)).len() == topic.spec_bytes().len() + 3);
        }
        Builder { topics: ts, size }
    }

    /// Adds the topic filter `topic` with `qos`.
    pub fn add_topic(self, topic: &str, qos: QoS) -> (r: Self)
        requires
            topic.spec_bytes().len() <= 65535,
            spec_entries(self@.topics).len() + topic.spec_bytes().len() + 5 <= MAX_REMAINING_LENGTH,
        ensures
            r@.topics == self@.topics.push((topic@, qos)),
    {
        proof {
            use_type_invariant(&self);
        }
        let mut ts = self.topics;
        let ghost old_ts = entries_view(ts@);
        ts.push((topic.to_owned(), qos));
        proof {
            assert(entries_view(ts@) =~= old_ts.push((topic@, qos)));
            lemma_entries_push(old_ts, (topic@, qos));
            assert forall|i: int| 0 <= i < entries_view(ts@).len() implies
                encode_utf8(#[trigger] entries_view(ts@)[i].0).len() <= 65535 by {
                if i < old_ts.len() {
                    assert(entries_view(ts@)[i] == old_ts[i]);
                }
            }
        }
        Builder { topics: ts, size: self.size + topic.len() + 3 }
    }

    /// The Subscribe, with an identifier taken from the clock.
    pub fn build(self) -> (r: Subscribe)
        ensures
            r@.topics == self@.topics,
            subscribe_wf(r@),
    {
        proof {
            use_type_invariant(&self);
        }
        Subscribe { packet_identifier: crate::packet_identifier(), topics: self.topics }
    }

    /// The Subscribe, as a packet.
    pub fn build_packet(self) -> (r: Packet)
        ensures
            r matches Packet::Subscribe(p) && p@.topics == self@.topics,
    {
        Packet::Subscribe(self.build())
    }
}

} // verus!
