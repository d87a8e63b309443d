//! The decisions of a minimal broker: what it answers to each packet of a
//! client, which filters each client has subscribed to, and which clients a
//! Publish goes to. The server that accepts connections carries them out.
use crate::packet::ping_resp::PingResp;
use crate::packet::suback::{spec_suback_body, Builder as SubAckBuilder, ReturnCode, SubAck, SubAckView};
use crate::packet::subscribe::{entries_view, filters_fit, spec_entries, spec_entry, Subscribe, SubscribeView};
use crate::packet::unsuback::UnsubAck;
use crate::packet::unsubscribe::{entries_view as filters_view, Unsubscribe};
use crate::packet::{Packet, PacketView, QoS};
use crate::topic::{does_topic_match_subscription, topic_matches};
use vstd::prelude::*;
use vstd::string::StringSliceAdditionalSpecFns;
use vstd::utf8::encode_utf8;

verus! {

/// What the broker does with one packet of a client.
#[derive(Debug)]
pub struct SessionStep {
    /// The packet to send back to the client.
    pub reply: Option<Packet>,
    /// The packet to hand to the registry of subscriptions.
    pub forward: Option<Packet>,
    /// Whether to close the connection.
    pub close: bool,
}

/// The return codes that grant each entry of a Subscribe its QoS.
pub open spec fn granted_codes(ts: Seq<(Seq<char>, QoS)>) -> Seq<ReturnCode> {
    ts.map_values(|e: (Seq<char>, QoS)| ReturnCode::QoS(e.1))
}

/// Each entry of a Subscribe takes at least three bytes.
pub proof fn lemma_entries_len(ts: Seq<(Seq<char>, QoS)>)
    ensures
        spec_entries(ts).len() >= 3 * ts.len(),
    decreases ts.len(),
{
    if ts.len() > 0 {
        lemma_entries_len(ts.drop_first());
    }
}

/// The SubAck that grants every entry of `s` the QoS it asks for.
pub fn grant(s: &Subscribe) -> (r: SubAck)
    ensures
        r@ == (SubAckView { packet_identifier: s@.packet_identifier, return_codes: granted_codes(s@.topics) }),
{
    let topics = s.topics();
    proof {
        lemma_entries_len(s@.topics);
        assert(topics@.len() == s@.topics.len());
    }
    let ghost ts = s@.topics;
    let mut builder = SubAckBuilder::new(s.packet_identifier(), ReturnCode::QoS(topics[0].1));
    proof {
        assert(entries_view(topics@)[0] == (topics@[0].0@, topics@[0].1));
        assert(builder@.return_codes =~= granted_codes(ts).subrange(0, 1));
    }
    let mut i: usize = 1;
    while i < topics.len()
        invariant
            1 <= i <= topics@.len(),
            ts == entries_view(topics@),
            ts.len() >= 1,
            spec_entries(ts).len() + 2 <= crate::encode::MAX_REMAINING_LENGTH,
            spec_entries(ts).len() >= 3 * ts.len(),
            builder@.packet_identifier == s@.packet_identifier,
            builder@.return_codes == granted_codes(ts).subrange(0, i as int),
        decreases topics@.len() - i,
    {
        proof {
            assert(entries_view(topics@)[i as int] == (topics@[i as int].0@, topics@[i as int].1));
        }
        builder = builder.add_return_code(ReturnCode::QoS(topics[i].1));
        i = i + 1;
        proof {
            assert(builder@.return_codes =~= granted_codes(ts).subrange(0, i as int));
        }
    }
    proof {
        assert(granted_codes(ts).subrange(0, i as int) =~= granted_codes(ts));
    }
    builder.build()
}

/// What the broker does with a packet of a client.
pub open spec fn spec_session_step(p: PacketView) -> (Option<PacketView>, bool, bool) {
    match p {
        PacketView::PingReq => (Some(PacketView::PingResp), false, false),
        PacketView::Disconnect => (None, false, true),
        PacketView::Subscribe(v) => (
            Some(PacketView::SubAck(SubAckView { packet_identifier: v.packet_identifier, return_codes: granted_codes(v.topics) })),
            true,
            false,
        ),
        PacketView::Unsubscribe(v) => (Some(PacketView::UnsubAck(v.packet_identifier)), true, false),
        PacketView::Publish(_) => (None, true, false),
        PacketView::Connect(_) => (None, false, true),
        PacketView::ConnAck(_) => (None, false, true),
        PacketView::SubAck(_) => (None, false, true),
        PacketView::UnsubAck(_) => (None, false, true),
        PacketView::PingResp => (None, false, true),
        _ => (None, false, false),
    }
}

/// What the broker does with a packet of a client once the session is open:
/// it answers a PingReq with a PingResp, a Subscribe with a SubAck that
/// grants every entry and an Unsubscribe with an UnsubAck, forwarding both
/// to the registry; it forwards a Publish; it closes the connection on a
/// Disconnect and on a packet that only a server sends. Other
/// acknowledgements need nothing.
pub fn session_step(packet: Packet) -> (r: SessionStep)
    ensures
        ({
            let (reply, forward, close) = spec_session_step(packet@);
            &&& match r.reply {
                Some(q) => reply == Some(q@),
                None => reply is None,
            }
            &&& (forward ==> (r.forward matches Some(q) && q@ == packet@))
            &&& (!forward ==> r.forward is None)
            &&& r.close == close
        }),
{
    match packet {
        Packet::PingReq(_) => SessionStep { reply: Some(Packet::PingResp(PingResp)), forward: None, close: false },
        Packet::Disconnect(_) => SessionStep { reply: None, forward: None, close: true },
        Packet::Subscribe(s) => {
            let ack = grant(&s);
            SessionStep { reply: Some(Packet::SubAck(ack)), forward: Some(Packet::Subscribe(s)), close: false }
        },
        Packet::Unsubscribe(u) => {
            let ack = UnsubAck::new(u.packet_identifier());
            SessionStep { reply: Some(Packet::UnsubAck(ack)), forward: Some(Packet::Unsubscribe(u)), close: false }
        },
        Packet::Publish(p) => SessionStep { reply: None, forward: Some(Packet::Publish(p)), close: false },
        Packet::Connect(_) | Packet::ConnAck(_) | Packet::SubAck(_) | Packet::UnsubAck(_) | Packet::PingResp(_) => {
            SessionStep { reply: None, forward: None, close: true }
        },
        _ => SessionStep { reply: None, forward: None, close: false },
    }
}

/// A client and the filters it has subscribed to.
pub open spec fn client_view(c: (String, Vec<String>)) -> (Seq<char>, Seq<Seq<char>>) {
    (c.0@, c.1@.map_values(|f: String| f@))
}

/// Whether one of `filters` matches `topic`.
pub open spec fn subscribed(filters: Seq<Seq<char>>, topic: Seq<char>) -> bool {
    exists|i: int| 0 <= i < filters.len() && topic_matches(encode_utf8(#[trigger] filters[i]), encode_utf8(topic))
}

/// The clients, in order, that have a filter matching `topic`.
pub open spec fn recipients_of(cs: Seq<(Seq<char>, Seq<Seq<char>>)>, topic: Seq<char>) -> Seq<Seq<char>>
    decreases cs.len(),
{
    if cs.len() == 0 {
        Seq::empty()
    } else {
        recipients_of(cs.drop_last(), topic) + if subscribed(cs.last().1, topic) {
            seq![cs.last().0]
        } else {
            Seq::empty()
        }
    }
}

/// The index of the first client called `id`, or the number of clients.
pub open spec fn client_index(cs: Seq<(Seq<char>, Seq<Seq<char>>)>, id: Seq<char>) -> int
    decreases cs.len(),
{
    if cs.len() == 0 {
        0
    } else if cs[0].0 == id {
        0
    } else {
        1 + client_index(cs.drop_first(), id)
    }
}

/// The first index is the first place that holds the client.
proof fn lemma_client_index(cs: Seq<(Seq<char>, Seq<Seq<char>>)>, id: Seq<char>, r: int)
    requires
        0 <= r <= cs.len(),
        forall|k: int| 0 <= k < r ==> cs[k].0 != id,
        r == cs.len() || cs[r].0 == id,
    ensures
        client_index(cs, id) == r,
    decreases cs.len(),
{
    if cs.len() > 0 && cs[0].0 != id {
        assert forall|k: int| 0 <= k < r - 1 implies cs.drop_first()[k].0 != id by {
            assert(cs.drop_first()[k] == cs[k + 1]);
        }
        lemma_client_index(cs.drop_first(), id, r - 1);
    }
}

/// A client found by its index has the name looked for.
proof fn lemma_client_index_found(cs: Seq<(Seq<char>, Seq<Seq<char>>)>, id: Seq<char>)
    ensures
        0 <= client_index(cs, id) <= cs.len(),
        client_index(cs, id) < cs.len() ==> cs[client_index(cs, id)].0 == id,
        client_index(cs, id) == cs.len() ==> forall|k: int| 0 <= k < cs.len() ==> cs[k].0 != id,
    decreases cs.len(),
{
    if cs.len() > 0 && cs[0].0 != id {
        lemma_client_index_found(cs.drop_first(), id);
        assert forall|k: int| 0 < k < cs.len() implies cs[k].0 == cs.drop_first()[k - 1].0 by {}
    }
}

/// No two clients share a name.
pub open spec fn unique_names(cs: Seq<(Seq<char>, Seq<Seq<char>>)>) -> bool {
    forall|i: int, j: int| 0 <= i < j < cs.len() ==> cs[i].0 != cs[j].0
}

/// Whether `f` is one of `topics`.
fn contains_str(topics: &[String], f: &String) -> (r: bool)
    ensures
        r == filters_view(topics@).contains(f@),
{
    let mut i: usize = 0;
    while i < topics.len()
        invariant
            i <= topics@.len(),
            forall|j: int| 0 <= j < i ==> filters_view(topics@)[j] != f@,
        decreases topics@.len() - i,
    {
        let same = crate::topic::bytes_equal(topics[i].as_str().as_bytes(), f.as_str().as_bytes());
        proof {
            vstd::utf8::encode_utf8_decode_utf8(topics@[i as int]@);
            vstd::utf8::encode_utf8_decode_utf8(f@);
            assert(filters_view(topics@)[i as int] == topics@[i as int]@);
        }
        if same {
            return true;
        }
        i = i + 1;
    }
    false
}

/// The registry of a broker: each connected client and its filters.
pub struct Broker {
    clients: Vec<(String, Vec<String>)>,
}

impl View for Broker {
    type V = Seq<(Seq<char>, Seq<Seq<char>>)>;

    closed spec fn view(&self) -> Seq<(Seq<char>, Seq<Seq<char>>)> {
        self.clients@.map_values(|c: (String, Vec<String>)| client_view(c))
    }
}

/// Copies a list of strings.
fn clone_strings(v: &Vec<String>) -> (r: Vec<String>)
    ensures
        r@.map_values(|f: String| f@) == v@.map_values(|f: String| f@),
{
    let mut r: Vec<String> = Vec::new();
    let mut i: usize = 0;
    while i < v.len()
        invariant
            i <= v@.len(),
            r@.map_values(|f: String| f@) == v@.subrange(0, i as int).map_values(|f: String| f@),
        decreases v@.len() - i,
    {
        let ghost old_r = r@;
        let x = v[i].clone();
        r.push(x);
        proof {
            assert(x@ == v@[i as int]@);
            assert(r@.map_values(|f: String| f@) =~= old_r.map_values(|f: String| f@).push(x@));
            assert(v@.subrange(0, i + 1).map_values(|f: String| f@) =~= v@.subrange(0, i as int).map_values(
                |f: String| f@,
            ).push(x@));
        }
        i = i + 1;
    }
    proof {
        assert(v@.subrange(0, v@.len() as int) =~= v@);
    }
    r
}

impl Broker {
    /// No two registered clients share a name.
    pub open spec fn wf(&self) -> bool {
        unique_names(self@)
    }

    /// A registry without clients.
    pub fn new() -> (r: Self)
        ensures
            r@ == Seq::<(Seq<char>, Seq<Seq<char>>)>::empty(),
            r.wf(),
    {
        let r = Broker { clients: Vec::new() };
        proof {
            assert(r@ =~= Seq::<(Seq<char>, Seq<Seq<char>>)>::empty());
        }
        r
    }

    /// The index of the client called `id`, or the number of clients.
    fn position(&self, id: &str) -> (r: usize)
        ensures
            r as int == client_index(self@, id@),
            r <= self@.len(),
    {
        let mut i: usize = 0;
        while i < self.clients.len()
            invariant
                i <= self@.len(),
                self@.len() == self.clients@.len(),
                forall|k: int| 0 <= k < i ==> self@[k].0 != id@,
            decreases self@.len() - i,
        {
            proof {
                assert(self@[i as int] == client_view(self.clients@[i as int]));
            }
            let same = crate::topic::bytes_equal(self.clients[i].0.as_str().as_bytes(), id.as_bytes());
            proof {
                vstd::utf8::encode_utf8_decode_utf8(self.clients@[i as int].0@);
                vstd::utf8::encode_utf8_decode_utf8(id@);
            }
            if same {
                proof {
                    lemma_client_index(self@, id@, i as int);
                }
                return i;
            }
            i = i + 1;
        }
        proof {
            lemma_client_index(self@, id@, i as int);
        }
        i
    }

    /// Registers a client that has connected, without filters; a client
    /// that connects again loses its filters.
    pub fn connect(&mut self, id: &str)
        requires
            old(self).wf(),
        ensures
            final(self).wf(),
            ({
                let k = client_index(old(self)@, id@);
                if k < old(self)@.len() {
                    final(self)@ == old(self)@.update(k, (id@, Seq::<Seq<char>>::empty()))
                } else {
                    final(self)@ == old(self)@.push((id@, Seq::<Seq<char>>::empty()))
                }
            }),
    {
        let k = self.position(id);
        let ghost before = self@;
        proof {
            lemma_client_index_found(before, id@);
        }
        let entry = (id.to_owned(), Vec::new());
        proof {
            assert(client_view(entry).1 =~= Seq::<Seq<char>>::empty());
        }
        if k < self.clients.len() {
            self.clients.set(k, entry);
            proof {
                assert(self@ =~= before.update(k as int, (id@, Seq::<Seq<char>>::empty())));
            }
        } else {
            self.clients.push(entry);
            proof {
                assert(self@ =~= before.push((id@, Seq::<Seq<char>>::empty())));
            }
        }
    }

    /// Adds the filters of a Subscribe to the client called `id`; a client
    /// that is not registered is ignored.
    #[verifier::spinoff_prover]
    pub fn subscribe(&mut self, id: &str, s: &Subscribe)
        requires
            old(self).wf(),
        ensures
            final(self).wf(),
            ({
                let k = client_index(old(self)@, id@);
                if k < old(self)@.len() {
                    final(self)@ == old(self)@.update(k, (id@, old(self)@[k].1
                        + s@.topics.map_values(|e: (Seq<char>, QoS)| e.0)))
                } else {
                    final(self)@ == old(self)@
                }
            }),
    {
        let k = self.position(id);
        if k >= self.clients.len() {
            return;
        }
        let ghost before = self@;
        let topics = s.topics();
        let mut filters = clone_strings(&self.clients[k].1);
        let ghost base = filters@.map_values(|f: String| f@);
        proof {
            assert(before[k as int] == client_view(self.clients@[k as int]));
        }
        let mut i: usize = 0;
        while i < topics.len()
            invariant
                i <= topics@.len(),
                filters@.map_values(|f: String| f@) == base + entries_view(topics@).subrange(0, i as int).map_values(
                    |e: (Seq<char>, QoS)| e.0,
                ),
            decreases topics@.len() - i,
        {
            let ghost old_f = filters@;
            let x = topics[i].0.clone();
            filters.push(x);
            proof {
                assert(entries_view(topics@)[i as int] == (topics@[i as int].0@, topics@[i as int].1));
                assert(x@ == entries_view(topics@)[i as int].0);
                assert(filters@.map_values(|f: String| f@) =~= old_f.map_values(|f: String| f@).push(x@));
                assert(entries_view(topics@).subrange(0, i + 1).map_values(|e: (Seq<char>, QoS)| e.0)
                    =~= entries_view(topics@).subrange(0, i as int).map_values(|e: (Seq<char>, QoS)| e.0).push(x@));
            }
            i = i + 1;
        }
        proof {
            assert(entries_view(topics@).subrange(0, i as int) =~= entries_view(topics@));
        }
        let name = self.clients[k].0.clone();
        proof {
            lemma_client_index_found(before, id@);
        }
        self.clients.set(k, (name, filters));
        proof {
            assert(self@ =~= before.update(k as int, (id@, before[k as int].1
                + s@.topics.map_values(|e: (Seq<char>, QoS)| e.0))));
        }
    }

    /// Drops from the filters of the client called `id` every filter that
    /// the Unsubscribe names; a client that is not registered is ignored.
    pub fn unsubscribe(&mut self, id: &str, u: &Unsubscribe)
        requires
            old(self).wf(),
        ensures
            final(self).wf(),
            ({
                let k = client_index(old(self)@, id@);
                if k < old(self)@.len() {
                    final(self)@ == old(self)@.update(k, (id@, old(self)@[k].1.filter(
                        |f: Seq<char>| !u@.topics.contains(f),
                    )))
                } else {
                    final(self)@ == old(self)@
                }
            }),
    {
        let k = self.position(id);
        if k >= self.clients.len() {
            return;
        }
        let ghost before = self@;
        let ghost pred = |f: Seq<char>| !u@.topics.contains(f);
        let topics = u.topics();
        let ghost fs = self.clients@[k as int].1@.map_values(|f: String| f@);
        proof {
            assert(before[k as int] == client_view(self.clients@[k as int]));
            lemma_client_index_found(before, id@);
            reveal(Seq::filter);
            assert(fs.subrange(0, 0) =~= Seq::<Seq<char>>::empty());
        }
        let mut kept: Vec<String> = Vec::new();
        let mut i: usize = 0;
        while i < self.clients[k].1.len()
            invariant
                k < self.clients@.len(),
                i <= self.clients@[k as int].1@.len(),
                fs == self.clients@[k as int].1@.map_values(|f: String| f@),
                filters_view(topics@) == u@.topics,
                pred == (|f: Seq<char>| !u@.topics.contains(f)),
                kept@.map_values(|f: String| f@) == fs.subrange(0, i as int).filter(pred),
            decreases self.clients@[k as int].1@.len() - i,
        {
            let ghost old_kept = kept@;
            let named = contains_str(topics, &self.clients[k].1[i]);
            proof {
                reveal(Seq::filter);
                assert(fs.subrange(0, i + 1).drop_last() =~= fs.subrange(0, i as int));
                assert(fs.subrange(0, i + 1).last() == fs[i as int]);
                assert(fs[i as int] == self.clients@[k as int].1@[i as int]@);
            }
            if !named {
                let x = self.clients[k].1[i].clone();
                kept.push(x);
                proof {
                    assert(kept@.map_values(|f: String| f@) =~= old_kept.map_values(|f: String| f@).push(x@));
                }
            }
            i = i + 1;
        }
        proof {
            assert(fs.subrange(0, fs.len() as int) =~= fs);
        }
        let name = self.clients[k].0.clone();
        self.clients.set(k, (name, kept));
        proof {
            assert(self@ =~= before.update(k as int, (id@, before[k as int].1.filter(pred))));
        }
    }

    /// Forgets the client called `id`.
    pub fn remove(&mut self, id: &str)
        requires
            old(self).wf(),
        ensures
            final(self).wf(),
            ({
                let k = client_index(old(self)@, id@);
                if k < old(self)@.len() {
                    final(self)@ == old(self)@.remove(k)
                } else {
                    final(self)@ == old(self)@
                }
            }),
    {
        let k = self.position(id);
        if k < self.clients.len() {
            let ghost before = self@;
            let _ = self.clients.remove(k);
            proof {
                assert(self@ =~= before.remove(k as int));
                assert forall|i: int, j: int| 0 <= i < j < self@.len() implies self@[i].0 != self@[j].0 by {
                    let oi = if i < k { i } else { i + 1 };
                    let oj = if j < k { j } else { j + 1 };
                    assert(self@[i] == before[oi] && self@[j] == before[oj]);
                }
            }
        }
    }

    /// Whether one of `filters` matches `topic`.
    fn any_matches(filters: &Vec<String>, topic: &str) -> (r: bool)
        ensures
            r == subscribed(filters@.map_values(|f: String| f@), topic@),
    {
        let ghost fs = filters@.map_values(|f: String| f@);
        let mut i: usize = 0;
        while i < filters.len()
            invariant
                i <= filters@.len(),
                fs == filters@.map_values(|f: String| f@),
                forall|k: int| 0 <= k < i ==> !topic_matches(encode_utf8(#[trigger] fs[k]), encode_utf8(topic@)),
            decreases filters@.len() - i,
        {
            if does_topic_match_subscription(filters[i].as_str(), topic) {
                proof {
                    assert(fs[i as int] == filters@[i as int]@);
                }
                return true;
            }
            proof {
                assert(fs[i as int] == filters@[i as int]@);
            }
            i = i + 1;
        }
        false
    }

    /// The clients, in order, that have a filter matching `topic`: those
    /// that a Publish on `topic` goes to.
    #[verifier::spinoff_prover]
    pub fn recipients(&self, topic: &str) -> (r: Vec<String>)
        ensures
            r@.map_values(|c: String| c@) == recipients_of(self@, topic@),
    {
        let mut r: Vec<String> = Vec::new();
        let mut i: usize = 0;
        proof {
            assert(self@.subrange(0, 0) =~= Seq::<(Seq<char>, Seq<Seq<char>>)>::empty());
            assert(r@.map_values(|c: String| c@) =~= Seq::<Seq<char>>::empty());
        }
        while i < self.clients.len()
            invariant
                i <= self@.len(),
                self@.len() == self.clients@.len(),
                r@.map_values(|c: String| c@) == recipients_of(self@.subrange(0, i as int), topic@),
            decreases self@.len() - i,
        {
            let ghost prefix = self@.subrange(0, i as int);
            let ghost before = r@;
            proof {
                assert(self@[i as int] == client_view(self.clients@[i as int]));
                assert(self@.subrange(0, i + 1).drop_last() =~= prefix);
                assert(self@.subrange(0, i + 1).last() == self@[i as int]);
            }
            if Broker::any_matches(&self.clients[i].1, topic) {
                r.push(self.clients[i].0.clone());
                proof {
                    assert(r@.map_values(|c: String| c@) =~= before.map_values(|c: String| c@) + seq![self@[i as int].0]);
                }
            } else {
                proof {
                    assert(r@.map_values(|c: String| c@) =~= before.map_values(|c: String| c@) + Seq::<Seq<char>>::empty());
                }
            }
            i = i + 1;
        }
        proof {
            assert(self@.subrange(0, self@.len() as int) =~= self@);
        }
        r
    }

    /// The number of registered clients.
    pub fn len(&self) -> (r: usize)
        ensures
            r == self@.len(),
    {
        self.clients.len()
    }
}

} // verus!
