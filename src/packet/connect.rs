//! The Connect packet, with which a client opens a session.
use crate::decode::{
    field, frame, lemma_field_inverse, lemma_field_round_trip, lemma_frame_inverse, lemma_frame_round_trip,
    lemma_utf8_field_inverse, lemma_utf8_field_round_trip,
    spec_field, spec_frame, spec_utf8_field, DecodingError, Reason,
};
use crate::encode::{be16, frame_bytes, framed, length_prefixed, put_slice, put_u16, MAX_REMAINING_LENGTH};
use crate::packet::{Packet, PacketType, QoS};
use vstd::prelude::*;
use vstd::slice::{slice_subrange, slice_to_vec};
use vstd::string::StringSliceAdditionalSpecFns;
use vstd::utf8::encode_utf8;
use std::marker::PhantomData;

verus! {

/// The first byte of every Connect.
pub const FIRST_BYTE: u8 = 16;

/// What the will of a Connect says.
pub struct WillView {
    pub topic: Seq<char>,
    pub message: Seq<u8>,
    pub qos: QoS,
    pub retain: bool,
}

/// What a Connect says.
pub struct ConnectView {
    pub client_id: Seq<char>,
    pub keep_alive: u16,
    pub clean_session: bool,
    pub will: Option<WillView>,
    pub username: Option<Seq<char>>,
    pub password: Option<Seq<u8>>,
}

/// The connect flags byte.
pub open spec fn spec_flags(v: ConnectView) -> u8 {
    let (wr, wq, wf) = match v.will {
        Some(w) => (if w.retain { 32int } else { 0 }, w.qos.spec_code() * 8, 4int),
        None => (0int, 0int, 0int),
    };
    ((if v.username is Some { 128int } else { 0 }) + (if v.password is Some { 64int } else { 0 }) + wr + wq + wf
        + (if v.clean_session { 2int } else { 0 })) as u8
}

/// The variable header: protocol name, protocol level, flags, keep-alive.
pub open spec fn spec_connect_variable_header(v: ConnectView) -> Seq<u8> {
    seq![0u8, 4u8, 77u8, 81u8, 84u8, 84u8, 4u8, spec_flags(v)] + be16(v.keep_alive)
}

/// The will topic and message, if there is a will.
pub open spec fn spec_will_bytes(w: Option<WillView>) -> Seq<u8> {
    match w {
        Some(w) => length_prefixed(encode_utf8(w.topic)) + length_prefixed(w.message),
        None => Seq::empty(),
    }
}

/// A string field, if it is present.
pub open spec fn spec_opt_utf8_bytes(s: Option<Seq<char>>) -> Seq<u8> {
    match s {
        Some(s) => length_prefixed(encode_utf8(s)),
        None => Seq::empty(),
    }
}

/// A byte-string field, if it is present.
pub open spec fn spec_opt_bytes(s: Option<Seq<u8>>) -> Seq<u8> {
    match s {
        Some(s) => length_prefixed(s),
        None => Seq::empty(),
    }
}

/// The payload: client identifier, will, username, password.
pub open spec fn spec_connect_payload(v: ConnectView) -> Seq<u8> {
    length_prefixed(encode_utf8(v.client_id)) + spec_will_bytes(v.will) + spec_opt_utf8_bytes(v.username)
        + spec_opt_bytes(v.password)
}

/// The wire form of a Connect.
pub open spec fn spec_connect_bytes(v: ConnectView) -> Seq<u8> {
    framed(FIRST_BYTE, spec_connect_variable_header(v) + spec_connect_payload(v))
}

/// Every field fits its length prefix.
pub open spec fn connect_fields_fit(v: ConnectView) -> bool {
    &&& encode_utf8(v.client_id).len() <= 65535
    &&& (v.will matches Some(w) ==> encode_utf8(w.topic).len() <= 65535 && w.message.len() <= 65535)
    &&& (v.username matches Some(u) ==> encode_utf8(u).len() <= 65535)
    &&& (v.password matches Some(p) ==> p.len() <= 65535)
}

/// The rules that every Connect keeps.
pub open spec fn connect_wf(v: ConnectView) -> bool {
    &&& connect_fields_fit(v)
    &&& (v.password is Some ==> v.username is Some)
    &&& (v.client_id.len() == 0 ==> v.clean_session)
}

/// Reads a string field when `present`.
pub open spec fn spec_parse_opt_utf8(s: Seq<u8>, present: bool) -> Result<(Option<Seq<char>>, nat), DecodingError> {
    if !present {
        Ok((None, 0))
    } else {
        match spec_utf8_field(s) {
            Err(e) => Err(e),
            Ok((t, n)) => Ok((Some(t), n)),
        }
    }
}

/// Reads a byte-string field when `present`.
pub open spec fn spec_parse_opt_bytes(s: Seq<u8>, present: bool) -> Result<(Option<Seq<u8>>, nat), DecodingError> {
    if !present {
        Ok((None, 0))
    } else {
        match spec_field(s) {
            Err(e) => Err(e),
            Ok((b, n)) => Ok((Some(b), n)),
        }
    }
}

/// Reads the will topic and message when `present`.
pub open spec fn spec_parse_will(s: Seq<u8>, present: bool, qos: QoS, retain: bool) -> Result<(Option<WillView>, nat), DecodingError> {
    if !present {
        Ok((None, 0))
    } else {
        match spec_utf8_field(s) {
            Err(e) => Err(e),
            Ok((t, n)) => match spec_field(s.subrange(n as int, s.len() as int)) {
                Err(e) => Err(e),
                Ok((m, k)) => Ok((Some(WillView { topic: t, message: m, qos, retain }), n + k)),
            },
        }
    }
}

/// Whether the bit of `b` with value `mask` is set.
pub open spec fn bit(b: u8, mask: u8) -> bool {
    (b / mask) % 2 == 1
}

/// Decodes the username and password that end the payload of a Connect.
pub open spec fn spec_parse_credentials(p2: Seq<u8>, flags: u8) -> Result<(Option<Seq<char>>, Option<Seq<u8>>), DecodingError> {
    match spec_parse_opt_utf8(p2, bit(flags, 128)) {
        Err(e) => Err(e),
        Ok((username, n3)) => {
            let p3 = p2.subrange(n3 as int, p2.len() as int);
            match spec_parse_opt_bytes(p3, bit(flags, 64)) {
                Err(e) => Err(e),
                Ok((password, n4)) => if n4 != p3.len() {
                    Err(DecodingError::TooManyBytes)
                } else {
                    Ok((username, password))
                },
            }
        },
    }
}

/// Decodes what follows the client identifier in the payload of a Connect.
pub open spec fn spec_parse_after_client_id(
    p1: Seq<u8>,
    flags: u8,
    keep_alive: u16,
    client_id: Seq<char>,
) -> Result<ConnectView, DecodingError> {
    match spec_parse_will(p1, bit(flags, 4), QoS::spec_from_code(((flags / 8) % 4) as u8)->0, bit(flags, 32)) {
        Err(e) => Err(e),
        Ok((will, n2)) => match spec_parse_credentials(p1.subrange(n2 as int, p1.len() as int), flags) {
            Err(e) => Err(e),
            Ok((username, password)) => Ok(ConnectView {
                client_id,
                keep_alive,
                clean_session: bit(flags, 2),
                will,
                username,
                password,
            }),
        },
    }
}

/// Decodes the payload of a Connect whose flags byte is `flags`.
pub open spec fn spec_parse_connect_payload(p: Seq<u8>, flags: u8, keep_alive: u16) -> Result<ConnectView, DecodingError> {
    match spec_utf8_field(p) {
        Err(e) => Err(e),
        Ok((cid, n1)) => if cid.len() == 0 && !bit(flags, 2) {
            Err(DecodingError::InvalidValue(Reason::EmptyClientId))
        } else {
            spec_parse_after_client_id(p.subrange(n1 as int, p.len() as int), flags, keep_alive, cid)
        },
    }
}

/// Checks the variable header of a Connect: its flags byte and keep-alive.
pub open spec fn spec_parse_connect_header(body: Seq<u8>) -> Result<(u8, u16), DecodingError> {
    if body.len() < 10 {
        Err(DecodingError::NotEnoughBytes { minimum: 10, actual: body.len() as usize })
    } else if body.subrange(0, 6) != seq![0u8, 4u8, 77u8, 81u8, 84u8, 84u8] {
        Err(DecodingError::InvalidValue(Reason::ProtocolName))
    } else if body[6] != 4 {
        Err(DecodingError::InvalidValue(Reason::ProtocolLevel))
    } else {
        let flags = body[7];
        if bit(flags, 1) || (bit(flags, 64) && !bit(flags, 128)) {
            Err(DecodingError::InvalidValue(Reason::ConnectFlags))
        } else if (flags / 8) % 4 == 3 {
            Err(DecodingError::InvalidValue(Reason::QoS))
        } else if !bit(flags, 4) && ((flags / 8) % 4 != 0 || bit(flags, 32)) {
            Err(DecodingError::InvalidValue(Reason::ConnectFlags))
        } else {
            Ok((flags, (body[8] as int * 256 + body[9] as int) as u16))
        }
    }
}

/// Decodes a Connect.
pub open spec fn spec_parse_connect(s: Seq<u8>) -> Result<ConnectView, DecodingError> {
    match spec_frame(s) {
        Err(e) => Err(e),
        Ok((f, body)) => if f / 16 != 1 {
            Err(DecodingError::InvalidPacketType(f))
        } else if f % 16 != 0 {
            Err(DecodingError::HeaderContainsInvalidFlags)
        } else {
            match spec_parse_connect_header(body) {
                Err(e) => Err(e),
                Ok((flags, keep_alive)) => spec_parse_connect_payload(body.subrange(10, body.len() as int), flags, keep_alive),
            }
        },
    }
}

/// The fields of the flags byte are read back from it.
pub proof fn lemma_flags(v: ConnectView)
    ensures
        !bit(spec_flags(v), 1),
        bit(spec_flags(v), 2) == v.clean_session,
        bit(spec_flags(v), 4) == v.will is Some,
        bit(spec_flags(v), 32) == (v.will matches Some(w) && w.retain),
        (spec_flags(v) / 8) % 4 == (match v.will {
            Some(w) => w.qos.spec_code(),
            None => 0u8,
        }),
        bit(spec_flags(v), 64) == v.password is Some,
        bit(spec_flags(v), 128) == v.username is Some,
{
    let u: int = if v.username is Some { 1 } else { 0 };
    let p: int = if v.password is Some { 1 } else { 0 };
    let c: int = if v.clean_session { 1 } else { 0 };
    let (r, q, w): (int, int, int) = match v.will {
        Some(w) => (if w.retain { 1int } else { 0 }, w.qos.spec_code() as int, 1int),
        None => (0int, 0int, 0int),
    };
    assert(0 <= q <= 2);
    let f: int = 128 * u + 64 * p + 32 * r + 8 * q + 4 * w + 2 * c;
    assert(spec_flags(v) as int == f);
    assert((f / 1) % 2 == 0);
    assert((f / 2) % 2 == c);
    assert((f / 4) % 2 == w);
    assert((f / 8) % 4 == q);
    assert((f / 32) % 2 == r);
    assert((f / 64) % 2 == p);
    assert((f / 128) % 2 == u);
}

/// A will is read back from its wire form.
proof fn lemma_will_round_trip(w: Option<WillView>, rest: Seq<u8>, qos: QoS, retain: bool)
    requires
        w matches Some(x) ==> encode_utf8(x.topic).len() <= 65535 && x.message.len() <= 65535
            && x.qos == qos && x.retain == retain,
    ensures
        spec_parse_will(spec_will_bytes(w) + rest, w is Some, qos, retain)
            == Ok::<(Option<WillView>, nat), DecodingError>((w, spec_will_bytes(w).len())),
{
    if let Some(x) = w {
        let s = spec_will_bytes(w) + rest;
        let tb = length_prefixed(encode_utf8(x.topic));
        assert(s =~= tb + (length_prefixed(x.message) + rest));
        lemma_utf8_field_round_trip(x.topic, length_prefixed(x.message) + rest);
        assert(s.subrange(tb.len() as int, s.len() as int) =~= length_prefixed(x.message) + rest);
        lemma_field_round_trip(x.message, rest);
    } else {
        assert(spec_will_bytes(w) + rest =~= rest);
    }
}

/// An optional string field is read back from its wire form.
proof fn lemma_opt_utf8_round_trip(u: Option<Seq<char>>, rest: Seq<u8>)
    requires
        u matches Some(x) ==> encode_utf8(x).len() <= 65535,
    ensures
        spec_parse_opt_utf8(spec_opt_utf8_bytes(u) + rest, u is Some)
            == Ok::<(Option<Seq<char>>, nat), DecodingError>((u, spec_opt_utf8_bytes(u).len())),
{
    if let Some(x) = u {
        lemma_utf8_field_round_trip(x, rest);
    }
}

/// An optional byte-string field is read back from its wire form.
proof fn lemma_opt_bytes_round_trip(p: Option<Seq<u8>>, rest: Seq<u8>)
    requires
        p matches Some(x) ==> x.len() <= 65535,
    ensures
        spec_parse_opt_bytes(spec_opt_bytes(p) + rest, p is Some)
            == Ok::<(Option<Seq<u8>>, nat), DecodingError>((p, spec_opt_bytes(p).len())),
{
    if let Some(x) = p {
        lemma_field_round_trip(x, rest);
    }
}

/// The credentials are read back from their wire form.
proof fn lemma_credentials_round_trip(v: ConnectView)
    requires
        connect_wf(v),
    ensures
        spec_parse_credentials(spec_opt_utf8_bytes(v.username) + spec_opt_bytes(v.password), spec_flags(v))
            == Ok::<(Option<Seq<char>>, Option<Seq<u8>>), DecodingError>((v.username, v.password)),
{
    let flags = spec_flags(v);
    let ub = spec_opt_utf8_bytes(v.username);
    let pb = spec_opt_bytes(v.password);
    let p2 = ub + pb;
    lemma_flags(v);
    lemma_opt_utf8_round_trip(v.username, pb);
    let p3 = p2.subrange(ub.len() as int, p2.len() as int);
    assert(p3 =~= pb + Seq::<u8>::empty());
    lemma_opt_bytes_round_trip(v.password, Seq::empty());
}

/// What follows the client identifier is read back from its wire form.
#[verifier::spinoff_prover]
proof fn lemma_after_client_id_round_trip(v: ConnectView)
    requires
        connect_wf(v),
    ensures
        spec_parse_after_client_id(
            spec_will_bytes(v.will) + spec_opt_utf8_bytes(v.username) + spec_opt_bytes(v.password),
            spec_flags(v),
            v.keep_alive,
            v.client_id,
        ) == Ok::<ConnectView, DecodingError>(v),
{
    let flags = spec_flags(v);
    let wb = spec_will_bytes(v.will);
    let ub = spec_opt_utf8_bytes(v.username);
    let pb = spec_opt_bytes(v.password);
    let p1 = wb + ub + pb;
    let qos = QoS::spec_from_code(((flags / 8) % 4) as u8)->0;
    let retain = bit(flags, 32);
    lemma_flags(v);
    if let Some(w) = v.will {
        lemma_qos_code(w.qos);
    }
    assert(p1 =~= wb + (ub + pb));
    lemma_will_round_trip(v.will, ub + pb, qos, retain);
    assert(p1.subrange(wb.len() as int, p1.len() as int) =~= ub + pb);
    lemma_credentials_round_trip(v);
}

/// The payload of a well-formed Connect is read back from its wire form.
#[verifier::spinoff_prover]
proof fn lemma_payload_round_trip(v: ConnectView)
    requires
        connect_wf(v),
    ensures
        spec_parse_connect_payload(spec_connect_payload(v), spec_flags(v), v.keep_alive)
            == Ok::<ConnectView, DecodingError>(v),
{
    let pl = spec_connect_payload(v);
    let cidb = length_prefixed(encode_utf8(v.client_id));
    let rest = spec_will_bytes(v.will) + spec_opt_utf8_bytes(v.username) + spec_opt_bytes(v.password);
    lemma_flags(v);
    assert(pl =~= cidb + rest);
    lemma_utf8_field_round_trip(v.client_id, rest);
    assert(pl.subrange(cidb.len() as int, pl.len() as int) =~= rest);
    lemma_after_client_id_round_trip(v);
}

/// Every well-formed Connect decodes from its wire form to what it says.
#[verifier::spinoff_prover]
pub proof fn lemma_round_trip(v: ConnectView)
    requires
        connect_wf(v),
    ensures
        spec_parse_connect(spec_connect_bytes(v)) == Ok::<ConnectView, DecodingError>(v),
{
    let vh = spec_connect_variable_header(v);
    let pl = spec_connect_payload(v);
    let body = vh + pl;
    lemma_connect_body_len(v);
    lemma_frame_round_trip(FIRST_BYTE, body);
    lemma_flags(v);
    assert(body.subrange(0, 6) =~= seq![0u8, 4u8, 77u8, 81u8, 84u8, 84u8]);
    assert(body[6] == 4u8);
    assert(body[7] == spec_flags(v));
    assert(body.subrange(10, body.len() as int) =~= pl);
    assert((body[8] as int * 256 + body[9] as int) as u16 == v.keep_alive);
    lemma_payload_round_trip(v);
}

/// An optional string field that decodes is its own encoding.
proof fn lemma_opt_utf8_inverse(s: Seq<u8>, present: bool)
    ensures
        spec_parse_opt_utf8(s, present) matches Ok((u, n)) ==> n <= s.len()
            && s.subrange(0, n as int) == spec_opt_utf8_bytes(u) && (u is Some == present),
{
    lemma_utf8_field_inverse(s);
    if !present {
        assert(s.subrange(0, 0) =~= Seq::<u8>::empty());
    }
}

/// An optional byte-string field that decodes is its own encoding.
proof fn lemma_opt_bytes_inverse(s: Seq<u8>, present: bool)
    ensures
        spec_parse_opt_bytes(s, present) matches Ok((b, n)) ==> n <= s.len()
            && s.subrange(0, n as int) == spec_opt_bytes(b) && (b is Some == present),
{
    lemma_field_inverse(s);
    if !present {
        assert(s.subrange(0, 0) =~= Seq::<u8>::empty());
    }
}

/// A will that decodes is its own encoding.
proof fn lemma_will_inverse(s: Seq<u8>, present: bool, qos: QoS, retain: bool)
    ensures
        spec_parse_will(s, present, qos, retain) matches Ok((w, n)) ==> n <= s.len()
            && s.subrange(0, n as int) == spec_will_bytes(w) && (w is Some == present)
            && (w matches Some(x) ==> x.qos == qos && x.retain == retain),
{
    if !present {
        assert(s.subrange(0, 0) =~= Seq::<u8>::empty());
    } else if let Ok((w, n)) = spec_parse_will(s, present, qos, retain) {
        lemma_utf8_field_inverse(s);
        let k = spec_utf8_field(s)->Ok_0.1;
        let t = s.subrange(k as int, s.len() as int);
        lemma_field_inverse(t);
        let j = spec_field(t)->Ok_0.1;
        assert(s.subrange(0, n as int) =~= s.subrange(0, k as int) + t.subrange(0, j as int));
    }
}

/// Credentials that decode are their own encoding.
proof fn lemma_credentials_inverse(s: Seq<u8>, flags: u8)
    ensures
        spec_parse_credentials(s, flags) matches Ok((u, p)) ==> s == spec_opt_utf8_bytes(u) + spec_opt_bytes(p)
            && (u is Some == bit(flags, 128)) && (p is Some == bit(flags, 64)),
{
    if let Ok((u, p)) = spec_parse_credentials(s, flags) {
        lemma_opt_utf8_inverse(s, bit(flags, 128));
        let n = spec_parse_opt_utf8(s, bit(flags, 128))->Ok_0.1;
        let t = s.subrange(n as int, s.len() as int);
        lemma_opt_bytes_inverse(t, bit(flags, 64));
        assert(t.subrange(0, t.len() as int) =~= t);
        assert(s =~= s.subrange(0, n as int) + t);
    }
}

/// What a decoded Connect says follows its flags byte and keep-alive.
#[verifier::opaque]
pub open spec fn follows_flags(v: ConnectView, flags: u8, keep_alive: u16) -> bool {
    &&& v.keep_alive == keep_alive
    &&& v.clean_session == bit(flags, 2)
    &&& v.will is Some == bit(flags, 4)
    &&& (v.will matches Some(w) ==> w.qos == QoS::spec_from_code(((flags / 8) % 4) as u8)->0
        && w.retain == bit(flags, 32))
    &&& v.username is Some == bit(flags, 128)
    &&& v.password is Some == bit(flags, 64)
}

/// What follows the client identifier, when it decodes, is its own
/// encoding, and what it says follows the flags.
#[verifier::spinoff_prover]
proof fn lemma_after_client_id_inverse(p1: Seq<u8>, flags: u8, keep_alive: u16, client_id: Seq<char>, v: ConnectView)
    requires
        spec_parse_after_client_id(p1, flags, keep_alive, client_id) == Ok::<ConnectView, DecodingError>(v),
    ensures
        spec_will_bytes(v.will) + spec_opt_utf8_bytes(v.username) + spec_opt_bytes(v.password) == p1,
        v.client_id == client_id,
        follows_flags(v, flags, keep_alive),
{
    reveal(follows_flags);
    let qos = QoS::spec_from_code(((flags / 8) % 4) as u8)->0;
    lemma_will_inverse(p1, bit(flags, 4), qos, bit(flags, 32));
    let n2 = spec_parse_will(p1, bit(flags, 4), qos, bit(flags, 32))->Ok_0.1;
    let p2 = p1.subrange(n2 as int, p1.len() as int);
    lemma_credentials_inverse(p2, flags);
    assert(p1 =~= p1.subrange(0, n2 as int) + p2);
    assert(spec_will_bytes(v.will) + spec_opt_utf8_bytes(v.username) + spec_opt_bytes(v.password)
        =~= p1.subrange(0, n2 as int) + p2);
}

/// A payload that decodes is the encoding of what it says, and what it says
/// follows the flags.
#[verifier::spinoff_prover]
proof fn lemma_payload_inverse(p: Seq<u8>, flags: u8, keep_alive: u16, v: ConnectView)
    requires
        spec_parse_connect_payload(p, flags, keep_alive) == Ok::<ConnectView, DecodingError>(v),
    ensures
        spec_connect_payload(v) == p,
        follows_flags(v, flags, keep_alive),
{
    lemma_utf8_field_inverse(p);
    let (cid, n1) = spec_utf8_field(p)->Ok_0;
    let p1 = p.subrange(n1 as int, p.len() as int);
    assert(spec_utf8_field(p) == Ok::<(Seq<char>, nat), DecodingError>((cid, n1)));
    assert(!(cid.len() == 0 && !bit(flags, 2)));
    assert(spec_parse_connect_payload(p, flags, keep_alive) == spec_parse_after_client_id(p1, flags, keep_alive, cid));
    lemma_after_client_id_inverse(p1, flags, keep_alive, cid, v);
    let cb = p.subrange(0, n1 as int);
    let rest = spec_will_bytes(v.will) + spec_opt_utf8_bytes(v.username) + spec_opt_bytes(v.password);
    assert(cb == length_prefixed(encode_utf8(cid)));
    assert(v.client_id == cid);
    assert(rest == p1);
    lemma_payload_concat(p, n1 as int, v);
}

/// The payload splits after the client identifier.
proof fn lemma_payload_concat(p: Seq<u8>, n1: int, v: ConnectView)
    requires
        0 <= n1 <= p.len(),
        p.subrange(0, n1) == length_prefixed(encode_utf8(v.client_id)),
        spec_will_bytes(v.will) + spec_opt_utf8_bytes(v.username) + spec_opt_bytes(v.password)
            == p.subrange(n1, p.len() as int),
    ensures
        spec_connect_payload(v) == p,
{
    assert(spec_connect_payload(v) =~= p.subrange(0, n1) + p.subrange(n1, p.len() as int));
    assert(p =~= p.subrange(0, n1) + p.subrange(n1, p.len() as int));
}

/// The flags byte is given back by the fields read from it.
proof fn lemma_flags_inverse(f: u8, v: ConnectView)
    requires
        !bit(f, 1),
        (f / 8) % 4 != 3,
        !bit(f, 4) ==> (f / 8) % 4 == 0 && !bit(f, 32),
        v.clean_session == bit(f, 2),
        v.will is Some == bit(f, 4),
        v.will matches Some(w) ==> w.qos == QoS::spec_from_code(((f / 8) % 4) as u8)->0 && w.retain == bit(f, 32),
        v.username is Some == bit(f, 128),
        v.password is Some == bit(f, 64),
    ensures
        spec_flags(v) == f,
{
    let x: int = f as int;
    let q: int = (x / 8) % 4;
    if let Some(w) = v.will {
        assert(w.qos.spec_code() == q);
    }
    assert(x == 2 * (x / 2) + x % 2);
    assert(x / 2 == 2 * (x / 4) + (x / 2) % 2);
    assert(x / 4 == 2 * (x / 8) + (x / 4) % 2);
    assert(x / 8 == 4 * (x / 32) + (x / 8) % 4);
    assert(x / 32 == 2 * (x / 64) + (x / 32) % 2);
    assert(x / 64 == 2 * (x / 128) + (x / 64) % 2);
    assert(x / 128 == (x / 128) % 2);
    assert(x == 128 * ((x / 128) % 2) + 64 * ((x / 64) % 2) + 32 * ((x / 32) % 2) + 8 * q + 4 * ((x / 4) % 2)
        + 2 * ((x / 2) % 2) + x % 2);
}

/// A variable header that passes the checks is given back by its flags byte
/// and keep-alive.
proof fn lemma_header_inverse(body: Seq<u8>, f: u8, k: u16)
    requires
        spec_parse_connect_header(body) == Ok::<(u8, u16), DecodingError>((f, k)),
    ensures
        body.len() >= 10,
        body.subrange(0, 10) == seq![0u8, 4u8, 77u8, 81u8, 84u8, 84u8, 4u8, f] + be16(k),
        !bit(f, 1),
        (f / 8) % 4 != 3,
        !bit(f, 4) ==> (f / 8) % 4 == 0 && !bit(f, 32),
{
    let h = seq![0u8, 4u8, 77u8, 81u8, 84u8, 84u8];
    assert(body.subrange(0, 6) == h);
    assert(body[0] == h[0] && body[1] == h[1] && body[2] == h[2]) by {
        assert(body.subrange(0, 6)[0] == body[0] && body.subrange(0, 6)[1] == body[1]);
        assert(body.subrange(0, 6)[2] == body[2]);
    }
    assert(body[3] == h[3] && body[4] == h[4] && body[5] == h[5]) by {
        assert(body.subrange(0, 6)[3] == body[3] && body.subrange(0, 6)[4] == body[4]);
        assert(body.subrange(0, 6)[5] == body[5]);
    }
    assert(body.subrange(0, 10) =~= seq![0u8, 4u8, 77u8, 81u8, 84u8, 84u8, 4u8, f] + be16(k));
}

/// A Connect that decodes is the encoding of what it says.
#[verifier::spinoff_prover]
proof fn lemma_decode_encode_of(s: Seq<u8>, v: ConnectView)
    requires
        spec_parse_connect(s) == Ok::<ConnectView, DecodingError>(v),
    ensures
        spec_connect_bytes(v) == s,
{
    lemma_frame_inverse(s);
    let (fb, body) = spec_frame(s)->Ok_0;
    let (f, k) = spec_parse_connect_header(body)->Ok_0;
    let p = body.subrange(10, body.len() as int);
    assert(spec_parse_connect_payload(p, f, k) == Ok::<ConnectView, DecodingError>(v));
    lemma_header_inverse(body, f, k);
    lemma_payload_inverse(p, f, k, v);
    reveal(follows_flags);
    lemma_flags_inverse(f, v);
    assert(spec_connect_variable_header(v) == seq![0u8, 4u8, 77u8, 81u8, 84u8, 84u8, 4u8, f] + be16(k));
    assert(body =~= body.subrange(0, 10) + p);
}

/// A Connect that decodes is the encoding of what it says: decoding keeps
/// the received bytes.
pub proof fn lemma_decode_encode(s: Seq<u8>)
    ensures
        spec_parse_connect(s) matches Ok(v) ==> spec_connect_bytes(v) == s,
{
    if let Ok(v) = spec_parse_connect(s) {
        lemma_decode_encode_of(s, v);
    }
}

/// The code of a level stands for that level.
pub proof fn lemma_qos_code(q: QoS)
    ensures
        QoS::spec_from_code(q.spec_code()) == Some(q),
{
}

/// The body of a well-formed Connect fits the remaining-length field.
pub proof fn lemma_connect_body_len(v: ConnectView)
    requires
        connect_fields_fit(v),
    ensures
        (spec_connect_variable_header(v) + spec_connect_payload(v)).len() <= MAX_REMAINING_LENGTH,
{
}

/// The view of an optional string.
pub open spec fn opt_str_view(o: Option<String>) -> Option<Seq<char>> {
    match o {
        Some(s) => Some(s@),
        None => None,
    }
}

/// The view of an optional byte string.
pub open spec fn opt_bytes_view(o: Option<Vec<u8>>) -> Option<Seq<u8>> {
    match o {
        Some(b) => Some(b@),
        None => None,
    }
}

/// The will of a Connect: a message that the server publishes for the
/// client if the connection breaks without a Disconnect.
#[derive(Debug, PartialEq, Eq)]
pub struct Will {
    pub topic: String,
    pub message: Vec<u8>,
    pub qos: QoS,
    pub retain: bool,
}

impl View for Will {
    type V = WillView;

    open spec fn view(&self) -> WillView {
        WillView { topic: self.topic@, message: self.message@, qos: self.qos, retain: self.retain }
    }
}

/// The view of an optional will.
pub open spec fn opt_will_view(o: Option<Will>) -> Option<WillView> {
    match o {
        Some(w) => Some(w@),
        None => None,
    }
}

impl Clone for Will {
    fn clone(&self) -> (r: Self)
        ensures
            r@ == self@,
    {
        let message = self.message.clone();
        proof {
            assert(message@ =~= self.message@);
        }
        Will { topic: self.topic.clone(), message, qos: self.qos, retain: self.retain }
    }
}

/// Copies an optional will.
fn clone_will(w: &Option<Will>) -> (r: Option<Will>)
    ensures
        opt_will_view(r) == opt_will_view(*w),
{
    match w {
        Some(w) => Some(w.clone()),
        None => None,
    }
}

/// Copies an optional byte string.
fn clone_opt_bytes(b: &Option<Vec<u8>>) -> (r: Option<Vec<u8>>)
    ensures
        opt_bytes_view(r) == opt_bytes_view(*b),
{
    match b {
        Some(b) => {
            let c = b.clone();
            proof {
                assert(c@ =~= b@);
            }
            Some(c)
        },
        None => None,
    }
}

/// Copies an optional string.
fn clone_opt_str(s: &Option<String>) -> (r: Option<String>)
    ensures
        opt_str_view(r) == opt_str_view(*s),
{
    match s {
        Some(s) => Some(s.clone()),
        None => None,
    }
}

/// Reads a string field when `present`.
fn parse_opt_utf8(b: &[u8], present: bool) -> (r: Result<(Option<String>, usize), DecodingError>)
    ensures
        match r {
            Ok((o, n)) => spec_parse_opt_utf8(b@, present)
                == Ok::<(Option<Seq<char>>, nat), DecodingError>((opt_str_view(o), n as nat))
                && n <= b@.len()
                && (o matches Some(t) ==> encode_utf8(t@).len() <= 65535),
            Err(e) => spec_parse_opt_utf8(b@, present) == Err::<(Option<Seq<char>>, nat), DecodingError>(e),
        },
{
    if !present {
        return Ok((None, 0));
    }
    match field::utf8(b) {
        Err(e) => Err(e),
        Ok((t, n)) => Ok((Some(t.to_owned()), n)),
    }
}

/// Reads a byte-string field when `present`.
fn parse_opt_bytes(b: &[u8], present: bool) -> (r: Result<(Option<Vec<u8>>, usize), DecodingError>)
    ensures
        match r {
            Ok((o, n)) => spec_parse_opt_bytes(b@, present)
                == Ok::<(Option<Seq<u8>>, nat), DecodingError>((opt_bytes_view(o), n as nat))
                && n <= b@.len()
                && (o matches Some(x) ==> x@.len() <= 65535),
            Err(e) => spec_parse_opt_bytes(b@, present) == Err::<(Option<Seq<u8>>, nat), DecodingError>(e),
        },
{
    if !present {
        return Ok((None, 0));
    }
    match field::bytes(b) {
        Err(e) => Err(e),
        Ok((x, n)) => Ok((Some(slice_to_vec(x)), n)),
    }
}

/// Reads the will topic and message when `present`.
fn parse_will(b: &[u8], present: bool, qos: QoS, retain: bool) -> (r: Result<(Option<Will>, usize), DecodingError>)
    ensures
        match r {
            Ok((o, n)) => spec_parse_will(b@, present, qos, retain)
                == Ok::<(Option<WillView>, nat), DecodingError>((opt_will_view(o), n as nat))
                && n <= b@.len()
                && (o matches Some(w) ==> encode_utf8(w.topic@).len() <= 65535 && w.message@.len() <= 65535),
            Err(e) => spec_parse_will(b@, present, qos, retain) == Err::<(Option<WillView>, nat), DecodingError>(e),
        },
{
    if !present {
        return Ok((None, 0));
    }
    let (t, n) = match field::utf8(b) {
        Err(e) => return Err(e),
        Ok(x) => x,
    };
    let rest = slice_subrange(b, n, b.len());
    let (m, k) = match field::bytes(rest) {
        Err(e) => return Err(e),
        Ok(x) => x,
    };
    let w = Will { topic: t.to_owned(), message: slice_to_vec(m), qos, retain };
    Ok((Some(w), n + k))
}

/// Reads the username and password that end the payload.
fn parse_credentials(b: &[u8], flags: u8) -> (r: Result<(Option<String>, Option<Vec<u8>>), DecodingError>)
    ensures
        match r {
            Ok((u, p)) => spec_parse_credentials(b@, flags)
                == Ok::<(Option<Seq<char>>, Option<Seq<u8>>), DecodingError>((opt_str_view(u), opt_bytes_view(p)))
                && (u matches Some(t) ==> encode_utf8(t@).len() <= 65535)
                && (p matches Some(x) ==> x@.len() <= 65535),
            Err(e) => spec_parse_credentials(b@, flags)
                == Err::<(Option<Seq<char>>, Option<Seq<u8>>), DecodingError>(e),
        },
{
    let (username, n) = match parse_opt_utf8(b, (flags / 128) % 2 == 1) {
        Err(e) => return Err(e),
        Ok(x) => x,
    };
    let rest = slice_subrange(b, n, b.len());
    let (password, k) = match parse_opt_bytes(rest, (flags / 64) % 2 == 1) {
        Err(e) => return Err(e),
        Ok(x) => x,
    };
    if k != rest.len() {
        return Err(DecodingError::TooManyBytes);
    }
    Ok((username, password))
}

/// Checks the variable header of a Connect.
#[verifier::spinoff_prover]
fn parse_connect_header(body: &[u8]) -> (r: Result<(u8, u16), DecodingError>)
    ensures
        match r {
            Ok((f, k)) => spec_parse_connect_header(body@) == Ok::<(u8, u16), DecodingError>((f, k))
                && body@.len() >= 10 && !(bit(f, 64) && !bit(f, 128)) && (f / 8) % 4 != 3,
            Err(e) => spec_parse_connect_header(body@) == Err::<(u8, u16), DecodingError>(e),
        },
{
    if body.len() < 10 {
        return Err(DecodingError::NotEnoughBytes { minimum: 10, actual: body.len() });
    }
    if !(body[0] == 0 && body[1] == 4 && body[2] == 77 && body[3] == 81 && body[4] == 84 && body[5] == 84) {
        proof {
            assert(body@.subrange(0, 6) != seq![0u8, 4u8, 77u8, 81u8, 84u8, 84u8]) by {
                let s = seq![0u8, 4u8, 77u8, 81u8, 84u8, 84u8];
                if body@.subrange(0, 6) == s {
                    assert(body@[0] == s[0] && body@[1] == s[1] && body@[2] == s[2]);
                    assert(body@[3] == s[3] && body@[4] == s[4] && body@[5] == s[5]);
                }
            }
        }
        return Err(DecodingError::InvalidValue(Reason::ProtocolName));
    }
    proof {
        assert(body@.subrange(0, 6) =~= seq![0u8, 4u8, 77u8, 81u8, 84u8, 84u8]);
    }
    if body[6] != 4 {
        return Err(DecodingError::InvalidValue(Reason::ProtocolLevel));
    }
    let flags = body[7];
    let user = (flags / 128) % 2 == 1;
    let pass = (flags / 64) % 2 == 1;
    let will_flag = (flags / 4) % 2 == 1;
    let will_retain = (flags / 32) % 2 == 1;
    if flags % 2 == 1 || (pass && !user) {
        return Err(DecodingError::InvalidValue(Reason::ConnectFlags));
    }
    if let Err(_) = QoS::try_from_byte((flags / 8) % 4) {
        return Err(DecodingError::InvalidValue(Reason::QoS));
    }
    if !will_flag && ((flags / 8) % 4 != 0 || will_retain) {
        return Err(DecodingError::InvalidValue(Reason::ConnectFlags));
    }
    let keep_alive: u16 = body[8] as u16 * 256 + body[9] as u16;
    Ok((flags, keep_alive))
}

/// Decodes the payload of a Connect whose flags byte is `flags`.
#[verifier::spinoff_prover]
fn parse_connect_payload(p: &[u8], flags: u8, keep_alive: u16) -> (r: Result<Connect, DecodingError>)
    requires
        !(bit(flags, 64) && !bit(flags, 128)),
        (flags / 8) % 4 != 3,
    ensures
        match r {
            Ok(c) => spec_parse_connect_payload(p@, flags, keep_alive) == Ok::<ConnectView, DecodingError>(c@),
            Err(e) => spec_parse_connect_payload(p@, flags, keep_alive) == Err::<ConnectView, DecodingError>(e),
        },
{
    let will_flag = (flags / 4) % 2 == 1;
    let will_retain = (flags / 32) % 2 == 1;
    let clean = (flags / 2) % 2 == 1;
    // The header check leaves no fourth QoS level, so the default is never taken.
    let will_qos = match QoS::try_from_byte((flags / 8) % 4) {
        Err(_) => QoS::AtMostOnceDelivery,
        Ok(q) => q,
    };
    let (cid, n1) = match field::utf8(p) {
        Err(e) => return Err(e),
        Ok(x) => x,
    };
    if cid.len() == 0 && !clean {
        proof {
            assert(cid@.len() == 0) by {
                vstd::utf8::encode_utf8_decode_utf8(cid@);
                if cid@.len() > 0 {
                    reveal_with_fuel(encode_utf8, 1);
                }
            }
        }
        return Err(DecodingError::InvalidValue(Reason::EmptyClientId));
    }
    let p1 = slice_subrange(p, n1, p.len());
    let (will, n2) = match parse_will(p1, will_flag, will_qos, will_retain) {
        Err(e) => return Err(e),
        Ok(x) => x,
    };
    let p2 = slice_subrange(p1, n2, p1.len());
    let (username, password) = match parse_credentials(p2, flags) {
        Err(e) => return Err(e),
        Ok(x) => x,
    };
    proof {
        if cid@.len() == 0 {
            reveal_with_fuel(encode_utf8, 1);
        }
    }
    Ok(Connect { client_id: cid.to_owned(), keep_alive, clean_session: clean, will, username, password })
}

/// A request of a client to open a session.
#[derive(Debug, PartialEq, Eq)]
pub struct Connect {
    client_id: String,
    keep_alive: u16,
    clean_session: bool,
    will: Option<Will>,
    username: Option<String>,
    password: Option<Vec<u8>>,
}

impl View for Connect {
    type V = ConnectView;

    closed spec fn view(&self) -> ConnectView {
        ConnectView {
            client_id: self.client_id@,
            keep_alive: self.keep_alive,
            clean_session: self.clean_session,
            will: opt_will_view(self.will),
            username: opt_str_view(self.username),
            password: opt_bytes_view(self.password),
        }
    }
}

impl Clone for Connect {
    fn clone(&self) -> (r: Self)
        ensures
            r@ == self@,
    {
        proof {
            use_type_invariant(self);
        }
        Connect {
            client_id: self.client_id.clone(),
            keep_alive: self.keep_alive,
            clean_session: self.clean_session,
            will: clone_will(&self.will),
            username: clone_opt_str(&self.username),
            password: clone_opt_bytes(&self.password),
        }
    }
}

/// The connect flags of a Connect.
#[derive(Debug, Clone, Copy, PartialEq, Eq, Structural)]
pub struct Flags(u8);

impl Flags {
    /// The byte.
    pub closed spec fn spec_byte(self) -> u8 {
        self.0
    }

    /// The flags of no field.
    pub fn new() -> (r: Flags)
        ensures
            r.spec_byte() == 0,
    {
        Flags(0)
    }

    /// The byte.
    pub fn byte(&self) -> (r: u8)
        ensures
            r == self.spec_byte(),
    {
        self.0
    }

    /// Whether a username is present.
    pub fn username(&self) -> (r: bool)
        ensures
            r == bit(self.spec_byte(), 128),
    {
        (self.0 / 128) % 2 == 1
    }

    /// Sets the flag of the username.
    pub fn set_username(&mut self)
        ensures
            bit(final(self).spec_byte(), 128),
            final(self).spec_byte() % 128 == old(self).spec_byte() % 128,
    {
        self.0 = self.0 % 128 + 128;
    }

    /// Whether a password is present.
    pub fn password(&self) -> (r: bool)
        ensures
            r == bit(self.spec_byte(), 64),
    {
        (self.0 / 64) % 2 == 1
    }

    /// Sets the flag of the password.
    pub fn set_password(&mut self)
        ensures
            bit(final(self).spec_byte(), 64),
            final(self).spec_byte() % 64 == old(self).spec_byte() % 64,
            final(self).spec_byte() / 128 == old(self).spec_byte() / 128,
    {
        if (self.0 / 64) % 2 == 0 {
            self.0 = self.0 + 64;
        }
    }

    /// Whether the server retains the will message.
    pub fn will_retain(&self) -> (r: bool)
        ensures
            r == bit(self.spec_byte(), 32),
    {
        (self.0 / 32) % 2 == 1
    }

    /// The QoS of the will message, if the two bits hold one.
    pub fn will_qos(&self) -> (r: Option<QoS>)
        ensures
            r == QoS::spec_from_code(((self.spec_byte() / 8) % 4) as u8),
    {
        match QoS::try_from_byte((self.0 / 8) % 4) {
            Ok(q) => Some(q),
            Err(_) => None,
        }
    }

    /// Whether a will is present.
    pub fn will_flag(&self) -> (r: bool)
        ensures
            r == bit(self.spec_byte(), 4),
    {
        (self.0 / 4) % 2 == 1
    }

    /// Whether the session starts afresh.
    pub fn clean_session(&self) -> (r: bool)
        ensures
            r == bit(self.spec_byte(), 2),
    {
        (self.0 / 2) % 2 == 1
    }
}

impl Connect {
    #[verifier::type_invariant]
    closed spec fn inv(&self) -> bool {
        connect_wf(self@)
    }

    /// A builder with an empty client identifier, a keep-alive of 0, and
    /// neither will nor credentials.
    pub fn builder() -> (r: Builder<WithoutAuth, WithoutWill>)
        ensures
            r@ == (ConnectView {
                client_id: Seq::empty(),
                keep_alive: 0,
                clean_session: false,
                will: None,
                username: None,
                password: None,
            }),
    {
        Builder::new()
    }

    /// The connect flags.
    pub fn flags(&self) -> (r: Flags)
        ensures
            r.spec_byte() == spec_flags(self@),
    {
        let u: u8 = if self.username.is_some() { 128 } else { 0 };
        let p: u8 = if self.password.is_some() { 64 } else { 0 };
        let w: u8 = match &self.will {
            Some(w) => (if w.retain { 32u8 } else { 0u8 }) + w.qos.code() * 8 + 4,
            None => 0,
        };
        let c: u8 = if self.clean_session { 2 } else { 0 };
        Flags(u + p + w + c)
    }

    /// The client identifier.
    pub fn client_id(&self) -> (r: &str)
        ensures
            r@ == self@.client_id,
    {
        self.client_id.as_str()
    }

    /// The keep-alive interval in seconds; 0 turns keep-alive off.
    pub fn keep_alive(&self) -> (r: u16)
        ensures
            r == self@.keep_alive,
    {
        self.keep_alive
    }

    /// Whether the session starts afresh.
    pub fn clean_session(&self) -> (r: bool)
        ensures
            r == self@.clean_session,
    {
        self.clean_session
    }

    /// The username, if any.
    pub fn username(&self) -> (r: Option<&str>)
        ensures
            match r {
                Some(u) => self@.username == Some(u@),
                None => self@.username is None,
            },
    {
        match &self.username {
            Some(u) => Some(u.as_str()),
            None => None,
        }
    }

    /// The password, if any.
    pub fn password(&self) -> (r: Option<&[u8]>)
        ensures
            match r {
                Some(p) => self@.password == Some(p@),
                None => self@.password is None,
            },
    {
        match &self.password {
            Some(p) => Some(p.as_slice()),
            None => None,
        }
    }

    /// The will, if any.
    pub fn will(&self) -> (r: Option<&Will>)
        ensures
            match r {
                Some(w) => self@.will == Some(w@),
                None => self@.will is None,
            },
    {
        match &self.will {
            Some(w) => Some(w),
            None => None,
        }
    }

    /// The type of the packet.
    pub fn packet_type(&self) -> (r: PacketType)
        ensures
            r == PacketType::Connect,
    {
        PacketType::Connect
    }

    /// The variable header: protocol name, level, flags and keep-alive.
    pub fn variable_header(&self) -> (r: Vec<u8>)
        ensures
            r@ == spec_connect_variable_header(self@),
    {
        let flags = self.flags();
        let mut r = vec![0u8, 4u8, 77u8, 81u8, 84u8, 84u8, 4u8, flags.byte()];
        put_u16(&mut r, self.keep_alive);
        proof {
            assert(r@ =~= spec_connect_variable_header(self@));
        }
        r
    }

    /// The payload: client identifier, will, username and password.
    pub fn payload(&self) -> (r: Vec<u8>)
        ensures
            r@ == spec_connect_payload(self@),
    {
        proof {
            use_type_invariant(self);
        }
        let mut r = crate::encode::utf8(self.client_id.as_str());
        if let Some(w) = &self.will {
            let t = crate::encode::utf8(w.topic.as_str());
            put_slice(&mut r, t.as_slice());
            let m = crate::encode::bytes(w.message.as_slice());
            put_slice(&mut r, m.as_slice());
            proof {
                assert(r@ =~= length_prefixed(encode_utf8(self@.client_id)) + spec_will_bytes(self@.will));
            }
        } else {
            proof {
                assert(r@ =~= length_prefixed(encode_utf8(self@.client_id)) + spec_will_bytes(self@.will));
            }
        }
        let ghost r1 = r@;
        if let Some(u) = &self.username {
            let t = crate::encode::utf8(u.as_str());
            put_slice(&mut r, t.as_slice());
        }
        proof {
            assert(r@ =~= r1 + spec_opt_utf8_bytes(self@.username));
        }
        let ghost r2 = r@;
        if let Some(p) = &self.password {
            let t = crate::encode::bytes(p.as_slice());
            put_slice(&mut r, t.as_slice());
        }
        proof {
            assert(r@ =~= r2 + spec_opt_bytes(self@.password));
        }
        r
    }

    /// The wire form of the packet.
    pub fn as_bytes(&self) -> (r: Vec<u8>)
        ensures
            r@ == spec_connect_bytes(self@),
    {
        proof {
            use_type_invariant(self);
            lemma_connect_body_len(self@);
        }
        let mut body = self.variable_header();
        let p = self.payload();
        put_slice(&mut body, p.as_slice());
        frame_bytes(FIRST_BYTE, body.as_slice())
    }

    /// The wire form of the packet.
    pub fn into_bytes(self) -> (r: Vec<u8>)
        ensures
            r@ == spec_connect_bytes(self@),
    {
        self.as_bytes()
    }

    /// The number of bytes of the wire form.
    pub fn length(&self) -> (r: usize)
        ensures
            r == spec_connect_bytes(self@).len(),
    {
        let b = self.as_bytes();
        b.len()
    }

    /// Decodes a Connect.
    pub fn try_from(bytes: &[u8]) -> (r: Result<Connect, DecodingError>)
        ensures
            match r {
                Ok(p) => spec_parse_connect(bytes@) == Ok::<ConnectView, DecodingError>(p@)
                    && spec_connect_bytes(p@) == bytes@,
                Err(e) => spec_parse_connect(bytes@) == Err::<ConnectView, DecodingError>(e),
            },
    {
        proof {
            lemma_decode_encode(bytes@);
        }
        let (f, body) = match frame(bytes) {
            Err(e) => return Err(e),
            Ok(x) => x,
        };
        if f / 16 != 1 {
            return Err(DecodingError::InvalidPacketType(f));
        }
        if f % 16 != 0 {
            return Err(DecodingError::HeaderContainsInvalidFlags);
        }
        let (flags, keep_alive) = match parse_connect_header(body) {
            Err(e) => return Err(e),
            Ok(x) => x,
        };
        parse_connect_payload(slice_subrange(body, 10, body.len()), flags, keep_alive)
    }
}

/// A builder that has no username, and so admits no password.
#[derive(Debug, Clone, Copy)]
pub struct WithoutAuth;

/// A builder that has a username, and so admits a password.
#[derive(Debug, Clone, Copy)]
pub struct WithAuth;

/// A builder that has no will, and so admits no will modifiers.
#[derive(Debug, Clone, Copy)]
pub struct WithoutWill;

/// A builder that has a will, and so admits will modifiers.
#[derive(Debug, Clone, Copy)]
pub struct WithWill;

/// Builds a Connect. The markers `A` and `W` record whether a username and a
/// will were given: `password` exists only on `Builder<WithAuth, _>`, and
/// `will_qos` and `retain_will` only on `Builder<_, WithWill>`.
#[derive(Debug)]
pub struct Builder<A, W> {
    client_id: String,
    keep_alive: u16,
    clean_session: bool,
    will: Option<Will>,
    username: Option<String>,
    password: Option<Vec<u8>>,
    auth: PhantomData<A>,
    will_state: PhantomData<W>,
}

impl<A, W> View for Builder<A, W> {
    type V = ConnectView;

    closed spec fn view(&self) -> ConnectView {
        ConnectView {
            client_id: self.client_id@,
            keep_alive: self.keep_alive,
            clean_session: self.clean_session,
            will: opt_will_view(self.will),
            username: opt_str_view(self.username),
            password: opt_bytes_view(self.password),
        }
    }
}

impl Builder<WithoutAuth, WithoutWill> {
    /// A builder with an empty client identifier, a keep-alive of 0, and
    /// neither will nor credentials.
    pub fn new() -> (r: Self)
        ensures
            r@ == (ConnectView {
                client_id: Seq::empty(),
                keep_alive: 0,
                clean_session: false,
                will: None,
                username: None,
                password: None,
            }),
    {
        Builder {
            client_id: String::new(),
            keep_alive: 0,
            clean_session: false,
            will: None,
            username: None,
            password: None,
            auth: PhantomData,
            will_state: PhantomData,
        }
    }
}

impl<A, W> Builder<A, W> {
    #[verifier::type_invariant]
    closed spec fn inv(&self) -> bool {
        connect_fields_fit(self@)
    }

    /// Sets the client identifier.
    pub fn client_id(self, client_id: &str) -> (r: Self)
        requires
            client_id.spec_bytes().len() <= 65535,
        ensures
            r@ == (ConnectView { client_id: client_id@, ..self@ }),
    {
        proof {
            use_type_invariant(&self);
        }
        Builder { client_id: client_id.to_owned(), ..self }
    }

    /// Sets the keep-alive interval in seconds; 0 turns keep-alive off.
    pub fn keep_alive(self, interval: u16) -> (r: Self)
        ensures
            r@ == (ConnectView { keep_alive: interval, ..self@ }),
    {
        proof {
            use_type_invariant(&self);
        }
        Builder { keep_alive: interval, ..self }
    }

    /// Asks the server to start the session afresh.
    pub fn clean_session(self) -> (r: Self)
        ensures
            r@ == (ConnectView { clean_session: true, ..self@ }),
    {
        proof {
            use_type_invariant(&self);
        }
        Builder { clean_session: true, ..self }
    }

    /// Sets the username; after it, a password may be given.
    pub fn username(self, username: &str) -> (r: Builder<WithAuth, W>)
        requires
            username.spec_bytes().len() <= 65535,
        ensures
            r@ == (ConnectView { username: Some(username@), ..self@ }),
    {
        proof {
            use_type_invariant(&self);
        }
        Builder {
            client_id: self.client_id,
            keep_alive: self.keep_alive,
            clean_session: self.clean_session,
            will: self.will,
            username: Some(username.to_owned()),
            password: self.password,
            auth: PhantomData,
            will_state: PhantomData,
        }
    }

    /// Sets a will with QoS 0 and without RETAIN; after it, these may be
    /// changed.
    pub fn will(self, topic: &str, message: &[u8]) -> (r: Builder<A, WithWill>)
        requires
            topic.spec_bytes().len() <= 65535,
            message@.len() <= 65535,
        ensures
            r@ == (ConnectView {
                will: Some(WillView { topic: topic@, message: message@, qos: QoS::AtMostOnceDelivery, retain: false }),
                ..self@
            }),
    {
        proof {
            use_type_invariant(&self);
        }
        let w = Will {
            topic: topic.to_owned(),
            message: slice_to_vec(message),
            qos: QoS::AtMostOnceDelivery,
            retain: false,
        };
        Builder {
            client_id: self.client_id,
            keep_alive: self.keep_alive,
            clean_session: self.clean_session,
            will: Some(w),
            username: self.username,
            password: self.password,
            auth: PhantomData,
            will_state: PhantomData,
        }
    }

    /// The Connect. An empty client identifier forces a clean session.
    pub fn build(self) -> (r: Connect)
        ensures
            r@ == (ConnectView {
                clean_session: self@.clean_session || self@.client_id.len() == 0,
                password: if self@.username is Some { self@.password } else { None },
                ..self@
            }),
            connect_wf(r@),
    {
        proof {
            use_type_invariant(&self);
        }
        let clean = self.clean_session || self.client_id.as_str().len() == 0;
        proof {
            if self.client_id@.len() == 0 {
                reveal_with_fuel(encode_utf8, 1);
            }
            if encode_utf8(self.client_id@).len() == 0 {
                vstd::utf8::encode_utf8_decode_utf8(self.client_id@);
            }
        }
        let password = if self.username.is_some() { self.password } else { None };
        Connect {
            client_id: self.client_id,
            keep_alive: self.keep_alive,
            clean_session: clean,
            will: self.will,
            username: self.username,
            password,
        }
    }

    /// The Connect, as a packet.
    pub fn build_packet(self) -> (r: Packet)
        ensures
            r matches Packet::Connect(c) && connect_wf(c@) && c@.client_id == self@.client_id
                && c@.keep_alive == self@.keep_alive && c@.will == self@.will && c@.username == self@.username,
    {
        Packet::Connect(self.build())
    }
}

impl<W> Builder<WithAuth, W> {
    /// Sets the password.
    pub fn password(self, password: &[u8]) -> (r: Self)
        requires
            password@.len() <= 65535,
        ensures
            r@ == (ConnectView { password: Some(password@), ..self@ }),
    {
        proof {
            use_type_invariant(&self);
        }
        Builder { password: Some(slice_to_vec(password)), ..self }
    }
}

impl<A> Builder<A, WithWill> {
    /// Sets the QoS of the will message.
    pub fn will_qos(self, qos: QoS) -> (r: Self)
        ensures
            r@ == (ConnectView {
                will: match self@.will {
                    Some(w) => Some(WillView { qos, ..w }),
                    None => None,
                },
                ..self@
            }),
    {
        proof {
            use_type_invariant(&self);
        }
        let will = match self.will {
            Some(w) => Some(Will { qos, ..w }),
            None => None,
        };
        Builder { will, ..self }
    }

    /// Asks the server to retain the will message.
    pub fn retain_will(self) -> (r: Self)
        ensures
            r@ == (ConnectView {
                will: match self@.will {
                    Some(w) => Some(WillView { retain: true, ..w }),
                    None => None,
                },
                ..self@
            }),
    {
        proof {
            use_type_invariant(&self);
        }
        let will = match self.will {
            Some(w) => Some(Will { retain: true, ..w }),
            None => None,
        };
        Builder { will, ..self }
    }
}

} // verus!

