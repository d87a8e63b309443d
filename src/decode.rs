//! Decoders for the primitive fields of the wire format, and the errors that
//! decoding reports.
use crate::packet::PacketType;
use vstd::prelude::*;
use vstd::slice::slice_subrange;
use vstd::string::StringSliceAdditionalSpecFns;
use crate::encode::{be16, framed, length_prefixed, varint, varint_len, MAX_REMAINING_LENGTH, lemma_varint_len};
use vstd::utf8::{decode_utf8, encode_utf8, encode_utf8_decode_utf8, encode_utf8_valid_utf8, valid_utf8};

pub mod field;

verus! {

/// The first byte of a packet does not name a packet type.
#[derive(Debug, Clone, Copy, PartialEq, Eq, Structural)]
pub struct InvalidPacketTypeError(pub u8);

/// Why a field holds a value that the protocol does not allow.
#[derive(Debug, Clone, Copy, PartialEq, Eq, Structural)]
pub enum Reason {
    /// A string field is not valid UTF-8.
    Utf8,
    /// A quality-of-service level other than 0, 1 or 2.
    QoS,
    /// A return code that the packet type does not define.
    ReturnCode,
    /// The protocol name of a Connect is not `MQTT`.
    ProtocolName,
    /// The protocol level of a Connect is not 4.
    ProtocolLevel,
    /// The connect flags break one of their rules.
    ConnectFlags,
    /// A Connect without client identifier asks to keep its session.
    EmptyClientId,
    /// A Publish topic holds a wildcard character.
    Wildcard,
    /// A Subscribe, SubAck or Unsubscribe without any entry.
    EmptyPayload,
    /// A refused ConnAck tells that a session is present.
    SessionPresent,
}

/// What can go wrong while decoding a packet.
#[derive(Debug, Clone, Copy, PartialEq, Eq, Structural)]
pub enum DecodingError {
    /// The input ends before the field or packet does.
    NotEnoughBytes { minimum: usize, actual: usize },
    /// The input holds bytes after the end of the packet.
    TooManyBytes,
    /// The first byte does not name the expected packet type.
    InvalidPacketType(u8),
    /// A field holds a value that the protocol does not allow.
    InvalidValue(Reason),
    /// The remaining-length field has a continuation bit on its fourth byte.
    InvalidRemainingLength,
    /// The low nibble of the first byte holds flags that the packet type forbids.
    HeaderContainsInvalidFlags,
    /// Any other violation of the packet layout.
    Other,
}

impl DecodingError {
    /// Converts the error raised when the first byte names no packet type.
    pub fn from_invalid_packet_type(e: InvalidPacketTypeError) -> (r: DecodingError)
        ensures
            r == DecodingError::InvalidPacketType(e.0),
    {
        DecodingError::InvalidPacketType(e.0)
    }
}

/// The value of two bytes read in big-endian order.
pub open spec fn be16_value(hi: u8, lo: u8) -> u16 {
    (hi as int * 256 + lo as int) as u16
}

/// Reads a big-endian `u16` at the start of `s`.
pub open spec fn spec_u16(s: Seq<u8>) -> Result<u16, DecodingError> {
    if s.len() < 2 {
        Err(DecodingError::NotEnoughBytes { minimum: 2, actual: s.len() as usize })
    } else {
        Ok(be16_value(s[0], s[1]))
    }
}

/// Reads a length-prefixed byte string at the start of `s`: the string and
/// the number of bytes taken, prefix included.
pub open spec fn spec_field(s: Seq<u8>) -> Result<(Seq<u8>, nat), DecodingError> {
    if s.len() < 2 {
        Err(DecodingError::NotEnoughBytes { minimum: 2, actual: s.len() as usize })
    } else {
        let n = be16_value(s[0], s[1]) as nat;
        if s.len() < n + 2 {
            Err(DecodingError::NotEnoughBytes { minimum: (n + 2) as usize, actual: s.len() as usize })
        } else {
            Ok((s.subrange(2, (n + 2) as int), n + 2))
        }
    }
}

/// Reads a length-prefixed UTF-8 string at the start of `s`.
pub open spec fn spec_utf8_field(s: Seq<u8>) -> Result<(Seq<char>, nat), DecodingError> {
    match spec_field(s) {
        Err(e) => Err(e),
        Ok((b, n)) => if valid_utf8(b) {
            Ok((decode_utf8(b), n))
        } else {
            Err(DecodingError::InvalidValue(Reason::Utf8))
        },
    }
}

/// Reads a remaining-length field at the start of `s`, of which `d` bytes
/// have already been read: its value and the number of bytes it takes from
/// here on. A field written in more bytes than its value needs (a zero
/// after a continuation bit) is invalid, so that each value has one form.
pub open spec fn spec_varint(s: Seq<u8>, d: nat) -> Result<(nat, nat), DecodingError>
    decreases 3 - d,
{
    if s.len() == 0 {
        Err(DecodingError::NotEnoughBytes { minimum: (d + 1) as usize, actual: d as usize })
    } else if s[0] < 128 {
        Ok((s[0] as nat, 1))
    } else if d >= 3 {
        Err(DecodingError::InvalidRemainingLength)
    } else {
        match spec_varint(s.drop_first(), d + 1) {
            Err(e) => Err(e),
            Ok((v, n)) => if v == 0 {
                Err(DecodingError::InvalidRemainingLength)
            } else {
                Ok((((s[0] - 128) + 128 * v) as nat, n + 1))
            },
        }
    }
}

/// The values that a remaining-length field can still take after `d` bytes.
pub open spec fn varint_cap(d: nat) -> nat {
    if d == 0 {
        268435456
    } else if d == 1 {
        2097152
    } else if d == 2 {
        16384
    } else {
        128
    }
}

/// A decoded remaining length is below its cap and takes at most four bytes.
pub proof fn lemma_varint_bound(s: Seq<u8>, d: nat)
    requires
        d <= 3,
    ensures
        spec_varint(s, d) matches Ok((v, n)) ==> v < varint_cap(d) && 1 <= n <= 4 - d,
    decreases 3 - d,
{
    if s.len() > 0 && s[0] >= 128 && d < 3 {
        lemma_varint_bound(s.drop_first(), d + 1);
        if let Ok((v, n)) = spec_varint(s.drop_first(), d + 1) {
            let c = varint_cap(d + 1);
            assert(128 * v <= 128 * (c - 1)) by (nonlinear_arith)
                requires v <= c - 1;
        }
    }
}

/// The total length of the packet whose fixed header starts `s`, read from
/// the remaining-length field that follows the first byte.
pub open spec fn spec_packet_length(s: Seq<u8>) -> Result<u32, DecodingError> {
    match spec_varint(s, 0) {
        Err(e) => Err(e),
        Ok((v, n)) => Ok((v + n + 1) as u32),
    }
}

/// Splits a complete packet into its first byte and its body, checking that
/// the remaining-length field gives the length of the input exactly.
pub open spec fn spec_frame(s: Seq<u8>) -> Result<(u8, Seq<u8>), DecodingError> {
    if s.len() < 2 {
        Err(DecodingError::NotEnoughBytes { minimum: 2, actual: s.len() as usize })
    } else {
        match spec_varint(s.drop_first(), 0) {
            Err(e) => Err(e),
            Ok((v, n)) => {
                let total = 1 + n + v;
                if s.len() < total {
                    Err(DecodingError::NotEnoughBytes { minimum: total as usize, actual: s.len() as usize })
                } else if s.len() > total {
                    Err(DecodingError::TooManyBytes)
                } else {
                    Ok((s[0], s.subrange((1 + n) as int, total as int)))
                }
            },
        }
    }
}

/// Reads the packet type from the high nibble of the first byte.
pub open spec fn spec_packet_type(s: Seq<u8>) -> Result<PacketType, DecodingError> {
    if s.len() == 0 {
        Err(DecodingError::NotEnoughBytes { minimum: 1, actual: 0 })
    } else {
        match PacketType::spec_from_code(s[0] / 16) {
            Some(t) => Ok(t),
            None => Err(DecodingError::InvalidPacketType(s[0])),
        }
    }
}

/// Relies on `std::str::from_utf8`: it succeeds exactly on valid UTF-8, and
/// the text it returns is made of the bytes it was given.
#[verifier::external_body]
fn str_from_utf8(b: &[u8]) -> (r: Option<&str>)
    ensures
        r is Some <==> valid_utf8(b@),
        r matches Some(t) ==> t.spec_bytes() == b@,
{
    std::str::from_utf8(b).ok()
}

/// Checks that `b` is UTF-8 and gives it as text.
pub fn as_utf8(b: &[u8]) -> (r: Result<&str, DecodingError>)
    ensures
        r is Ok <==> valid_utf8(b@),
        r matches Ok(t) ==> t@ == decode_utf8(b@) && t.spec_bytes() == b@,
        r matches Err(e) ==> e == DecodingError::InvalidValue(Reason::Utf8),
{
    match str_from_utf8(b) {
        Some(t) => {
            proof {
                encode_utf8_decode_utf8(t@);
            }
            Ok(t)
        },
        None => Err(DecodingError::InvalidValue(Reason::Utf8)),
    }
}

/// Reads the packet type from the first byte of `bytes`.
pub fn packet_type(bytes: &[u8]) -> (r: Result<PacketType, DecodingError>)
    ensures
        r == spec_packet_type(bytes@),
{
    if bytes.len() == 0 {
        return Err(DecodingError::NotEnoughBytes { minimum: 1, actual: 0 });
    }
    match PacketType::from_code(bytes[0] / 16) {
        Some(t) => Ok(t),
        None => Err(DecodingError::InvalidPacketType(bytes[0])),
    }
}

/// Reads a packet identifier: a big-endian `u16`.
pub fn packet_identifier(bytes: &[u8]) -> (r: Result<u16, DecodingError>)
    ensures
        r == spec_u16(bytes@),
{
    u16(bytes)
}

/// Reads a big-endian `u16` at the start of `bytes`.
pub fn u16(bytes: &[u8]) -> (r: Result<u16, DecodingError>)
    ensures
        r == spec_u16(bytes@),
{
    if bytes.len() < 2 {
        return Err(DecodingError::NotEnoughBytes { minimum: 2, actual: bytes.len() });
    }
    Ok(bytes[0] as u16 * 256 + bytes[1] as u16)
}

/// Reads a remaining-length field of which `d` bytes have already been read.
fn varint_from(bytes: &[u8], d: usize) -> (r: Result<(u32, usize), DecodingError>)
    requires
        d <= 3,
    ensures
        match r {
            Ok((v, n)) => spec_varint(bytes@, d as nat) == Ok::<(nat, nat), DecodingError>((v as nat, n as nat)),
            Err(e) => spec_varint(bytes@, d as nat) == Err::<(nat, nat), DecodingError>(e),
        },
    decreases 3 - d,
{
    if bytes.len() == 0 {
        return Err(DecodingError::NotEnoughBytes { minimum: d + 1, actual: d });
    }
    let b = bytes[0];
    if b < 128 {
        return Ok((b as u32, 1));
    }
    if d >= 3 {
        return Err(DecodingError::InvalidRemainingLength);
    }
    let rest = slice_subrange(bytes, 1, bytes.len());
    proof {
        assert(rest@ =~= bytes@.drop_first());
        lemma_varint_bound(rest@, (d + 1) as nat);
    }
    match varint_from(rest, d + 1) {
        Ok((v, n)) => if v == 0 {
            Err(DecodingError::InvalidRemainingLength)
        } else {
            Ok(((b - 128) as u32 + 128 * v, n + 1))
        },
        Err(e) => Err(e),
    }
}

/// Reads the remaining-length field at the start of `bytes`: its value and
/// the number of bytes it takes.
pub fn remaining_length(bytes: &[u8]) -> (r: Result<(u32, usize), DecodingError>)
    ensures
        match r {
            Ok((v, n)) => spec_varint(bytes@, 0) == Ok::<(nat, nat), DecodingError>((v as nat, n as nat))
                && 1 <= n <= 4 && v < 268435456,
            Err(e) => spec_varint(bytes@, 0) == Err::<(nat, nat), DecodingError>(e),
        },
{
    proof {
        lemma_varint_bound(bytes@, 0);
    }
    varint_from(bytes, 0)
}

/// Reads the remaining-length field that starts `bytes` (the input after the
/// first byte of a packet) and gives the total length of the packet.
pub fn packet_length(bytes: &[u8]) -> (r: Result<u32, DecodingError>)
    ensures
        r == spec_packet_length(bytes@),
{
    match remaining_length(bytes) {
        Ok((v, n)) => Ok(v + n as u32 + 1),
        Err(e) => Err(e),
    }
}

/// Splits a complete packet into its first byte and its body.
pub fn frame(bytes: &[u8]) -> (r: Result<(u8, &[u8]), DecodingError>)
    ensures
        match r {
            Ok((f, body)) => spec_frame(bytes@) == Ok::<(u8, Seq<u8>), DecodingError>((f, body@))
                && body@.len() <= MAX_REMAINING_LENGTH,
            Err(e) => spec_frame(bytes@) == Err::<(u8, Seq<u8>), DecodingError>(e),
        },
{
    if bytes.len() < 2 {
        return Err(DecodingError::NotEnoughBytes { minimum: 2, actual: bytes.len() });
    }
    let rest = slice_subrange(bytes, 1, bytes.len());
    proof {
        assert(rest@ =~= bytes@.drop_first());
    }
    match remaining_length(rest) {
        Err(e) => Err(e),
        Ok((v, n)) => {
            let total: usize = 1 + n + v as usize;
            if bytes.len() < total {
                Err(DecodingError::NotEnoughBytes { minimum: total, actual: bytes.len() })
            } else if bytes.len() > total {
                Err(DecodingError::TooManyBytes)
            } else {
                Ok((bytes[0], slice_subrange(bytes, 1 + n, total)))
            }
        },
    }
}

/// Reads a length-prefixed UTF-8 string at the start of `bytes`.
pub fn utf8(bytes: &[u8]) -> (r: Result<&str, DecodingError>)
    ensures
        match r {
            Ok(t) => spec_utf8_field(bytes@) matches Ok((c, _)) && c == t@,
            Err(e) => spec_utf8_field(bytes@) == Err::<(Seq<char>, nat), DecodingError>(e),
        },
{
    match field::utf8(bytes) {
        Ok((t, _)) => Ok(t),
        Err(e) => Err(e),
    }
}

/// Reads a length-prefixed byte string at the start of `bytes`.
pub fn bytes(value: &[u8]) -> (r: Result<&[u8], DecodingError>)
    ensures
        match r {
            Ok(b) => spec_field(value@) matches Ok((c, _)) && c == b@,
            Err(e) => spec_field(value@) == Err::<(Seq<u8>, nat), DecodingError>(e),
        },
{
    match field::bytes(value) {
        Ok((b, _)) => Ok(b),
        Err(e) => Err(e),
    }
}

/// A remaining length below its cap is read back from its encoding,
/// whatever follows it.
pub proof fn lemma_varint_round_trip(n: nat, rest: Seq<u8>, d: nat)
    requires
        d <= 3,
        n < varint_cap(d),
    ensures
        spec_varint(varint(n) + rest, d) == Ok::<(nat, nat), DecodingError>((n, varint(n).len())),
    decreases n,
{
    let s = varint(n) + rest;
    if n < 128 {
        assert(s[0] == n as u8);
    } else {
        assert(d < 3);
        assert(n / 128 < varint_cap(d + 1));
        assert(n / 128 >= 1);
        lemma_varint_round_trip(n / 128, rest, d + 1);
        assert(s.drop_first() =~= varint(n / 128) + rest);
        assert(s[0] == (n % 128 + 128) as u8);
    }
}

/// Every remaining length in range is decoded from its encoding.
pub proof fn lemma_remaining_length_round_trip(n: nat)
    requires
        n <= MAX_REMAINING_LENGTH,
    ensures
        spec_varint(varint(n), 0) == Ok::<(nat, nat), DecodingError>((n, varint_len(n))),
{
    lemma_varint_round_trip(n, Seq::empty(), 0);
    assert(varint(n) + Seq::<u8>::empty() =~= varint(n));
    lemma_varint_len(n);
}

/// A continuation bit on each of the first four bytes makes the field invalid.
pub proof fn lemma_fourth_continuation_is_invalid(s: Seq<u8>)
    requires
        s.len() >= 4,
        s[0] >= 128,
        s[1] >= 128,
        s[2] >= 128,
        s[3] >= 128,
    ensures
        spec_varint(s, 0) == Err::<(nat, nat), DecodingError>(DecodingError::InvalidRemainingLength),
{
    let s1 = s.drop_first();
    let s2 = s1.drop_first();
    let s3 = s2.drop_first();
    assert(s1[0] == s[1] && s2[0] == s[2] && s3[0] == s[3]);
    assert(spec_varint(s3, 3) == Err::<(nat, nat), DecodingError>(DecodingError::InvalidRemainingLength));
    assert(spec_varint(s2, 2) == Err::<(nat, nat), DecodingError>(DecodingError::InvalidRemainingLength));
    assert(spec_varint(s1, 1) == Err::<(nat, nat), DecodingError>(DecodingError::InvalidRemainingLength));
}

/// A big-endian `u16` is read back from its encoding.
pub proof fn lemma_u16_round_trip(n: u16, rest: Seq<u8>)
    ensures
        spec_u16(be16(n) + rest) == Ok::<u16, DecodingError>(n),
{
    let s = be16(n) + rest;
    assert(s[0] == (n / 256) as u8 && s[1] == (n % 256) as u8);
}

/// A length-prefixed byte string is read back from its encoding.
pub proof fn lemma_field_round_trip(b: Seq<u8>, rest: Seq<u8>)
    requires
        b.len() <= 65535,
    ensures
        spec_field(length_prefixed(b) + rest) == Ok::<(Seq<u8>, nat), DecodingError>((b, b.len() + 2)),
        length_prefixed(b).len() == b.len() + 2,
{
    let s = length_prefixed(b) + rest;
    let n = b.len() as u16;
    assert(s[0] == (n / 256) as u8 && s[1] == (n % 256) as u8);
    assert(be16_value(s[0], s[1]) == n);
    assert(s.subrange(2, (b.len() + 2) as int) =~= b);
}

/// A length-prefixed UTF-8 string is read back from its encoding.
pub proof fn lemma_utf8_field_round_trip(c: Seq<char>, rest: Seq<u8>)
    requires
        encode_utf8(c).len() <= 65535,
    ensures
        spec_utf8_field(length_prefixed(encode_utf8(c)) + rest)
            == Ok::<(Seq<char>, nat), DecodingError>((c, encode_utf8(c).len() + 2)),
{
    lemma_field_round_trip(encode_utf8(c), rest);
    encode_utf8_valid_utf8(c);
    encode_utf8_decode_utf8(c);
}

/// A packet body is split back from the frame that carries it.
pub proof fn lemma_frame_round_trip(first: u8, body: Seq<u8>)
    requires
        body.len() <= MAX_REMAINING_LENGTH,
    ensures
        spec_frame(framed(first, body)) == Ok::<(u8, Seq<u8>), DecodingError>((first, body)),
{
    let s = framed(first, body);
    let v = varint(body.len());
    lemma_varint_len(body.len());
    assert(s.drop_first() =~= v + body);
    lemma_varint_round_trip(body.len(), body, 0);
    assert(s.subrange((1 + v.len()) as int, s.len() as int) =~= body);
}

/// A remaining-length field that decodes is the encoding of its value.
pub proof fn lemma_varint_inverse(s: Seq<u8>, d: nat)
    requires
        d <= 3,
    ensures
        spec_varint(s, d) matches Ok((v, n)) ==> n <= s.len() && s.subrange(0, n as int) == varint(v),
    decreases 3 - d,
{
    if let Ok((v, n)) = spec_varint(s, d) {
        if s[0] < 128 {
            assert(s.subrange(0, 1) =~= varint(v));
        } else {
            let t = s.drop_first();
            lemma_varint_inverse(t, d + 1);
            let (w, k) = spec_varint(t, d + 1)->Ok_0;
            let a = (s[0] - 128) as nat;
            assert(v == a + 128 * w);
            assert(v >= 128);
            assert(v % 128 == a && v / 128 == w) by (nonlinear_arith)
                requires v == a + 128 * w, a < 128;
            assert(s.subrange(0, n as int) =~= seq![s[0]] + t.subrange(0, k as int));
            assert(varint(v) == seq![(v % 128 + 128) as u8] + varint(v / 128));
        }
    }
}

/// A frame that decodes is the encoding of its first byte and body.
pub proof fn lemma_frame_inverse(s: Seq<u8>)
    ensures
        spec_frame(s) matches Ok((f, body)) ==> s == framed(f, body),
{
    if let Ok((f, body)) = spec_frame(s) {
        let t = s.drop_first();
        lemma_varint_inverse(t, 0);
        let (v, n) = spec_varint(t, 0)->Ok_0;
        assert(body.len() == v);
        assert(s =~= seq![s[0]] + t.subrange(0, n as int) + body);
    }
}

/// A big-endian `u16` that decodes is the encoding of its value.
pub proof fn lemma_u16_inverse(s: Seq<u8>)
    ensures
        spec_u16(s) matches Ok(x) ==> s.len() >= 2 && s.subrange(0, 2) == be16(x),
{
    if let Ok(x) = spec_u16(s) {
        assert(s.subrange(0, 2) =~= be16(x));
    }
}

/// A length-prefixed byte string that decodes is its own encoding.
pub proof fn lemma_field_inverse(s: Seq<u8>)
    ensures
        spec_field(s) matches Ok((b, n)) ==> n <= s.len() && b.len() <= 65535
            && s.subrange(0, n as int) == length_prefixed(b),
{
    if let Ok((b, n)) = spec_field(s) {
        let k = b.len() as u16;
        assert(k as int == s[0] as int * 256 + s[1] as int);
        assert(s.subrange(0, n as int) =~= be16(k) + b);
    }
}

/// A length-prefixed UTF-8 string that decodes is its own encoding.
pub proof fn lemma_utf8_field_inverse(s: Seq<u8>)
    ensures
        spec_utf8_field(s) matches Ok((c, n)) ==> n <= s.len() && encode_utf8(c).len() <= 65535
            && s.subrange(0, n as int) == length_prefixed(encode_utf8(c)),
{
    lemma_field_inverse(s);
    if let Ok((b, n)) = spec_field(s) {
        if valid_utf8(b) {
            vstd::utf8::decode_utf8_encode_utf8(b);
        }
    }
}

} // verus!
