//! Encoders for the primitive fields of the wire format.
use vstd::prelude::*;
use vstd::string::StringSliceAdditionalSpecFns;

verus! {

/// The largest value that the remaining-length field can carry.
pub const MAX_REMAINING_LENGTH: usize = 268435455;

/// Big-endian encoding of a 16-bit integer.
pub open spec fn be16(n: u16) -> Seq<u8> {
    seq![(n / 256) as u8, (n % 256) as u8]
}

/// A byte string preceded by its length as a big-endian `u16`.
pub open spec fn length_prefixed(b: Seq<u8>) -> Seq<u8> {
    be16(b.len() as u16) + b
}

/// The remaining-length encoding of `n`: groups of seven bits, least
/// significant group first, the high bit of each byte telling that another
/// byte follows.
pub open spec fn varint(n: nat) -> Seq<u8>
    decreases n,
{
    if n < 128 {
        seq![n as u8]
    } else {
        seq![(n % 128 + 128) as u8] + varint(n / 128)
    }
}

/// A complete packet: the first byte (type and flags), the remaining length,
/// and the body that follows the fixed header.
pub open spec fn framed(first: u8, body: Seq<u8>) -> Seq<u8> {
    seq![first] + varint(body.len()) + body
}

/// Appends every byte of `data` to `buf`.
pub fn put_slice(buf: &mut Vec<u8>, data: &[u8])
    ensures
        final(buf)@ == old(buf)@ + data@,
{
    let mut i: usize = 0;
    while i < data.len()
        invariant
            0 <= i <= data@.len(),
            buf@ == old(buf)@ + data@.subrange(0, i as int),
        decreases data@.len() - i,
    {
        buf.push(data[i]);
        i = i + 1;
        proof {
            assert(data@.subrange(0, i as int) == data@.subrange(0, i - 1) + seq![data@[i - 1]]);
        }
    }
    proof {
        assert(data@.subrange(0, data@.len() as int) == data@);
    }
}

/// Appends `n` in big-endian order.
pub fn put_u16(buf: &mut Vec<u8>, n: u16)
    ensures
        final(buf)@ == old(buf)@ + be16(n),
{
    buf.push((n / 256) as u8);
    buf.push((n % 256) as u8);
    proof {
        assert(final(buf)@ =~= old(buf)@ + be16(n));
    }
}

/// Encodes a UTF-8 string with its two-byte length prefix.
pub fn utf8(value: &str) -> (r: Vec<u8>)
    requires
        value.spec_bytes().len() <= 65535,
    ensures
        r@ == length_prefixed(value.spec_bytes()),
{
    bytes(value.as_bytes())
}

/// Encodes a byte string with its two-byte length prefix.
pub fn bytes(value: &[u8]) -> (r: Vec<u8>)
    requires
        value@.len() <= 65535,
    ensures
        r@ == length_prefixed(value@),
{
    let mut r: Vec<u8> = Vec::new();
    put_u16(&mut r, value.len() as u16);
    put_slice(&mut r, value);
    r
}

/// The number of bytes that the remaining-length encoding of `n` takes.
pub open spec fn varint_len(n: nat) -> nat {
    if n < 128 {
        1
    } else if n < 16384 {
        2
    } else if n < 2097152 {
        3
    } else {
        4
    }
}

/// The remaining-length encoding of a value in range takes one to four bytes.
pub proof fn lemma_varint_len(n: nat)
    requires
        n <= MAX_REMAINING_LENGTH,
    ensures
        varint(n).len() == varint_len(n),
        1 <= varint(n).len() <= 4,
{
    reveal_with_fuel(varint, 5);
    if n >= 128 {
        assert(n / 128 < 128 <==> n < 16384) by (nonlinear_arith);
        assert(n / 128 / 128 < 128 <==> n < 2097152) by (nonlinear_arith);
        assert(n / 128 / 128 / 128 < 128) by (nonlinear_arith)
            requires n <= 268435455;
    }
}

/// Appends the remaining-length encoding of `n`.
pub fn put_remaining_length(buf: &mut Vec<u8>, n: usize)
    requires
        n <= MAX_REMAINING_LENGTH,
    ensures
        final(buf)@ == old(buf)@ + varint(n as nat),
    decreases n,
{
    if n < 128 {
        buf.push(n as u8);
        proof {
            assert(final(buf)@ =~= old(buf)@ + varint(n as nat));
        }
    } else {
        buf.push((n % 128 + 128) as u8);
        put_remaining_length(buf, n / 128);
        proof {
            assert(final(buf)@ =~= old(buf)@ + varint(n as nat));
        }
    }
}

/// Encodes the remaining-length field.
pub fn remaining_length(length: usize) -> (r: Vec<u8>)
    requires
        length <= MAX_REMAINING_LENGTH,
    ensures
        r@ == varint(length as nat),
        1 <= r@.len() <= 4,
{
    let mut r: Vec<u8> = Vec::new();
    put_remaining_length(&mut r, length);
    proof {
        lemma_varint_len(length as nat);
        assert(r@ =~= varint(length as nat));
    }
    r
}

/// Encodes a packet from its first byte and its body.
pub fn frame_bytes(first: u8, body: &[u8]) -> (r: Vec<u8>)
    requires
        body@.len() <= MAX_REMAINING_LENGTH,
    ensures
        r@ == framed(first, body@),
{
    let mut r: Vec<u8> = Vec::new();
    r.push(first);
    put_remaining_length(&mut r, body.len());
    put_slice(&mut r, body);
    proof {
        assert(r@ =~= framed(first, body@));
    }
    r
}

} // verus!
