//! Decoders that also report how many bytes a field takes.
use crate::decode::{as_utf8, spec_field, spec_utf8_field, DecodingError};
use vstd::prelude::*;
use vstd::slice::slice_subrange;
use vstd::string::StringSliceAdditionalSpecFns;

verus! {

/// Reads a length-prefixed byte string: the string and the number of bytes
/// it takes, prefix included.
pub fn variable_length(bytes: &[u8]) -> (r: Result<(&[u8], usize), DecodingError>)
    ensures
        match r {
            Ok((b, n)) => spec_field(bytes@) == Ok::<(Seq<u8>, nat), DecodingError>((b@, n as nat)),
            Err(e) => spec_field(bytes@) == Err::<(Seq<u8>, nat), DecodingError>(e),
        },
{
    if bytes.len() < 2 {
        return Err(DecodingError::NotEnoughBytes { minimum: 2, actual: bytes.len() });
    }
    let length: usize = bytes[0] as usize * 256 + bytes[1] as usize;
    if bytes.len() < length + 2 {
        return Err(DecodingError::NotEnoughBytes { minimum: length + 2, actual: bytes.len() });
    }
    Ok((slice_subrange(bytes, 2, 2 + length), length + 2))
}

/// The length-prefixed byte string that comes after `n` others at the start
/// of `s`.
pub open spec fn spec_nth_field(s: Seq<u8>, n: nat) -> Result<(Seq<u8>, nat), DecodingError>
    decreases n,
{
    if n == 0 {
        spec_field(s)
    } else {
        match spec_field(s) {
            Err(e) => Err(e),
            Ok((_, k)) => spec_nth_field(s.subrange(k as int, s.len() as int), (n - 1) as nat),
        }
    }
}

/// Skips `n` length-prefixed byte strings and reads the next one.
pub fn variable_length_n(bytes: &[u8], n: usize) -> (r: Result<(&[u8], usize), DecodingError>)
    ensures
        match r {
            Ok((b, k)) => spec_nth_field(bytes@, n as nat) == Ok::<(Seq<u8>, nat), DecodingError>((b@, k as nat)),
            Err(e) => spec_nth_field(bytes@, n as nat) == Err::<(Seq<u8>, nat), DecodingError>(e),
        },
    decreases n,
{
    if n == 0 {
        return variable_length(bytes);
    }
    match variable_length(bytes) {
        Err(e) => Err(e),
        Ok((_, k)) => variable_length_n(slice_subrange(bytes, k, bytes.len()), n - 1),
    }
}

/// Reads a length-prefixed UTF-8 string and the number of bytes it takes.
pub fn utf8(bytes: &[u8]) -> (r: Result<(&str, usize), DecodingError>)
    ensures
        match r {
            Ok((t, n)) => spec_utf8_field(bytes@) == Ok::<(Seq<char>, nat), DecodingError>((t@, n as nat))
                && 2 <= n <= bytes@.len() && t.spec_bytes() == bytes@.subrange(2, n as int),
            Err(e) => spec_utf8_field(bytes@) == Err::<(Seq<char>, nat), DecodingError>(e),
        },
{
    match variable_length(bytes) {
        Err(e) => Err(e),
        Ok((b, n)) => match as_utf8(b) {
            Ok(t) => Ok((t, n)),
            Err(e) => Err(e),
        },
    }
}

/// Reads a length-prefixed byte string and the number of bytes it takes.
pub fn bytes(value: &[u8]) -> (r: Result<(&[u8], usize), DecodingError>)
    ensures
        match r {
            Ok((b, n)) => spec_field(value@) == Ok::<(Seq<u8>, nat), DecodingError>((b@, n as nat)),
            Err(e) => spec_field(value@) == Err::<(Seq<u8>, nat), DecodingError>(e),
        },
{
    variable_length(value)
}

} // verus!
