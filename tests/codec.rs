use tjiftjaf::decode::{self, field, DecodingError};
use tjiftjaf::encode;

#[test]
fn remaining_length_round_trip() {
    for n in [0usize, 1, 127, 128, 16383, 16384, 2097151, 2097152, 268435455] {
        let bytes = encode::remaining_length(n);
        let (v, k) = decode::remaining_length(&bytes).unwrap();
        assert_eq!(v as usize, n);
        assert_eq!(k, bytes.len());
    }
    assert_eq!(encode::remaining_length(321), vec![0xC1, 0x02]);
    assert_eq!(encode::remaining_length(268435455), vec![0xFF, 0xFF, 0xFF, 0x7F]);
}

#[test]
fn fourth_continuation_bit_is_invalid() {
    assert_eq!(
        decode::remaining_length(&[0x80, 0x80, 0x80, 0x80, 0x01]),
        Err(DecodingError::InvalidRemainingLength)
    );
    assert_eq!(
        decode::remaining_length(&[0x80, 0x80]),
        Err(DecodingError::NotEnoughBytes { minimum: 3, actual: 2 })
    );
}

#[test]
fn packet_length_counts_the_header() {
    assert_eq!(decode::packet_length(&[2]), Ok(4));
    assert_eq!(decode::packet_length(&[0xC1, 0x02]), Ok(324));
}

#[test]
fn primitive_fields() {
    assert_eq!(decode::u16(&[0x06, 0x20]), Ok(1568));
    assert_eq!(decode::u16(&[0x06]), Err(DecodingError::NotEnoughBytes { minimum: 2, actual: 1 }));
    assert_eq!(encode::utf8("ab"), vec![0, 2, b'a', b'b']);
    assert_eq!(encode::bytes(&[9, 8]), vec![0, 2, 9, 8]);
    assert_eq!(decode::utf8(&[0, 2, b'a', b'b', 7]), Ok("ab"));
    assert_eq!(decode::bytes(&[0, 1, 9]), Ok(&[9u8][..]));
    assert_eq!(
        decode::bytes(&[0, 3, 9]),
        Err(DecodingError::NotEnoughBytes { minimum: 5, actual: 3 })
    );
    assert_eq!(field::utf8(&[0, 1, b'x', 0, 0]), Ok(("x", 3)));
    assert_eq!(field::variable_length_n(&[0, 1, b'x', 0, 2, b'y', b'z'], 1), Ok((&b"yz"[..], 4)));
    assert_eq!(decode::packet_identifier(&[1, 0]), Ok(256));
    assert_eq!(decode::packet_type(&[0x30]), Ok(tjiftjaf::PacketType::Publish));
    assert_eq!(decode::packet_type(&[]), Err(DecodingError::NotEnoughBytes { minimum: 1, actual: 0 }));
}

#[test]
fn identifiers_from_the_clock() {
    assert_eq!(tjiftjaf::identifier_from_clock(Some(65536 * 7 + 1234)), 1234);
    assert_eq!(tjiftjaf::identifier_from_clock(None), 0);
    let _ = tjiftjaf::packet_identifier();
}

#[test]
fn overlong_remaining_length_is_invalid() {
    assert_eq!(decode::remaining_length(&[0x82, 0x00]), Err(DecodingError::InvalidRemainingLength));
    assert_eq!(decode::remaining_length(&[0x80, 0x80, 0x00]), Err(DecodingError::InvalidRemainingLength));
    assert_eq!(
        tjiftjaf::Publish::try_from(&[0x30u8, 0x82, 0x00, 0x00, 0x00][..]).unwrap_err(),
        DecodingError::InvalidRemainingLength
    );
    assert_eq!(decode::remaining_length(&[0x80, 0x01]), Ok((128, 2)));
}

#[test]
fn decoding_keeps_the_received_bytes() {
    let inputs: Vec<Vec<u8>> = vec![
        vec![0x30, 3, 0, 1, b'a'],
        vec![0x3B, 7, 0, 1, b'a', 0, 9, b'x', b'y'],
        vec![0x62, 2, 0, 5],
        vec![0x20, 2, 1, 0],
        vec![0x90, 4, 0, 7, 0x80, 2],
        vec![0x82, 6, 0, 1, 0, 1, b'#', 1],
        vec![0xA2, 5, 0, 1, 0, 1, b'+'],
        vec![0xC0, 0],
    ];
    for input in inputs {
        let p = tjiftjaf::Packet::try_from(&input).unwrap();
        assert_eq!(p.into_bytes(), input);
    }
}
