use tjiftjaf::decode::{DecodingError, Reason};
use tjiftjaf::packet::connack::ReturnCode;
use tjiftjaf::packet::suback::ReturnCode as SubAckReturnCode;
use tjiftjaf::{
    connect, subscribe, ConnAck, Connect, Disconnect, Packet, PacketType, PingReq, PingResp, PubAck,
    PubComp, PubRec, PubRel, Publish, QoS, SubAck, Subscribe, UnsubAck, Unsubscribe,
};

#[test]
fn test_building_connack() {
    let connack = ConnAck::builder().build();
    assert!(!connack.session_present());
    assert_eq!(connack.return_code(), ReturnCode::ConnectionAccepted);

    // A refused connection never reports a session, whatever the builder was told.
    let connack = ConnAck::builder()
        .session_present()
        .return_code(ReturnCode::ConnectionRefusedNotAuthorized)
        .build();
    assert!(!connack.session_present());
    assert_eq!(connack.return_code(), ReturnCode::ConnectionRefusedNotAuthorized);

    let connack = ConnAck::builder().session_present().build();
    assert!(connack.session_present());
}

#[test]
fn test_decode_connack() {
    // This input is too short.
    let input = [32u8, 2, 0];
    assert!(ConnAck::try_from(&input[..]).is_err());

    // This input is too long.
    let input = [32u8, 2, 0, 0, 0];
    assert!(ConnAck::try_from(&input[..]).is_err());
}

#[test]
fn connect_test_connect() {
    let packet = Connect::builder().build();
    let connect = Connect::try_from(&packet.as_bytes()).unwrap();
    assert!(connect.will().is_none());

    let packet = Connect::builder().username("admin").build();
    let connect = Connect::try_from(&packet.as_bytes()).unwrap();
    assert_eq!(connect.username(), Some("admin"));
    assert_eq!(connect.password(), None);

    let Packet::Connect(packet) = tjiftjaf::connect("test", 300) else {
        panic!()
    };
    let connect = Connect::try_from(&packet.as_bytes()).unwrap();
    assert!(connect.will().is_none());
    assert_eq!(connect.keep_alive(), 300);
    assert_eq!(connect.client_id(), "test");
}

#[test]
fn test_gh_61_fix_for_building_long_connect_packet() {
    let packet = Connect::builder().will("topic", &[0u8; 255]).build();
    assert!(Connect::try_from(&packet.as_bytes()).is_ok());
}

#[test]
fn disconnect_test_encode_and_decode() {
    Disconnect::try_from(&Disconnect.as_bytes()).unwrap();
    Disconnect::try_from(&Disconnect.into_bytes()).unwrap();
    assert!(Disconnect::try_from(&[15 << 4, 0][..]).is_err());
}

#[test]
fn disconnect_test_variable_header() {
    assert!(Disconnect.variable_header().is_empty())
}

#[test]
fn ping_resp_test_encode_and_decode() {
    PingResp::try_from(&PingResp.as_bytes()).unwrap();
    PingResp::try_from(&PingResp.into_bytes()).unwrap();
    assert!(PingResp::try_from(&[15 << 4, 0][..]).is_err());
}

#[test]
fn ping_resp_test_variable_header() {
    assert!(PingResp.variable_header().is_empty())
}

#[test]
fn ping_req_test_encode_and_decode() {
    PingReq::try_from(&PingReq.as_bytes()).unwrap();
    PingReq::try_from(&PingReq.into_bytes()).unwrap();
    assert!(PingReq::try_from(&[15 << 4, 0][..]).is_err());
}

#[test]
fn ping_req_test_variable_header() {
    assert!(PingReq.variable_header().is_empty())
}

#[test]
fn puback_test_encode_and_decode() {
    let puback = PubAck::new(1568);
    PubAck::try_from(&puback.as_bytes()).unwrap();
    assert_eq!(puback.packet_identifier(), 1568);
}

#[test]
fn pubrec_test_encode_and_decode() {
    let pubrec = PubRec::new(1568);
    PubRec::try_from(&pubrec.as_bytes()).unwrap();
    assert_eq!(pubrec.packet_identifier(), 1568);
}

#[test]
fn pubrel_test_encode_and_decode() {
    let pubrel = PubRel::new(1568);
    PubRel::try_from(&pubrel.as_bytes()).unwrap();
    assert_eq!(pubrel.packet_identifier(), 1568);
}

#[test]
fn pubcomp_test_encode_and_decode() {
    let pubcomp = PubComp::new(1568);
    PubComp::try_from(&pubcomp.as_bytes()).unwrap();
    assert_eq!(pubcomp.packet_identifier(), 1568);
}

#[test]
fn unsuback_test_encode_and_decode() {
    let unsuback = UnsubAck::new(1568);
    UnsubAck::try_from(&unsuback.as_bytes()).unwrap();
    assert_eq!(unsuback.packet_identifier(), 1568);
}

#[test]
fn test_fix_for_gh_104() {
    let data = [99u8, 2, 6, 32];
    assert!(PubRel::try_from(&data[..]).is_err());
}

#[test]
fn test_publish_basic() {
    let packet = Publish::builder("test/topic", b"Hello MQTT!")
        .qos(QoS::AtMostOnceDelivery)
        .retain(true)
        .build();
    println!("{:?}", packet.as_bytes());
    assert_eq!(packet.topic(), "test/topic");
    assert_eq!(packet.payload(), b"Hello MQTT!");
    assert_eq!(packet.qos(), QoS::AtMostOnceDelivery);
    assert!(packet.retain());
    assert!(!packet.duplicate());
    assert_eq!(packet.packet_identifier(), None);
}

#[test]
fn test_publish_qos1() {
    let packet = Publish::builder("test/topic", b"Hello MQTT!")
        .qos(QoS::AtLeastOnceDelivery)
        .packet_identifier(1234)
        .build();
    assert_eq!(packet.qos(), QoS::AtLeastOnceDelivery);
    assert_eq!(packet.packet_identifier(), Some(1234));
}

#[test]
fn test_publish_roundtrip() {
    let sent = Publish::builder("test/topic", b"Hello MQTT!")
        .qos(QoS::AtLeastOnceDelivery)
        .packet_identifier(1234)
        .retain(true)
        .duplicate(true)
        .build();
    let bytes = sent.clone().into_bytes();
    let decoded = Publish::try_from(&bytes).unwrap();
    assert_eq!(sent, decoded);
}

#[test]
fn test_suback() {
    let frame = SubAck::builder(14299, QoS::AtMostOnceDelivery.into()).build();
    let _: SubAck = SubAck::try_from(&frame.into_bytes()).unwrap();

    let frame = SubAck::builder(1522, QoS::AtMostOnceDelivery.into())
        .add_return_code(QoS::AtLeastOnceDelivery.into())
        .build();
    let _: SubAck = SubAck::try_from(&frame.into_bytes()).unwrap();
}

#[test]
fn subscribe_test_subscribe() {
    let frame = Subscribe::builder("topic-1", QoS::AtMostOnceDelivery).build();
    let _: Subscribe = Subscribe::try_from(&frame.into_bytes()).unwrap();

    let frame = Subscribe::builder("topic-1", QoS::AtMostOnceDelivery)
        .add_topic("topic-2", QoS::AtLeastOnceDelivery)
        .build();
    let _: Subscribe = Subscribe::try_from(&frame.into_bytes()).unwrap();
}

#[test]
fn gh_40_fix_panic_when_building_subscribe_with_a_lot_of_topics() {
    let mut builder = Subscribe::builder("topic-1", QoS::AtMostOnceDelivery);
    for _ in 0..1145729 {
        builder = builder.add_topic("", QoS::AtMostOnceDelivery);
    }

    builder.build();
}

#[test]
fn gh_45_fix_panic_when_iterating_over_the_topics_of_large_subscribe() {
    let mut builder = Subscribe::builder("topic-1", QoS::AtMostOnceDelivery);
    for _ in 0..1145729 {
        builder = builder.add_topic("", QoS::AtMostOnceDelivery);
    }

    let packet = builder.build();
    let topics = packet.topics();
    for _ in topics {}
}

#[test]
fn subscribe_test_connect() {
    let packet = subscribe("test");
    let topics = packet.topics();
    let (topic, qos) = topics.first().unwrap();
    assert_eq!(topic, "test");
    assert_eq!(qos, &QoS::AtMostOnceDelivery);
    assert!(Subscribe::try_from(&packet.as_bytes()).is_ok());

    let packet = Subscribe::builder("topic_1", QoS::AtMostOnceDelivery)
        .add_topic("topic_2", QoS::ExactlyOnceDelivery)
        .build();
    assert_eq!(packet.topics().len(), 2);
}

#[test]
fn test_unsubscribe() {
    let frame = Unsubscribe::builder("topic-1").build();
    let _: Unsubscribe = Unsubscribe::try_from(&frame.into_bytes()).unwrap();

    let frame = Unsubscribe::builder("topic-1").add_topic("topic-2").build();
    let _: Unsubscribe = Unsubscribe::try_from(&frame.into_bytes()).unwrap();
}

#[test]
fn unsubscribe_test_subscribe() {
    let frame = Unsubscribe::builder("topic-1").build();
    let _: Unsubscribe = Unsubscribe::try_from(&frame.into_bytes()).unwrap();

    let frame = Unsubscribe::builder("topic-1").add_topic("topic-2").build();
    let decoded = Unsubscribe::try_from(&frame.into_bytes()).unwrap();
    assert_eq!(decoded.topics().len(), 2);
    assert_eq!(decoded.topics()[1], "topic-2");
}

// Exact wire forms.

#[test]
fn ack_wire_forms() {
    assert_eq!(PubAck::new(1568).into_bytes(), vec![0x40, 2, 6, 32]);
    assert_eq!(PubRec::new(1568).into_bytes(), vec![0x50, 2, 6, 32]);
    assert_eq!(PubRel::new(1568).into_bytes(), vec![0x62, 2, 6, 32]);
    assert_eq!(PubComp::new(1568).into_bytes(), vec![0x70, 2, 6, 32]);
    assert_eq!(UnsubAck::new(1568).into_bytes(), vec![0xB0, 2, 6, 32]);
    assert_eq!(PingReq.into_bytes(), vec![0xC0, 0]);
    assert_eq!(PingResp.into_bytes(), vec![0xD0, 0]);
    assert_eq!(Disconnect.into_bytes(), vec![0xE0, 0]);
}

#[test]
fn publish_wire_form() {
    let p = Publish::builder("a/b", b"hi")
        .qos(QoS::AtLeastOnceDelivery)
        .packet_identifier(10)
        .retain(true)
        .build();
    assert_eq!(p.into_bytes(), vec![0x33, 9, 0, 3, b'a', b'/', b'b', 0, 10, b'h', b'i']);
}

#[test]
fn publish_duplicate_is_dropped_at_qos_0() {
    let p = Publish::builder("a", b"").duplicate(true).build();
    assert!(!p.duplicate());
    assert_eq!(p.into_bytes(), vec![0x30, 3, 0, 1, b'a']);
}

#[test]
fn publish_without_identifier_gets_one_above_qos_0() {
    let p = Publish::builder("a", b"").qos(QoS::ExactlyOnceDelivery).build();
    assert!(p.packet_identifier().is_some());
}

#[test]
fn connect_wire_form() {
    let c = Connect::builder().client_id("c").keep_alive(60).username("u").password(b"p").build();
    assert_eq!(
        c.into_bytes(),
        vec![0x10, 19, 0, 4, b'M', b'Q', b'T', b'T', 4, 0xC0, 0, 60, 0, 1, b'c', 0, 1, b'u', 0, 1, b'p']
    );
}

#[test]
fn connect_with_will_round_trip() {
    let c = Connect::builder()
        .client_id("id")
        .will("last/words", b"bye")
        .will_qos(QoS::AtLeastOnceDelivery)
        .retain_will()
        .clean_session()
        .build();
    let flags = c.flags();
    assert!(flags.will_flag());
    assert!(flags.will_retain());
    assert_eq!(flags.will_qos(), Some(QoS::AtLeastOnceDelivery));
    assert!(flags.clean_session());
    assert!(!flags.username());
    assert!(!flags.password());
    let d = Connect::try_from(&c.as_bytes()).unwrap();
    assert_eq!(c, d);
    let w = d.will().unwrap();
    assert_eq!(w.topic, "last/words");
    assert_eq!(w.message, b"bye".to_vec());
}

#[test]
fn connect_empty_client_id_forces_clean_session() {
    let c = Connect::builder().build();
    assert!(c.clean_session());
}

#[test]
fn connect_decoding_errors() {
    let good = Connect::builder().client_id("x").build().into_bytes();
    let mut bad = good.clone();
    bad[4] = b'X';
    assert_eq!(Connect::try_from(&bad).unwrap_err(), DecodingError::InvalidValue(Reason::ProtocolName));
    let mut bad = good.clone();
    bad[8] = 3;
    assert_eq!(Connect::try_from(&bad).unwrap_err(), DecodingError::InvalidValue(Reason::ProtocolLevel));
    let mut bad = good.clone();
    bad[9] = 0x40;
    assert_eq!(Connect::try_from(&bad).unwrap_err(), DecodingError::InvalidValue(Reason::ConnectFlags));
    let mut bad = good.clone();
    bad[9] = 0x01;
    assert_eq!(Connect::try_from(&bad).unwrap_err(), DecodingError::InvalidValue(Reason::ConnectFlags));
}

#[test]
fn decoding_error_variants() {
    assert_eq!(
        PubAck::try_from(&[0x40u8, 2, 0][..]).unwrap_err(),
        DecodingError::NotEnoughBytes { minimum: 4, actual: 3 }
    );
    assert_eq!(PubAck::try_from(&[0x40u8, 2, 0, 1, 9][..]).unwrap_err(), DecodingError::TooManyBytes);
    assert_eq!(PubAck::try_from(&[0x50u8, 2, 0, 1][..]).unwrap_err(), DecodingError::InvalidPacketType(0x50));
    assert_eq!(PubRel::try_from(&[0x60u8, 2, 0, 1][..]).unwrap_err(), DecodingError::HeaderContainsInvalidFlags);
    assert_eq!(PubAck::try_from(&[0x40u8, 3, 0, 1, 2][..]).unwrap_err(), DecodingError::Other);
    assert_eq!(
        PubAck::try_from(&[0x40u8, 0xFF, 0xFF, 0xFF, 0xFF][..]).unwrap_err(),
        DecodingError::InvalidRemainingLength
    );
    assert_eq!(Packet::try_from(&[0xF0u8, 0][..]).unwrap_err(), DecodingError::InvalidPacketType(0xF0));
    assert_eq!(
        Publish::try_from(&[0x36u8, 3, 0, 1, b'a'][..]).unwrap_err(),
        DecodingError::InvalidValue(Reason::QoS)
    );
    assert_eq!(
        Publish::try_from(&[0x38u8, 3, 0, 1, b'a'][..]).unwrap_err(),
        DecodingError::HeaderContainsInvalidFlags
    );
    assert_eq!(
        Publish::try_from(&[0x30u8, 3, 0, 1, b'#'][..]).unwrap_err(),
        DecodingError::InvalidValue(Reason::Wildcard)
    );
    assert_eq!(
        Publish::try_from(&[0x30u8, 3, 0, 1, 0xFF][..]).unwrap_err(),
        DecodingError::InvalidValue(Reason::Utf8)
    );
    assert_eq!(
        SubAck::try_from(&[0x90u8, 3, 0, 1, 7][..]).unwrap_err(),
        DecodingError::InvalidValue(Reason::ReturnCode)
    );
    assert_eq!(SubAck::try_from(&[0x90u8, 2, 0, 1][..]).unwrap_err(), DecodingError::InvalidValue(Reason::EmptyPayload));
    assert_eq!(
        ConnAck::try_from(&[0x20u8, 2, 1, 5][..]).unwrap_err(),
        DecodingError::InvalidValue(Reason::SessionPresent)
    );
    assert_eq!(
        ConnAck::try_from(&[0x20u8, 2, 0, 6][..]).unwrap_err(),
        DecodingError::InvalidValue(Reason::ReturnCode)
    );
}

#[test]
fn suback_return_codes() {
    let s = SubAck::builder(7, SubAckReturnCode::Failure)
        .add_return_code(QoS::ExactlyOnceDelivery.into())
        .build();
    let bytes = s.into_bytes();
    assert_eq!(bytes, vec![0x90, 4, 0, 7, 0x80, 2]);
    let d = SubAck::try_from(&bytes).unwrap();
    assert_eq!(d.return_codes(), vec![SubAckReturnCode::Failure, SubAckReturnCode::QoS(QoS::ExactlyOnceDelivery)]);
    assert_eq!(d.packet_identifier(), 7);
}

#[test]
fn packet_dispatch_round_trip() {
    let packets: Vec<Packet> = vec![
        PingReq.into(),
        PingResp.into(),
        Disconnect.into(),
        PubAck::new(1).into(),
        PubRec::new(2).into(),
        PubRel::new(3).into(),
        PubComp::new(4).into(),
        UnsubAck::new(5).into(),
        ConnAck::builder().build().into(),
        connect("x", 10),
        subscribe("a/+").into(),
        Unsubscribe::builder("a/#").build().into(),
        SubAck::builder(9, QoS::AtMostOnceDelivery.into()).build().into(),
        Publish::builder("t", b"p").build().into(),
    ];
    for p in packets {
        let bytes = p.clone().into_bytes();
        assert_eq!(p.length(), bytes.len());
        let q = Packet::try_from(&bytes).unwrap();
        assert_eq!(q.packet_type(), p.packet_type());
        assert_eq!(q, p);
        assert_eq!(q.into_bytes(), bytes);
    }
    assert_eq!(Packet::from(PingReq).packet_type(), PacketType::PingReq);
}

#[test]
fn utf8_decoding_keeps_text() {
    let p = Publish::builder("caf\u{e9}/\u{2603}", b"x").build();
    let d = Publish::try_from(&p.as_bytes()).unwrap();
    assert_eq!(d.topic(), "caf\u{e9}/\u{2603}");
}

#[test]
fn large_connect_has_two_length_bytes() {
    let packet = Connect::builder().will("topic", &[0u8; 255]).build();
    let bytes = packet.as_bytes();
    // 0x14 0x82: a remaining length of 276 takes two bytes.
    assert_eq!(&bytes[..3], &[0x10, 0x94, 0x02]);
    assert_eq!(bytes.len(), 3 + 276);
    let parsed = Connect::try_from(&bytes).unwrap();
    assert_eq!(parsed, packet);
    assert_eq!(parsed.as_bytes(), bytes);
}

#[test]
fn frame_views() {
    let p: Packet = Publish::builder("ab", b"xyz").qos(QoS::AtLeastOnceDelivery).packet_identifier(5).build().into();
    assert_eq!(p.variable_header(), vec![0, 2, b'a', b'b', 0, 5]);
    assert_eq!(p.payload(), b"xyz".to_vec());
    let c: Packet = ConnAck::builder().session_present().build().into();
    assert_eq!(c.variable_header(), vec![1, 0]);
    assert!(c.payload().is_empty());
    let s: Packet = subscribe("a").into();
    assert_eq!(s.payload(), vec![0, 1, b'a', 0]);
    assert_eq!(s.header(), vec![0x82, 6]);
    let big: Packet = Connect::builder().will("topic", &[0u8; 255]).build().into();
    assert_eq!(big.header(), vec![0x10, 0x94, 0x02]);
    let mut whole = big.header();
    whole.extend(big.variable_header());
    whole.extend(big.payload());
    assert_eq!(whole, big.into_bytes());
}
