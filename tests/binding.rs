use tjiftjaf::client::is_protocol_violation;
use tjiftjaf::client::{Options, Route, TokenTable};
use tjiftjaf::binding::ConnectionStatus;
use tjiftjaf::packet::connack::ReturnCode;
use tjiftjaf::{
    connect, publish, ClientDisconnected, ConnAck, Connect, Disconnect, MqttBinding, Packet, PacketType,
    PingReq, PubAck, PubComp, PubRec, PubRel, Publish, QoS, SubAck, Subscribe,
};

fn as_str(bytes: &[u8]) -> &str {
    std::str::from_utf8(bytes).expect("Failed to parse bytes as UTF-8.")
}

// Feeds the bytes of a packet to a binding, one requested buffer at a time.
fn decode_message(packet: Packet) -> Packet {
    let bytes = packet.into_bytes();
    let mut binding = MqttBinding::from_connect(Connect::builder().build(), 0);
    let mut offset = 0;

    loop {
        let mut buffer = binding.get_read_buffer();
        let size = buffer.len();

        buffer.copy_from_slice(&bytes[offset..offset + size]);
        offset += size;
        if let Some(packet) = binding.try_decode(&buffer, 0) {
            return packet;
        }
    }
}

// Drives a binding through Connect and ConnAck.
fn connected(keep_alive: u16) -> MqttBinding {
    let mut binding = MqttBinding::from_connect(Connect::builder().keep_alive(keep_alive).build(), 0);
    assert!(binding.poll_transmits(0).unwrap().is_some());
    let connack = ConnAck::builder().build().into_bytes();
    assert!(binding.try_decode(&connack[0..2], 0).is_none());
    assert!(binding.try_decode(&connack[2..4], 0).is_some());
    assert_eq!(binding.connection_status(), ConnectionStatus::Connected);
    binding
}

fn drain(binding: &mut MqttBinding, now: u64) -> Vec<Vec<u8>> {
    let mut out = vec![];
    while let Ok(Some(bytes)) = binding.poll_transmits(now) {
        out.push(bytes);
    }
    out
}

#[test]
fn test_publish() {
    let packet = publish("zigbee2mqtt/light/state", br#"{"state":"on"}"#);
    let packet = decode_message(packet.into());
    assert_eq!(packet.length(), 41);
    assert_eq!(packet.packet_type(), PacketType::Publish);
    assert_eq!(as_str(&packet.payload()), r#"{"state":"on"}"#);

    let packet = publish("$SYS/broker/uptime", br#"388641 seconds"#);
    let packet = decode_message(packet.into());
    assert_eq!(packet.packet_type(), PacketType::Publish);
    assert_eq!(packet.length(), 36);
    assert_eq!(as_str(&packet.payload()), "388641 seconds");

    let packet = publish(
        "zigbee2mqtt/binary-switch",
        br#"{"action":"off","battery":100,"linkquality":3,"voltage":1400}"#,
    );
    let packet = decode_message(packet.into());
    assert_eq!(packet.packet_type(), PacketType::Publish);
    assert_eq!(
        as_str(&packet.payload()),
        "{\"action\":\"off\",\"battery\":100,\"linkquality\":3,\"voltage\":1400}"
    );

    let packet = publish(
        "zigbee2mqtt/thermo-hygrometer",
        br#"{"battery":100,"comfort_humidity_max":60,"comfort_humidity_min":40,"comfort_temperature_max":27,"comfort_temperature_min":19,"humidity":47.2,"linkquality":105,"temperature":24,"temperature_units":"fahrenheit","update":{"installed_version":4105,"latest_version":8960,"state":"available"}}"#,
    );
    let packet = decode_message(packet.into());
    assert_eq!(packet.packet_type(), PacketType::Publish);
    assert_eq!(
        as_str(&packet.payload()),
        "{\"battery\":100,\"comfort_humidity_max\":60,\"comfort_humidity_min\":40,\"comfort_temperature_max\":27,\"comfort_temperature_min\":19,\"humidity\":47.2,\"linkquality\":105,\"temperature\":24,\"temperature_units\":\"fahrenheit\",\"update\":{\"installed_version\":4105,\"latest_version\":8960,\"state\":\"available\"}}"
    );
}

fn valid_packets() -> Vec<Packet> {
    vec![
        PingReq.into(),
        connect("test", 300),
        Connect::builder().username("admin").password(b"secret").build().into(),
        ConnAck::builder().build().into(),
    ]
}

#[test]
fn test_mqtt_binding_decoding_packets() {
    let mut binding = MqttBinding::from_connect(Connect::builder().build(), 0);

    for test in valid_packets() {
        let input = test.clone().into_bytes();
        let mut offset = 0;
        let mut iterations = 0;
        let packet = loop {
            iterations += 1;
            let mut buffer = binding.get_read_buffer();
            let n = buffer.len().min(input.len() - offset);
            buffer[..n].copy_from_slice(&input[offset..offset + n]);
            offset += n;

            if let Some(packet) = binding.try_decode(&buffer, 0) {
                break packet;
            }
        };

        assert!(iterations > 0);
        assert!(iterations < 4);
        assert_eq!(test.into_bytes(), packet.into_bytes());
    }
}

#[test]
fn gh_53_test_fix_for_keep_alive_interval_of_0() {
    let now: u64 = 1_000;
    let connect = Connect::builder().keep_alive(5).build();
    let binding = MqttBinding::from_connect(connect, now);
    let interval = binding.poll_timeout() - now;
    assert_eq!(interval / 1000, 5);

    let connect = Connect::builder().keep_alive(0).build();
    let binding = MqttBinding::from_connect(connect, now);
    let interval = binding.poll_timeout() - now;
    assert_eq!(interval / 1000, 946080000);
}

#[test]
fn keep_alive_zero_never_pings() {
    let mut binding = connected(0);
    let timeout = binding.poll_timeout();
    assert!(timeout >= 29 * 365 * 86400 * 1000);
    binding.handle_timeout(timeout);
    binding.handle_timeout(u64::MAX);
    assert!(drain(&mut binding, 0).is_empty());
}

#[test]
fn keep_alive_enqueues_one_ping() {
    let mut binding = connected(10);
    binding.handle_timeout(9_999);
    assert!(drain(&mut binding, 9_999).is_empty());
    binding.handle_timeout(10_000);
    assert_eq!(drain(&mut binding, 10_000), vec![PingReq.into_bytes()]);
    assert_eq!(binding.poll_timeout(), 20_000);
}

#[test]
fn qos1_publish_is_acknowledged() {
    let mut binding = connected(0);
    let p = Publish::builder("t", b"x").qos(QoS::AtLeastOnceDelivery).packet_identifier(1337).build();
    let got = binding.try_decode(&p.as_bytes()[0..2], 0);
    assert!(got.is_none());
    let bytes = p.as_bytes();
    let got = binding.try_decode(&bytes[2..], 0).unwrap();
    assert_eq!(got.packet_identifier(), Some(1337));
    assert_eq!(drain(&mut binding, 0), vec![PubAck::new(1337).into_bytes()]);
}

#[test]
fn qos2_exchange() {
    let mut binding = connected(0);
    let p = Publish::builder("t", b"x").qos(QoS::ExactlyOnceDelivery).packet_identifier(42).build();
    let bytes = p.as_bytes();
    binding.try_decode(&bytes[0..2], 0);
    binding.try_decode(&bytes[2..], 0).unwrap();
    assert_eq!(drain(&mut binding, 0), vec![PubRec::new(42).into_bytes()]);
    let rel = PubRel::new(42).into_bytes();
    binding.try_decode(&rel[0..2], 0);
    binding.try_decode(&rel[2..], 0).unwrap();
    assert_eq!(drain(&mut binding, 0), vec![PubComp::new(42).into_bytes()]);

    // Outbound: the client publishes with QoS 2 and the server answers.
    let out = Publish::builder("t", b"y").qos(QoS::ExactlyOnceDelivery).packet_identifier(42).build();
    assert_eq!(binding.send(out.into()), Some(42));
    assert_eq!(drain(&mut binding, 0).len(), 1);
    let rec = PubRec::new(42).into_bytes();
    binding.try_decode(&rec[0..2], 0);
    binding.try_decode(&rec[2..], 0).unwrap();
    assert_eq!(drain(&mut binding, 0), vec![PubRel::new(42).into_bytes()]);
    assert_eq!(binding.send(PubRel::new(7).into()), Some(7));
}

#[test]
fn split_frame() {
    let mut binding = connected(0);
    let p = Publish::builder("topic", b"0123456789abcdefgh").build();
    let bytes = p.as_bytes();
    assert_eq!(bytes.len(), 27);
    assert_eq!(binding.get_read_buffer().len(), 2);
    assert!(binding.try_decode(&bytes[0..2], 0).is_none());
    assert_eq!(binding.get_read_buffer().len(), 25);
    assert!(binding.try_decode(&bytes[2..20], 0).is_none());
    assert_eq!(binding.get_read_buffer().len(), 7);
    let got = binding.try_decode(&bytes[20..], 1_000).unwrap();
    assert_eq!(got.payload(), b"0123456789abcdefgh".to_vec());
    assert_eq!(binding.get_read_buffer().len(), 2);
}

#[test]
fn long_remaining_length_is_reassembled() {
    let mut binding = connected(0);
    let payload = vec![7u8; 300];
    let p = Publish::builder("t", &payload).build();
    let bytes = p.as_bytes();
    let mut offset = 0;
    let got = loop {
        let n = binding.get_read_buffer().len();
        let chunk = &bytes[offset..offset + n];
        offset += n;
        if let Some(p) = binding.try_decode(chunk, 0) {
            break p;
        }
    };
    assert_eq!(offset, bytes.len());
    assert_eq!(got.payload(), payload);
}

#[test]
fn malformed_bytes_are_dropped() {
    let mut binding = connected(0);
    assert!(binding.try_decode(&[0x40, 0xFF], 0).is_none());
    assert!(binding.try_decode(&[0xFF, 0xFF], 0).is_none());
    assert!(binding.try_decode(&[0xFF], 0).is_none());
    assert_eq!(binding.get_read_buffer().len(), 2);
    let ack = PubAck::new(3).into_bytes();
    binding.try_decode(&ack[0..2], 0);
    assert!(binding.try_decode(&ack[2..], 0).is_some());
}

#[test]
fn plain_subscribe_and_publish() {
    let mut binding = MqttBinding::from_connect(Connect::builder().client_id("c").build(), 0);
    let first = binding.poll_transmits(0).unwrap().unwrap();
    assert_eq!(Packet::try_from(&first).unwrap().packet_type(), PacketType::Connect);
    assert_eq!(binding.poll_transmits(0), Ok(None));
    let connack = ConnAck::builder().build().into_bytes();
    binding.try_decode(&connack[0..2], 0);
    binding.try_decode(&connack[2..], 0).unwrap();

    let sub = Subscribe::builder("topic", QoS::AtMostOnceDelivery).build();
    let id = sub.packet_identifier();
    assert_eq!(binding.send(sub.into()), Some(id));
    let sent = drain(&mut binding, 0);
    assert_eq!(sent.len(), 1);
    let suback = SubAck::builder(id, QoS::AtMostOnceDelivery.into()).build().into_bytes();
    binding.try_decode(&suback[0..2], 0);
    let got = binding.try_decode(&suback[2..], 0).unwrap();
    assert_eq!(got.packet_identifier(), Some(id));

    let p = publish("topic", b"hello");
    assert_eq!(binding.send(p.into()), None);
    let sent = drain(&mut binding, 0);
    let echoed = sent[0].clone();
    binding.try_decode(&echoed[0..2], 0);
    let Packet::Publish(delivered) = binding.try_decode(&echoed[2..], 0).unwrap() else {
        panic!()
    };
    assert_eq!(delivered.topic(), "topic");
    assert_eq!(delivered.payload(), b"hello");
}

#[test]
fn disconnect_is_final() {
    let mut binding = connected(0);
    binding.send(Disconnect.into());
    assert_eq!(binding.poll_transmits(0), Ok(Some(Disconnect.into_bytes())));
    assert_eq!(binding.poll_transmits(0), Err(ClientDisconnected));
}

#[test]
fn refused_connack_keeps_connecting() {
    let mut binding = MqttBinding::from_connect(Connect::builder().build(), 0);
    binding.poll_transmits(0).unwrap();
    let refused = ConnAck::builder().return_code(ReturnCode::ConnectionRefusedNotAuthorized).build().into_bytes();
    binding.try_decode(&refused[0..2], 0);
    let got = binding.try_decode(&refused[2..], 0).unwrap();
    assert_eq!(got.packet_type(), PacketType::ConnAck);
    assert_eq!(binding.connection_status(), ConnectionStatus::Connecting);
}

#[test]
fn transmits_keep_their_order() {
    let mut binding = connected(0);
    binding.send(PubAck::new(1).into());
    binding.send(PubAck::new(2).into());
    binding.send(PubAck::new(3).into());
    assert_eq!(
        drain(&mut binding, 0),
        vec![PubAck::new(1).into_bytes(), PubAck::new(2).into_bytes(), PubAck::new(3).into_bytes()]
    );
    let stats = binding.statistics();
    assert_eq!(stats.packets_sent, 4);
    assert_eq!(stats.packets_read, 1);
}

#[test]
fn split_frame_of_25_bytes() {
    let mut binding = connected(0);
    let p = Publish::builder("topic", b"0123456789abcdef").build();
    let bytes = p.as_bytes();
    assert_eq!(bytes.len(), 25);
    // The server's first TCP chunk holds 20 bytes, the second 5, a second later.
    let (first, second) = (&bytes[..20], &bytes[20..]);
    assert_eq!(binding.get_read_buffer().len(), 2);
    assert!(binding.try_decode(&first[..2], 0).is_none());
    assert_eq!(binding.get_read_buffer().len(), 23);
    assert!(binding.try_decode(&first[2..], 0).is_none());
    assert_eq!(binding.get_read_buffer().len(), 5);
    let got = binding.try_decode(second, 1_000).unwrap();
    let Packet::Publish(got) = got else { panic!() };
    assert_eq!(got.payload(), b"0123456789abcdef");
    assert_eq!(binding.get_read_buffer().len(), 2);
}

#[test]
fn stream_of_packets_split_everywhere() {
    let packets: Vec<Packet> = vec![
        Publish::builder("a", &[1u8; 200]).build().into(),
        PubAck::new(9).into(),
        connect("client", 30),
        PingReq.into(),
    ];
    let stream: Vec<u8> = packets.iter().flat_map(|p| p.clone().into_bytes()).collect();
    for piece in [1usize, 2, 3, 7] {
        let mut binding = MqttBinding::from_connect(Connect::builder().build(), 0);
        let mut out = vec![];
        let mut offset = 0;
        while offset < stream.len() {
            let want = binding.get_read_buffer().len();
            let n = want.min(piece).min(stream.len() - offset);
            if let Some(p) = binding.try_decode(&stream[offset..offset + n], 0) {
                out.push(p);
            }
            offset += n;
        }
        assert_eq!(out, packets);
    }
}

#[test]
fn token_table_routes_acks() {
    let mut binding = connected(0);
    let mut table = TokenTable::new();
    let publish = Publish::builder("t", b"x").qos(QoS::ExactlyOnceDelivery).packet_identifier(42).build();
    assert_eq!(table.submit(&mut binding, publish.into(), Some(5)), Some(42));
    assert!(table.is_pending(42));
    assert_eq!(table.submit(&mut binding, PubAck::new(1).into(), Some(6)), None);
    assert!(!table.is_pending(1));
    // A PubRec does not complete a QoS 2 Publish; its PubComp does.
    assert_eq!(table.route(&PubRec::new(42).into()), Route::Broadcast);
    assert_eq!(table.route(&PubComp::new(42).into()), Route::Reply(5));
    assert!(!table.is_pending(42));
    assert_eq!(table.route(&PubComp::new(42).into()), Route::Broadcast);
    let p: Packet = Publish::builder("t", b"x").qos(QoS::AtLeastOnceDelivery).packet_identifier(7).build().into();
    table.register(7, 1);
    assert_eq!(table.route(&p), Route::Broadcast);
    assert_eq!(table.route(&PubAck::new(7).into()), Route::Reply(1));
}

#[test]
fn options_make_the_connect() {
    let options = Options::default();
    assert_eq!(options.keep_alive, 300);
    let c = Options { client_id: Some("me".to_string()), keep_alive: 5, username: None, password: Some(b"pw".to_vec()) }
        .into_connect();
    assert_eq!(c.client_id(), "me");
    assert_eq!(c.keep_alive(), 5);
    assert_eq!(c.password(), None);
    let mut binding = MqttBinding::from_options(Options::default(), 0);
    assert_eq!(binding.poll_timeout(), 300_000);
    let first = binding.poll_transmits(0).unwrap().unwrap();
    let Packet::Connect(sent) = Packet::try_from(&first).unwrap() else { panic!() };
    assert!(sent.clean_session());
}

#[test]
fn protocol_violations_and_counters() {

    assert!(is_protocol_violation(&connect("x", 0)));
    assert!(is_protocol_violation(&PingReq.into()));
    assert!(is_protocol_violation(&Disconnect.into()));
    assert!(!is_protocol_violation(&PubAck::new(1).into()));
    assert!(!is_protocol_violation(&ConnAck::builder().build().into()));

    let mut binding = connected(0);
    let stats = binding.statistics();
    assert_eq!(stats.bytes_read, 4);
    assert_eq!(stats.packets_sent, 1);
    binding.send(PubAck::new(1).into());
    drain(&mut binding, 0);
    assert_eq!(binding.statistics().bytes_sent, stats.bytes_sent + 4);
}

#[test]
fn options_without_client_id_ask_for_a_clean_session() {
    let c = Options { client_id: None, keep_alive: 1, username: Some("u".to_string()), password: Some(b"p".to_vec()) }
        .into_connect();
    assert!(c.clean_session());
    assert_eq!(c.username(), Some("u"));
    assert_eq!(c.password(), Some(&b"p"[..]));
    let binding = MqttBinding::from_options(Options::default(), 7);
    assert_eq!(binding.connection_status(), ConnectionStatus::NotConnected);
    assert_eq!(binding.statistics().packets_sent, 0);
}
