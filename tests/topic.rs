use tjiftjaf::broker::{session_step, Broker};
use tjiftjaf::packet::suback::ReturnCode;
use tjiftjaf::parser::{min_bytes_required, Parser};
use tjiftjaf::topic::does_topic_match_subscription;
use tjiftjaf::{Disconnect, Packet, PacketType, PingReq, PubAck, Publish, QoS, Subscribe};

#[test]
fn test_does_topic_match_subscription() {
    assert!(does_topic_match_subscription("sensors/3/value", "sensors/3/value"));
    assert!(does_topic_match_subscription("sensors/+/value", "sensors/3/value"));
    assert!(does_topic_match_subscription("sensors/+/+", "sensors/3/value"));
    assert!(does_topic_match_subscription("sensors/#", "sensors/3/value"));

    // These topics don't match
    assert!(!does_topic_match_subscription("sensors/3/value", "sensors/1/value"));
    assert!(!does_topic_match_subscription("sensors/+/value", "sensors/1/name"));
}

#[test]
fn topic_matcher_levels() {
    assert!(!does_topic_match_subscription("sensors/+", "sensors/3/value"));
    assert!(!does_topic_match_subscription("sensors/+/value/x", "sensors/3/value"));
    assert!(does_topic_match_subscription("+", "anything"));
    assert!(does_topic_match_subscription("#", ""));
    assert!(!does_topic_match_subscription("a/#", "b/c"));
    assert!(does_topic_match_subscription("", ""));
}

#[test]
fn parser_collects_one_packet() {
    let bytes = Publish::builder("a/b", b"payload").build().into_bytes();
    let mut parser = Parser::new();
    assert_eq!(parser.bytes_required(), 2);
    parser.push(&bytes[0..1]);
    assert_eq!(parser.bytes_required(), 1);
    parser.push(&bytes[1..3]);
    assert_eq!(parser.bytes_required() as usize, bytes.len() - 3);
    parser.push(&bytes[3..]);
    assert_eq!(parser.bytes_required(), 0);
    let p = parser.parse().unwrap();
    assert_eq!(p.packet_type(), PacketType::Publish);
    assert_eq!(parser.bytes_required(), 2);
}

#[test]
fn min_bytes_required_values() {
    assert_eq!(min_bytes_required(&[]), 2);
    assert_eq!(min_bytes_required(&[0x30]), 1);
    assert_eq!(min_bytes_required(&[0x30, 0x80]), 1);
    assert_eq!(min_bytes_required(&[0x30, 0x80, 0x01]), 128);
    assert_eq!(min_bytes_required(&PubAck::new(1).into_bytes()), 0);
}

#[test]
fn broker_registry_and_fan_out() {
    let mut broker = Broker::new();
    broker.connect("a");
    broker.connect("b");
    broker.subscribe("a", &Subscribe::builder("sensors/+/value", QoS::AtMostOnceDelivery).build());
    broker.subscribe("b", &Subscribe::builder("sensors/#", QoS::AtMostOnceDelivery).build());
    broker.subscribe("nobody", &Subscribe::builder("#", QoS::AtMostOnceDelivery).build());
    assert_eq!(broker.recipients("sensors/3/value"), vec!["a".to_string(), "b".to_string()]);
    assert_eq!(broker.recipients("sensors/3/name"), vec!["b".to_string()]);
    assert!(broker.recipients("other").is_empty());
    broker.connect("b");
    assert_eq!(broker.recipients("sensors/3/name"), Vec::<String>::new());
    assert_eq!(broker.len(), 2);
    broker.remove("a");
    assert_eq!(broker.len(), 1);
}

#[test]
fn broker_session_steps() {
    let step = session_step(PingReq.into());
    assert_eq!(step.reply.unwrap().packet_type(), PacketType::PingResp);
    assert!(step.forward.is_none() && !step.close);
    let s = Subscribe::builder("a", QoS::AtLeastOnceDelivery).add_topic("b", QoS::ExactlyOnceDelivery).build();
    let id = s.packet_identifier();
    let step = session_step(s.into());
    let Some(Packet::SubAck(ack)) = step.reply else { panic!() };
    assert_eq!(ack.packet_identifier(), id);
    assert_eq!(ack.return_codes(), vec![ReturnCode::QoS(QoS::AtLeastOnceDelivery), ReturnCode::QoS(QoS::ExactlyOnceDelivery)]);
    assert!(step.forward.is_some());
    assert!(session_step(Disconnect.into()).close);
    assert!(session_step(tjiftjaf::connect("x", 0)).close);
    let step = session_step(Publish::builder("t", b"p").build().into());
    assert!(step.reply.is_none() && step.forward.is_some() && !step.close);
}

#[test]
fn broker_unsubscribe_drops_named_filters() {
    let mut broker = Broker::new();
    broker.connect("a");
    broker.subscribe(
        "a",
        &Subscribe::builder("x/+", QoS::AtMostOnceDelivery).add_topic("y/#", QoS::AtMostOnceDelivery).build(),
    );
    assert_eq!(broker.recipients("x/1"), vec!["a".to_string()]);
    broker.unsubscribe("a", &tjiftjaf::Unsubscribe::builder("x/+").build());
    assert!(broker.recipients("x/1").is_empty());
    assert_eq!(broker.recipients("y/2"), vec!["a".to_string()]);
    broker.unsubscribe("nobody", &tjiftjaf::Unsubscribe::builder("y/#").build());
    assert_eq!(broker.recipients("y/2"), vec!["a".to_string()]);
}
