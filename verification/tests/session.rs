use axonmq::config::MqttSettings;
use axonmq::mqtt::code::ReturnCode;
use axonmq::mqtt::listener::shared::{get_packet_id, handle_message, Forward};
use axonmq::mqtt::listener::store::Store;
use axonmq::mqtt::protocol::codec::MessageCodec;
use axonmq::mqtt::protocol::message::Message;
use axonmq::mqtt::protocol::publish::{PubAck, Publish};
use axonmq::mqtt::protocol::subscribe::{Subscribe, SubscribeOption};
use axonmq::mqtt::server::{Broker, BrokerAck, BrokerAction, BrokerCommand};
use axonmq::mqtt::QoS;
use std::collections::HashMap;
use axonmq::mqtt::listener::session::{
    alias_maximum_for, deliverable, keep_alive_expired, keep_alive_for, outgoing_publish, retained_of,
    route_command,
};
use axonmq::mqtt::MqttProtocolVersion;
use axonmq::operator::command::OperatorCommand;

fn settings() -> MqttSettings {
    MqttSettings {
        max_topic_length: 1024,
        session_expiry_interval: 3600,
        keep_alive: 60,
        max_receive_queue: 16,
        max_packet_size: 1024 * 1024,
        resend_interval: 10,
        max_store_msgs_per_client: 100,
        topic_alias_maximum: 8,
    }
}

fn publish(topic: &str, qos: QoS, id: Option<u16>) -> Publish {
    Publish::new(false, qos, false, topic.to_string(), id, b"x".to_vec(), vec![])
}

#[test]
fn flight_is_bounded_and_acks_let_waiting_messages_in() {
    let mut s = Store::new(1, 1);
    assert!(s.inflight_insert(publish("one", QoS::AtLeastOnce, Some(1))));
    assert!(!s.inflight_insert(publish("two", QoS::AtLeastOnce, Some(2))));
    assert_eq!(s.inflight_size(), 1);
    s.inflight_ack(1);
    // the waiting message took the freed place, as never sent
    let due = s.get_inflight_messages(1, 0);
    assert_eq!(due.len(), 1);
    assert_eq!(due[0].0, 1);
    assert_eq!(due[0].1.as_ref().unwrap().topic, "two");
    // sent again just now: not due yet
    assert!(s.get_inflight_messages(1, 0).is_empty());
}

#[test]
fn received_message_is_resent_as_pubrel() {
    let mut s = Store::new(4, 4);
    assert!(s.inflight_insert(publish("t", QoS::ExactlyOnce, Some(9))));
    s.inflight_rec(9);
    let due = s.get_inflight_messages(u64::MAX - 1, 0);
    assert_eq!(due.len(), 1);
    assert_eq!(due[0].0, 9);
    assert!(due[0].1.is_none());
}

#[test]
fn qos2_messages_wait_for_release_within_limit() {
    let mut s = Store::new(4, 1);
    assert!(s.qos2_insert(publish("a", QoS::ExactlyOnce, Some(5))));
    assert!(s.qos2_insert(publish("a", QoS::ExactlyOnce, Some(5))));
    assert!(!s.qos2_insert(publish("b", QoS::ExactlyOnce, Some(6))));
    assert!(s.qos2_contains(5));
    let released = s.qos2_rel(5);
    assert_eq!(released.unwrap().topic, "a");
    assert!(!s.qos2_contains(5));
    assert!(s.qos2_rel(5).is_none());
}

#[test]
fn packet_ids_wrap_to_one() {
    assert_eq!(get_packet_id(1), 2);
    assert_eq!(get_packet_id(u16::MAX), 1);
}

#[test]
fn connection_reactions() {
    let mut s = Store::new(4, 4);
    let mut aliases: HashMap<u16, String> = HashMap::new();
    let r = handle_message(&mut s, &mut aliases, 4, Message::PingReq).ok().unwrap();
    assert!(matches!(r.forward, Forward::Nothing));
    assert!(matches!(r.reply, Some(Message::PingResp)));

    let r = handle_message(&mut s, &mut aliases, 4, Message::Publish(publish("a/b", QoS::AtLeastOnce, Some(3))))
        .ok()
        .unwrap();
    assert!(matches!(r.forward, Forward::Route { .. }));
    assert!(matches!(r.reply, Some(Message::PubAck(a)) if a.packet_id == 3 && a.reason_code == ReturnCode::Success));

    let r = handle_message(&mut s, &mut aliases, 4, Message::Publish(publish("a/+", QoS::AtLeastOnce, Some(4))))
        .ok()
        .unwrap();
    assert!(matches!(r.forward, Forward::Nothing));
    assert!(matches!(r.reply, Some(Message::PubAck(a)) if a.reason_code == ReturnCode::TopicNameInvalid));

    let r = handle_message(&mut s, &mut aliases, 4, Message::Publish(publish("q", QoS::ExactlyOnce, Some(8))))
        .ok()
        .unwrap();
    assert!(matches!(r.forward, Forward::Nothing));
    assert!(matches!(r.reply, Some(Message::PubRec(_))));
    let r = handle_message(&mut s, &mut aliases, 4, Message::PubRel(PubAck::new(8, ReturnCode::Success)))
        .ok()
        .unwrap();
    assert!(matches!(r.forward, Forward::Route { .. }));
    assert!(matches!(r.reply, Some(Message::PubComp(a)) if a.reason_code == ReturnCode::Success));
}

#[test]
fn topic_alias_is_set_then_used() {
    let mut s = Store::new(4, 4);
    let mut aliases: HashMap<u16, String> = HashMap::new();
    let mut p = publish("a/b", QoS::AtMostOnce, None);
    p.topic_alias = Some(1);
    let r = handle_message(&mut s, &mut aliases, 4, Message::Publish(p)).ok().unwrap();
    assert!(matches!(r.forward, Forward::Route { .. }));
    let mut p = publish("", QoS::AtMostOnce, None);
    p.topic_alias = Some(1);
    let r = handle_message(&mut s, &mut aliases, 4, Message::Publish(p)).ok().unwrap();
    match r.forward {
        Forward::Route { publish, .. } => assert_eq!(publish.topic, "a/b"),
        _ => panic!("expected the message to be routed"),
    }
    let mut p = publish("x", QoS::AtMostOnce, None);
    p.topic_alias = Some(0);
    assert!(handle_message(&mut s, &mut aliases, 4, Message::Publish(p)).is_err());
}

fn connect_packet(client_id: &str, clean: bool) -> axonmq::mqtt::protocol::conn::Connect {
    let st = settings();
    let mut codec = MessageCodec::default(&st);
    let mut body = vec![0x00, 0x04, b'M', b'Q', b'T', b'T', 0x04, if clean { 0x02 } else { 0x00 }, 0x00, 0x3C];
    body.extend_from_slice(&[0x00, client_id.len() as u8]);
    body.extend_from_slice(client_id.as_bytes());
    let mut bytes = vec![0x10, body.len() as u8];
    bytes.extend_from_slice(&body);
    match codec.decode(&bytes, &st) {
        Ok(Some((Message::Connect(c), _))) => c,
        _ => panic!("expected a CONNECT"),
    }
}

#[test]
fn broker_connect_subscribe_disconnect() {
    let st = settings();
    let mut b = Broker::new();
    let (ack, actions) = b.handle_message(BrokerCommand::Connect { connect: connect_packet("c1", true) }, &st, 100);
    match ack {
        Some(BrokerAck::ConnAck(a)) => assert_eq!(a.return_code, ReturnCode::Success),
        _ => panic!("expected a CONNACK"),
    }
    assert!(actions.iter().any(|a| matches!(a, BrokerAction::RemoveClient { client_id } if client_id == "c1")));

    let subscribe = Subscribe {
        packet_id: 1,
        topics: vec![
            (
                "a/+".to_string(),
                SubscribeOption {
                    qos: QoS::AtLeastOnce,
                    no_local: false,
                    retain_as_published: false,
                    retain_handling: 0,
                    subscription_identifier: None,
                },
            ),
            (
                "a/#/b".to_string(),
                SubscribeOption {
                    qos: QoS::AtLeastOnce,
                    no_local: false,
                    retain_as_published: false,
                    retain_handling: 0,
                    subscription_identifier: None,
                },
            ),
        ],
    };
    let (ack, actions) = b.handle_message(BrokerCommand::Subscribe { client_id: "c1".to_string(), subscribe }, &st, 100);
    match ack {
        Some(BrokerAck::SubAck(a)) => {
            assert_eq!(a.packet_id, 1);
            assert_eq!(a.return_codes, vec![ReturnCode::Success, ReturnCode::TopicFilterInvalid]);
        }
        _ => panic!("expected a SUBACK"),
    }
    assert!(actions.iter().any(|a| matches!(a, BrokerAction::Subscribe { topic, .. } if topic == "a/+")));

    let (ack, _) = b.handle_message(BrokerCommand::Disconnected("c1".to_string(), ReturnCode::Success), &st, 100);
    assert!(ack.is_none());
    assert!(b.can_tick(100));
}

#[test]
fn second_connect_is_refused() {
    let mut s = Store::new(4, 4);
    let mut aliases: HashMap<u16, String> = HashMap::new();
    let r = handle_message(&mut s, &mut aliases, 4, Message::Connect(connect_packet("c", true)));
    assert!(matches!(r, Err(axonmq::mqtt::error::MqttProtocolError::InvalidMessageType)));
}

fn connect_v5_with_expiry(client_id: &str, expiry: u32) -> axonmq::mqtt::protocol::conn::Connect {
    let st = settings();
    let mut codec = MessageCodec::default(&st);
    let e = expiry.to_be_bytes();
    let mut body = vec![0x00, 0x04, b'M', b'Q', b'T', b'T', 0x05, 0x00, 0x00, 0x3C];
    body.extend_from_slice(&[0x05, 0x11, e[0], e[1], e[2], e[3]]);
    body.extend_from_slice(&[0x00, client_id.len() as u8]);
    body.extend_from_slice(client_id.as_bytes());
    let mut bytes = vec![0x10, body.len() as u8];
    bytes.extend_from_slice(&body);
    match codec.decode(&bytes, &st) {
        Ok(Some((Message::Connect(c), _))) => c,
        other => panic!("expected a CONNECT, got {}", other.is_ok()),
    }
}

#[test]
fn lasting_session_keeps_its_subscriptions() {
    let st = settings();
    let mut b = Broker::new();
    let c = connect_v5_with_expiry("c2", 60);
    assert_eq!(c.options.session_expiry_interval, 60);
    b.handle_message(BrokerCommand::Connect { connect: c }, &st, 100);
    let subscribe = Subscribe {
        packet_id: 2,
        topics: vec![(
            "t".to_string(),
            SubscribeOption {
                qos: QoS::AtLeastOnce,
                no_local: false,
                retain_as_published: false,
                retain_handling: 0,
                subscription_identifier: None,
            },
        )],
    };
    b.handle_message(BrokerCommand::Subscribe { client_id: "c2".to_string(), subscribe }, &st, 100);
    let (_, actions) = b.handle_message(BrokerCommand::Disconnected("c2".to_string(), ReturnCode::Success), &st, 150);
    assert!(!actions.iter().any(|a| matches!(a, BrokerAction::RemoveClient { .. })));
    let (ack, actions) = b.handle_message(BrokerCommand::Connect { connect: connect_v5_with_expiry("c2", 60) }, &st, 200);
    match ack {
        Some(BrokerAck::ConnAck(a)) => assert!(a.session_present),
        _ => panic!("expected a CONNACK"),
    }
    assert!(actions.iter().any(|a| matches!(a, BrokerAction::Subscribe { topic, .. } if topic == "t")));
}

#[test]
fn flight_stays_within_limit_over_many_calls() {
    let mut s = Store::new(2, 1);
    for id in 1..=6u16 {
        s.inflight_insert(publish("t", QoS::AtLeastOnce, Some(id)));
        assert!(s.inflight_size() <= 2);
    }
    s.inflight_rec(1);
    assert!(s.inflight_size() <= 2);
    s.inflight_ack(1);
    assert!(s.inflight_size() <= 2);
    s.inflight_cmp(2);
    assert!(s.inflight_size() <= 2);
    let due = s.get_inflight_messages(u64::MAX / 2, 0);
    assert!(due.len() <= 2);
    assert!(s.inflight_size() <= 2);
    assert!(s.qos2_insert(publish("q", QoS::ExactlyOnce, Some(3))));
    assert!(!s.qos2_insert(publish("q", QoS::ExactlyOnce, Some(4))));
    assert!(s.qos2_rel(3).is_some());
}

#[test]
fn connection_rules_between_packets() {
    assert_eq!(keep_alive_for(60, 30), 60);
    assert_eq!(keep_alive_for(60, 90), 90);
    // one and a half keep alives of 10 seconds: 15 seconds
    assert!(!keep_alive_expired(115, 100, 10));
    assert!(keep_alive_expired(116, 100, 10));
    assert!(!keep_alive_expired(50, 100, 10));
    assert!(!keep_alive_expired(10_000, 100, 0));
    assert_eq!(alias_maximum_for(MqttProtocolVersion::V5, 8), 8);
    assert_eq!(alias_maximum_for(MqttProtocolVersion::V3_1_1, 8), 0);
    assert!(deliverable(None, 500));
    assert!(deliverable(Some(0), 500));
    assert!(deliverable(Some(501), 500));
    assert!(!deliverable(Some(500), 500));

    let mut p = publish("a/b", QoS::AtLeastOnce, Some(4));
    p.retain = true;
    p.expiry_at = Some(1234);
    let kept = retained_of(&p);
    assert_eq!(kept.topic, "a/b");
    assert_eq!(kept.expiry_at, Some(1234));
    match route_command("c1".to_string(), p) {
        OperatorCommand::Publish { client_id, retain, topic, options, .. } => {
            assert_eq!(client_id, "c1");
            assert!(retain);
            assert_eq!(topic, "a/b");
            assert_eq!(options.expiry_at, Some(1234));
            assert_eq!(options.subscription_identifier, None);
        }
        _ => panic!("expected a publish request"),
    }
}

#[test]
fn outgoing_publishes_take_ids_and_wait_for_room() {
    let mut s = Store::new(1, 1);
    let opts = || axonmq::mqtt::protocol::publish::PublishOptions::default();
    let (sent, id) = outgoing_publish(&mut s, u16::MAX, "t".to_string(), QoS::AtLeastOnce, false, vec![1], vec![], opts(), 100);
    assert_eq!(id, 1);
    let p = sent.unwrap();
    assert_eq!(p.packet_id, Some(1));
    assert!(!p.dup);
    assert_eq!(s.inflight_size(), 1);
    let (sent, id) = outgoing_publish(&mut s, id, "t".to_string(), QoS::AtLeastOnce, false, vec![2], vec![], opts(), 100);
    assert!(sent.is_none());
    assert_eq!(id, 2);
    assert_eq!(s.inflight_size(), 1);
    let (sent, id) = outgoing_publish(&mut s, id, "t".to_string(), QoS::AtMostOnce, false, vec![3], vec![], opts(), 100);
    assert_eq!(id, 2);
    assert_eq!(sent.unwrap().packet_id, None);
    let mut expired = opts();
    expired.expiry_at = Some(100);
    let (sent, id) = outgoing_publish(&mut s, id, "t".to_string(), QoS::AtLeastOnce, false, vec![4], vec![], expired, 100);
    assert!(sent.is_none());
    assert_eq!(id, 2);
}
