use axonmq::config::MqttSettings;
use axonmq::mqtt::code::ReturnCode;
use axonmq::mqtt::error::MqttProtocolError;
use axonmq::mqtt::protocol::codec::MessageCodec;
use axonmq::mqtt::protocol::conn::Disconnect;
use axonmq::mqtt::protocol::message::Message;
use axonmq::mqtt::protocol::property::PropertyUser;
use axonmq::mqtt::protocol::publish::{PubAck, Publish};
use axonmq::mqtt::{MqttProtocolVersion, QoS};

fn settings() -> MqttSettings {
    MqttSettings {
        max_topic_length: 1024,
        session_expiry_interval: 3600,
        keep_alive: 60,
        max_receive_queue: 16,
        max_packet_size: 1024 * 1024,
        resend_interval: 10,
        max_store_msgs_per_client: 100,
        topic_alias_maximum: 8,
    }
}

fn publish(qos: QoS, users: Vec<PropertyUser>) -> Publish {
    Publish::new(false, qos, true, "a/b".to_string(), Some(7), b"payload".to_vec(), users)
}

#[test]
fn publish_roundtrip_v3() {
    let st = settings();
    let mut codec = MessageCodec::default(&st);
    let bytes = codec.encode(Message::Publish(publish(QoS::AtLeastOnce, vec![])), &st);
    // fixed header: PUBLISH, QoS 1, RETAIN
    assert_eq!(bytes[0], 0x33);
    match codec.decode(&bytes, &st) {
        Ok(Some((Message::Publish(p), n))) => {
            assert_eq!(n, bytes.len());
            assert_eq!(p.topic, "a/b");
            assert_eq!(p.packet_id, Some(7));
            assert_eq!(p.qos, QoS::AtLeastOnce);
            assert!(p.retain);
            assert!(!p.dup);
            assert_eq!(p.payload, b"payload".to_vec());
        }
        _ => panic!("expected a PUBLISH"),
    }
}

#[test]
fn publish_roundtrip_v5_keeps_user_properties() {
    let st = settings();
    let mut codec = MessageCodec::default(&st);
    codec.with_v5();
    let users = vec![PropertyUser { key: "k".to_string(), value: "v".to_string() }];
    let bytes = codec.encode(Message::Publish(publish(QoS::ExactlyOnce, users)), &st);
    match codec.decode(&bytes, &st) {
        Ok(Some((Message::Publish(p), _))) => {
            assert_eq!(p.user_properties.len(), 1);
            assert_eq!(p.user_properties[0].key, "k");
            assert_eq!(p.user_properties[0].value, "v");
            assert_eq!(p.payload, b"payload".to_vec());
            assert_eq!(p.packet_id, Some(7));
        }
        _ => panic!("expected a PUBLISH"),
    }
}

#[test]
fn qos0_publish_has_no_packet_id() {
    let st = settings();
    let mut codec = MessageCodec::default(&st);
    let bytes = codec.encode(Message::Publish(publish(QoS::AtMostOnce, vec![])), &st);
    // type, length, topic length (2), "a/b", payload
    assert_eq!(bytes.len(), 2 + 2 + 3 + 7);
    match codec.decode(&bytes, &st) {
        Ok(Some((Message::Publish(p), _))) => assert_eq!(p.packet_id, None),
        _ => panic!("expected a PUBLISH"),
    }
}

#[test]
fn incomplete_packet_decodes_to_nothing_yet() {
    let st = settings();
    let mut codec = MessageCodec::default(&st);
    let bytes = codec.encode(Message::Publish(publish(QoS::AtLeastOnce, vec![])), &st);
    for cut in 0..bytes.len() {
        assert!(matches!(codec.decode(&bytes[..cut], &st), Ok(None)));
    }
}

#[test]
fn oversized_packet_is_reported() {
    let st = settings();
    let mut codec = MessageCodec::default(&st);
    let bytes = codec.encode(Message::Publish(publish(QoS::AtLeastOnce, vec![])), &st);
    codec.with_packet_size(4);
    match codec.decode(&bytes, &st) {
        Ok(Some((Message::PacketTooLarge, n))) => assert_eq!(n, bytes.len()),
        _ => panic!("expected PacketTooLarge"),
    }
}

#[test]
fn subscribe_with_wrong_flags_is_refused() {
    let st = settings();
    let mut codec = MessageCodec::default(&st);
    // SUBSCRIBE must carry flags 0b0010
    let bytes = vec![0x80, 0x02, 0x00, 0x01];
    assert!(matches!(codec.decode(&bytes, &st), Err(MqttProtocolError::InvalidFixedHeader)));
}

#[test]
fn reserved_packet_type_is_refused() {
    let st = settings();
    let mut codec = MessageCodec::default(&st);
    assert!(matches!(codec.decode(&[0xF1, 0x00], &st), Err(_)));
}

#[test]
fn subscribe_is_decoded() {
    let st = settings();
    let mut codec = MessageCodec::default(&st);
    // SUBSCRIBE id 10, "a/+" at QoS 1
    let bytes = vec![0x82, 0x08, 0x00, 0x0A, 0x00, 0x03, b'a', b'/', b'+', 0x01];
    match codec.decode(&bytes, &st) {
        Ok(Some((Message::Subscribe(s), 10))) => {
            assert_eq!(s.packet_id, 10);
            assert_eq!(s.topics.len(), 1);
            assert_eq!(s.topics[0].0, "a/+");
            assert_eq!(s.topics[0].1.qos, QoS::AtLeastOnce);
        }
        _ => panic!("expected a SUBSCRIBE"),
    }
}

#[test]
fn connect_is_decoded() {
    let st = settings();
    let mut codec = MessageCodec::default(&st);
    let mut body = vec![0x00, 0x04, b'M', b'Q', b'T', b'T', 0x04, 0x02, 0x00, 0x3C];
    body.extend_from_slice(&[0x00, 0x02, b'c', b'1']);
    let mut bytes = vec![0x10, body.len() as u8];
    bytes.extend_from_slice(&body);
    assert!(!codec.decode_panics(&bytes, &st));
    match codec.decode(&bytes, &st) {
        Ok(Some((Message::Connect(c), n))) => {
            assert_eq!(n, bytes.len());
            assert_eq!(c.client_id, "c1");
            assert_eq!(c.keep_alive, 60);
            assert!(c.clean_start);
            assert_eq!(c.version, MqttProtocolVersion::V3_1_1);
            assert!(c.will.is_none());
        }
        _ => panic!("expected a CONNECT"),
    }
}

#[test]
fn puback_roundtrip() {
    let st = settings();
    let mut codec = MessageCodec::default(&st);
    let bytes = codec.encode(Message::PubAck(PubAck::new(300, ReturnCode::Success)), &st);
    assert_eq!(bytes, vec![0x40, 0x02, 0x01, 0x2C]);
    match codec.decode(&bytes, &st) {
        Ok(Some((Message::PubAck(a), 4))) => {
            assert_eq!(a.packet_id, 300);
            assert_eq!(a.reason_code, ReturnCode::Success);
        }
        _ => panic!("expected a PUBACK"),
    }
}

#[test]
fn enum_codes() {
    assert_eq!(QoS::try_from_u8(2), Ok(QoS::ExactlyOnce));
    assert!(QoS::try_from_u8(3).is_err());
    assert_eq!(MqttProtocolVersion::try_from_u8(5), Ok(MqttProtocolVersion::V5));
    assert!(MqttProtocolVersion::try_from_u8(6).is_err());
    assert_eq!(QoS::ExactlyOnce.min(QoS::AtLeastOnce), QoS::AtLeastOnce);
    assert_eq!(ReturnCode::try_from_u8(0x87).map(|c| c.code()), Ok(0x87));
}

#[test]
fn client_id_with_invalid_utf8_is_read_lossily() {
    let st = settings();
    let mut codec = MessageCodec::default(&st);
    let body = vec![0x00, 0x04, b'M', b'Q', b'T', b'T', 0x04, 0x02, 0x00, 0x3C, 0x00, 0x02, b'c', 0xFF];
    let mut bytes = vec![0x10, body.len() as u8];
    bytes.extend_from_slice(&body);
    match codec.decode(&bytes, &st) {
        Ok(Some((Message::Connect(c), _))) => assert_eq!(c.client_id, "c\u{FFFD}"),
        _ => panic!("expected a CONNECT"),
    }
}

#[test]
fn publish_topic_with_invalid_utf8_is_refused() {
    let st = settings();
    let mut codec = MessageCodec::default(&st);
    // PUBLISH QoS 0, topic of one byte 0xFF, payload "p"
    let bytes = vec![0x30, 0x04, 0x00, 0x01, 0xFF, b'p'];
    assert!(matches!(codec.decode(&bytes, &st), Err(MqttProtocolError::InvalidTopicFilter)));
}

fn connect_bytes(body: &[u8]) -> Vec<u8> {
    let mut bytes = vec![0x10, body.len() as u8];
    bytes.extend_from_slice(body);
    bytes
}

#[test]
fn connect_errors() {
    let st = settings();
    let mut codec = MessageCodec::default(&st);
    let wrong_name = connect_bytes(&[0x00, 0x04, b'M', b'Q', b'T', b'X', 0x04, 0x02, 0x00, 0x3C, 0x00, 0x00]);
    assert!(matches!(codec.decode(&wrong_name, &st), Err(MqttProtocolError::InvalidProtocolName)));
    let wrong_level = connect_bytes(&[0x00, 0x04, b'M', b'Q', b'T', b'T', 0x07, 0x02, 0x00, 0x3C, 0x00, 0x00]);
    assert!(matches!(codec.decode(&wrong_level, &st), Err(MqttProtocolError::InvalidProtocolVersion)));
    let wrong_will_qos = connect_bytes(&[0x00, 0x04, b'M', b'Q', b'T', b'T', 0x04, 0x1E, 0x00, 0x3C, 0x00, 0x00]);
    assert!(matches!(codec.decode(&wrong_will_qos, &st), Err(MqttProtocolError::InvalidQoS)));
    let cut = connect_bytes(&[0x00, 0x04, b'M', b'Q']);
    assert!(matches!(codec.decode(&cut, &st), Err(MqttProtocolError::Disconnect)));
}

#[test]
fn return_codes_and_packet_types() {
    assert!(matches!(ReturnCode::try_from_u8(6), Err(MqttProtocolError::InvalidReturnCode(6))));
    assert_eq!(ReturnCode::PacketTooLarge.code(), 149);
    assert_eq!(ReturnCode::PacketTooLarge.description(), "149: Packet Too Large");
    let st = settings();
    let mut codec = MessageCodec::default(&st);
    // packet type 0 is reserved
    assert!(matches!(codec.decode(&[0x00, 0x00], &st), Err(MqttProtocolError::InvalidMessageType)));
}

#[test]
fn long_publish_uses_a_multi_byte_length() {
    let st = settings();
    let mut codec = MessageCodec::default(&st);
    let p = Publish::new(false, QoS::AtMostOnce, false, "t".to_string(), None, vec![7u8; 300], vec![]);
    let bytes = codec.encode(Message::Publish(p), &st);
    // 2 + 1 + 300 body bytes need two length bytes
    assert_eq!(bytes.len(), 1 + 2 + 303);
    assert_eq!(bytes[1], 0xAF);
    assert_eq!(bytes[2], 0x02);
    match codec.decode(&bytes, &st) {
        Ok(Some((Message::Publish(q), n))) => {
            assert_eq!(n, bytes.len());
            assert_eq!(q.payload, vec![7u8; 300]);
        }
        _ => panic!("expected a PUBLISH"),
    }
}

#[test]
fn short_puback_in_v5_means_success() {
    let body = PubAck::new(7, ReturnCode::Success).into(MqttProtocolVersion::V5);
    assert_eq!(body, vec![0x00, 0x07]);
    match PubAck::puback_try_from(&body, MqttProtocolVersion::V5) {
        Ok(Message::PubAck(a)) => {
            assert_eq!(a.packet_id, 7);
            assert_eq!(a.reason_code, ReturnCode::Success);
        }
        _ => panic!("expected a PUBACK"),
    }
    match PubAck::puback_try_from(&[0x00, 0x07, 0x97, 0x00], MqttProtocolVersion::V5) {
        Ok(Message::PubAck(a)) => assert_eq!(a.reason_code, ReturnCode::QuotaExceeded),
        _ => panic!("expected a PUBACK"),
    }
}

#[test]
fn send_only_reason_codes_are_not_read() {
    for v in [141u8, 147, 148] {
        assert_eq!(ReturnCode::try_from_u8(v), Err(MqttProtocolError::InvalidReturnCode(v)));
    }
    assert_eq!(ReturnCode::KeepAliveTimeout.code(), 141);
    assert_eq!(ReturnCode::try_from_u8(ReturnCode::QuotaExceeded.code()), Ok(ReturnCode::QuotaExceeded));
}

#[test]
fn disconnect_with_a_send_only_reason_is_refused() {
    let st = settings();
    assert!(matches!(
        Disconnect::disconnect_try_from(&[141, 0], MqttProtocolVersion::V5, &st),
        Err(MqttProtocolError::InvalidReturnCode(141))
    ));
    assert!(matches!(
        Disconnect::disconnect_try_from(&[0, 0], MqttProtocolVersion::V5, &st),
        Ok(Message::Disconnect(_))
    ));
}
