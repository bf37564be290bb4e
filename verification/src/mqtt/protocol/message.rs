//! The MQTT control packets, and how a packet body becomes one.
use vstd::prelude::*;

use super::super::code::ReturnCode;
use super::super::error::MqttProtocolError;
use super::super::{MqttProtocolVersion, QoS};
use super::conn::{
    connack_bytes, connect_outcome, disconnect_bytes, parse_connect, parse_disconnect, ConnAck,
    Connect, Disconnect,
};
use super::publish::{
    parse_ack, parse_puback, parse_publish, publish_bytes, publish_outcome, puback_bytes, PubAck,
    PubComp, PubRec, PubRel, Publish,
};
use super::subscribe::{
    ack_codes_bytes, parse_subscribe, parse_unsubscribe, SubAck, Subscribe, UnsubAck,
    Unsubscribe,
};
use crate::config::MqttSettings;

verus! {

/// The type of a control packet, as the high half of its first byte gives it.
#[derive(Clone, Copy, PartialEq, Eq, Structural, Debug)]
pub enum MessageType {
    Reserved0,
    Connect,
    ConnAck,
    Publish,
    PubAck,
    PubRec,
    PubRel,
    PubComp,
    Subscribe,
    SubAck,
    Unsubscribe,
    UnsubAck,
    PingReq,
    PingResp,
    Disconnect,
    Auth,
}

/// The number of a packet type.
pub open spec fn type_code(t: MessageType) -> u8 {
    match t {
        MessageType::Reserved0 => 0,
        MessageType::Connect => 1,
        MessageType::ConnAck => 2,
        MessageType::Publish => 3,
        MessageType::PubAck => 4,
        MessageType::PubRec => 5,
        MessageType::PubRel => 6,
        MessageType::PubComp => 7,
        MessageType::Subscribe => 8,
        MessageType::SubAck => 9,
        MessageType::Unsubscribe => 10,
        MessageType::UnsubAck => 11,
        MessageType::PingReq => 12,
        MessageType::PingResp => 13,
        MessageType::Disconnect => 14,
        MessageType::Auth => 15,
    }
}

/// The packet type of a number from 1 to 15; 0 is reserved.
pub open spec fn type_of_code(v: u8) -> Option<MessageType> {
    if 1 <= v <= 15 {
        Some(
            if v == 1 {
                MessageType::Connect
            } else if v == 2 {
                MessageType::ConnAck
            } else if v == 3 {
                MessageType::Publish
            } else if v == 4 {
                MessageType::PubAck
            } else if v == 5 {
                MessageType::PubRec
            } else if v == 6 {
                MessageType::PubRel
            } else if v == 7 {
                MessageType::PubComp
            } else if v == 8 {
                MessageType::Subscribe
            } else if v == 9 {
                MessageType::SubAck
            } else if v == 10 {
                MessageType::Unsubscribe
            } else if v == 11 {
                MessageType::UnsubAck
            } else if v == 12 {
                MessageType::PingReq
            } else if v == 13 {
                MessageType::PingResp
            } else if v == 14 {
                MessageType::Disconnect
            } else {
                MessageType::Auth
            },
        )
    } else {
        None
    }
}

impl MessageType {
    /// The number of this packet type.
    pub fn code(self) -> (r: u8)
        ensures
            r == type_code(self),
    {
        match self {
            MessageType::Reserved0 => 0,
            MessageType::Connect => 1,
            MessageType::ConnAck => 2,
            MessageType::Publish => 3,
            MessageType::PubAck => 4,
            MessageType::PubRec => 5,
            MessageType::PubRel => 6,
            MessageType::PubComp => 7,
            MessageType::Subscribe => 8,
            MessageType::SubAck => 9,
            MessageType::Unsubscribe => 10,
            MessageType::UnsubAck => 11,
            MessageType::PingReq => 12,
            MessageType::PingResp => 13,
            MessageType::Disconnect => 14,
            MessageType::Auth => 15,
        }
    }

    /// The packet type of a number; 0 and numbers above 15 are `InvalidMessageType`.
    pub fn try_from_u8(value: u8) -> (r: Result<MessageType, MqttProtocolError>)
        ensures
            match type_of_code(value) {
                Some(t) => r == Ok::<MessageType, MqttProtocolError>(t),
                None => r == Err::<MessageType, MqttProtocolError>(
                    MqttProtocolError::InvalidMessageType,
                ),
            },
    {
        match value {
            1 => Ok(MessageType::Connect),
            2 => Ok(MessageType::ConnAck),
            3 => Ok(MessageType::Publish),
            4 => Ok(MessageType::PubAck),
            5 => Ok(MessageType::PubRec),
            6 => Ok(MessageType::PubRel),
            7 => Ok(MessageType::PubComp),
            8 => Ok(MessageType::Subscribe),
            9 => Ok(MessageType::SubAck),
            10 => Ok(MessageType::Unsubscribe),
            11 => Ok(MessageType::UnsubAck),
            12 => Ok(MessageType::PingReq),
            13 => Ok(MessageType::PingResp),
            14 => Ok(MessageType::Disconnect),
            15 => Ok(MessageType::Auth),
            _ => Err(MqttProtocolError::InvalidMessageType),
        }
    }
}

/// A control packet.
pub enum Message {
    Connect(Connect),
    ConnAck(ConnAck),
    Publish(Publish),
    PubAck(PubAck),
    PubRec(PubRec),
    PubRel(PubRel),
    PubComp(PubComp),
    Subscribe(Subscribe),
    SubAck(SubAck),
    Unsubscribe(Unsubscribe),
    UnsubAck(UnsubAck),
    PingReq,
    PingResp,
    Disconnect(Disconnect),
    Auth,
    PacketTooLarge,
}

/// The packet type of a message; a packet that was too large has the reserved type.
pub open spec fn message_type(m: Message) -> MessageType {
    match m {
        Message::Connect(_) => MessageType::Connect,
        Message::ConnAck(_) => MessageType::ConnAck,
        Message::Publish(_) => MessageType::Publish,
        Message::PubAck(_) => MessageType::PubAck,
        Message::PubRec(_) => MessageType::PubRec,
        Message::PubRel(_) => MessageType::PubRel,
        Message::PubComp(_) => MessageType::PubComp,
        Message::Subscribe(_) => MessageType::Subscribe,
        Message::SubAck(_) => MessageType::SubAck,
        Message::Unsubscribe(_) => MessageType::Unsubscribe,
        Message::UnsubAck(_) => MessageType::UnsubAck,
        Message::PingReq => MessageType::PingReq,
        Message::PingResp => MessageType::PingResp,
        Message::Disconnect(_) => MessageType::Disconnect,
        Message::Auth => MessageType::Auth,
        Message::PacketTooLarge => MessageType::Reserved0,
    }
}

/// A packet as its fixed header and body give it.
pub struct FixedOptions {
    pub dup: bool,
    pub qos: QoS,
    pub retain: bool,
    pub msg_type: MessageType,
    pub bytes: Vec<u8>,
}

/// Whether encoding `m` runs into a part of the protocol the broker does not write:
/// it never sends CONNECT, SUBSCRIBE or UNSUBSCRIBE.
pub open spec fn unwritable(m: Message) -> bool {
    m is Connect || m is Subscribe || m is Unsubscribe
}

/// The fixed header fields and body of a message that the broker writes.
pub open spec fn message_fixed(m: Message, v: MqttProtocolVersion, st: MqttSettings) -> (
    bool,
    QoS,
    bool,
    MessageType,
    Seq<u8>,
) {
    match m {
        Message::Publish(p) => (p.dup, p.qos, p.retain, MessageType::Publish, publish_bytes(p@, v)),
        Message::ConnAck(a) => (false, QoS::AtMostOnce, false, MessageType::ConnAck, connack_bytes(a@, v, st)),
        Message::SubAck(a) => (
            false,
            QoS::AtMostOnce,
            false,
            MessageType::SubAck,
            ack_codes_bytes(a.packet_id, a.return_codes@, v),
        ),
        Message::UnsubAck(a) => (
            false,
            QoS::AtMostOnce,
            false,
            MessageType::UnsubAck,
            ack_codes_bytes(a.packet_id, a.return_codes@, v),
        ),
        Message::Disconnect(d) => (false, QoS::AtMostOnce, false, MessageType::Disconnect, disconnect_bytes(d, v)),
        Message::PubAck(a) => (false, QoS::AtMostOnce, false, MessageType::PubAck, puback_bytes(a, v)),
        Message::PubRec(a) => (false, QoS::AtMostOnce, false, MessageType::PubRec, puback_bytes(a, v)),
        Message::PubRel(a) => (false, QoS::AtMostOnce, false, MessageType::PubRel, puback_bytes(a, v)),
        Message::PubComp(a) => (false, QoS::AtMostOnce, false, MessageType::PubComp, puback_bytes(a, v)),
        _ => (false, QoS::AtMostOnce, false, message_type(m), Seq::empty()),
    }
}

/// Whether `r` is what decoding a body of type `t` with these fixed header flags
/// should give, under `st`, for a client of version `v`.
pub open spec fn body_outcome(
    r: Result<Message, MqttProtocolError>,
    t: MessageType,
    b: Seq<u8>,
    qos: QoS,
    dup: bool,
    retain: bool,
    v: MqttProtocolVersion,
    st: MqttSettings,
) -> bool {
    match t {
        MessageType::Connect => parse_connect(b, st) is Some && connect_outcome(
            r,
            parse_connect(b, st)->Some_0,
        ),
        MessageType::PingReq => r matches Ok(Message::PingReq),
        MessageType::Subscribe => match parse_subscribe(b, v) {
            Ok(sv) => r matches Ok(Message::Subscribe(x)) && x@ == sv,
            Err(e) => r == Err::<Message, MqttProtocolError>(e),
        },
        MessageType::Unsubscribe => match parse_unsubscribe(b, v) {
            Ok(uv) => r matches Ok(Message::Unsubscribe(x)) && x@ == uv,
            Err(e) => r == Err::<Message, MqttProtocolError>(e),
        },
        MessageType::Publish => exists|now: u64|
            now < 4294967296 && publish_outcome(r, #[trigger] parse_publish(b, v, qos, dup, retain, now)),
        MessageType::Disconnect => match parse_disconnect(b, v, st) {
            Ok(d) => r matches Ok(Message::Disconnect(x)) && x == d,
            Err(e) => r == Err::<Message, MqttProtocolError>(e),
        },
        MessageType::PubAck => match parse_puback(b, v) {
            Ok(a) => r matches Ok(Message::PubAck(x)) && x == a,
            Err(e) => r == Err::<Message, MqttProtocolError>(e),
        },
        MessageType::PubRec => match parse_ack(b, v) {
            Ok(a) => r matches Ok(Message::PubRec(x)) && x == a,
            Err(e) => r == Err::<Message, MqttProtocolError>(e),
        },
        MessageType::PubRel => match parse_ack(b, v) {
            Ok(a) => r matches Ok(Message::PubRel(x)) && x == a,
            Err(e) => r == Err::<Message, MqttProtocolError>(e),
        },
        MessageType::PubComp => match parse_ack(b, v) {
            Ok(a) => r matches Ok(Message::PubComp(x)) && x == a,
            Err(e) => r == Err::<Message, MqttProtocolError>(e),
        },
        _ => r == Err::<Message, MqttProtocolError>(MqttProtocolError::InvalidMessageType),
    }
}

impl Message {
    /// Marks a PUBLISH as sent again; other messages are left as they are.
    pub fn with_dup(&mut self)
        ensures
            match *old(self) {
                Message::Publish(p) => *final(self) matches Message::Publish(q) && q@ == (
                super::publish::PublishView { dup: true, ..p@ }),
                _ => *final(self) == *old(self),
            },
    {
        if let Message::Publish(publish) = self {
            publish.dup = true;
        }
    }

    /// The packet type of this message.
    pub fn to_type(&self) -> (r: MessageType)
        ensures
            r == message_type(*self),
    {
        match self {
            Message::Connect(_) => MessageType::Connect,
            Message::ConnAck(_) => MessageType::ConnAck,
            Message::Publish(_) => MessageType::Publish,
            Message::PubAck(_) => MessageType::PubAck,
            Message::PubRec(_) => MessageType::PubRec,
            Message::PubRel(_) => MessageType::PubRel,
            Message::PubComp(_) => MessageType::PubComp,
            Message::Subscribe(_) => MessageType::Subscribe,
            Message::SubAck(_) => MessageType::SubAck,
            Message::Unsubscribe(_) => MessageType::Unsubscribe,
            Message::UnsubAck(_) => MessageType::UnsubAck,
            Message::PingReq => MessageType::PingReq,
            Message::PingResp => MessageType::PingResp,
            Message::Disconnect(_) => MessageType::Disconnect,
            Message::Auth => MessageType::Auth,
            Message::PacketTooLarge => MessageType::Reserved0,
        }
    }

    /// The fixed header fields and body of this message for a client of `version`,
    /// as `message_fixed` says.
    pub fn into(self, version: MqttProtocolVersion, settings: &MqttSettings) -> (r: FixedOptions)
        requires
            !unwritable(self),
        ensures
            (r.dup, r.qos, r.retain, r.msg_type, r.bytes@) == message_fixed(self, version, *settings),
    {
        let msg_type = self.to_type();
        match self {
            Message::Publish(publish) => {
                let retain = publish.retain;
                let dup = publish.dup;
                let qos = publish.qos;
                let bytes = publish.into(version);
                FixedOptions { qos, dup, retain, msg_type, bytes }
            },
            Message::ConnAck(connack) => {
                let bytes = connack.into(version, settings);
                FixedOptions { qos: QoS::AtMostOnce, dup: false, retain: false, msg_type, bytes }
            },
            Message::SubAck(suback) => {
                let bytes = suback.into(version);
                FixedOptions { qos: QoS::AtMostOnce, dup: false, retain: false, msg_type, bytes }
            },
            Message::UnsubAck(unsuback) => {
                let bytes = unsuback.into(version);
                FixedOptions { qos: QoS::AtMostOnce, dup: false, retain: false, msg_type, bytes }
            },
            Message::Disconnect(disconnect) => {
                let bytes = disconnect.into(version);
                FixedOptions { qos: QoS::AtMostOnce, dup: false, retain: false, msg_type, bytes }
            },
            Message::PubAck(a) | Message::PubRec(a) | Message::PubRel(a) | Message::PubComp(a) => {
                let bytes = a.into(version);
                FixedOptions { qos: QoS::AtMostOnce, dup: false, retain: false, msg_type, bytes }
            },
            _ => FixedOptions {
                qos: QoS::AtMostOnce,
                dup: false,
                retain: false,
                msg_type,
                bytes: Vec::new(),
            },
        }
    }

    /// Decodes the body of a packet whose fixed header is `fixed`, for a client of
    /// `version` under `settings`, as `body_outcome` says.
    pub fn try_from_fixed(
        fixed: FixedOptions,
        version: MqttProtocolVersion,
        settings: &MqttSettings,
    ) -> (r: Result<Message, MqttProtocolError>)
        requires
            fixed.msg_type == MessageType::Connect ==> parse_connect(fixed.bytes@, *settings) is Some,
        ensures
            body_outcome(
                r,
                fixed.msg_type,
                fixed.bytes@,
                fixed.qos,
                fixed.dup,
                fixed.retain,
                version,
                *settings,
            ),
    {
        let b = fixed.bytes.as_slice();
        match fixed.msg_type {
            MessageType::Connect => Connect::connect_try_from(b, settings),
            MessageType::PingReq => Ok(Message::PingReq),
            MessageType::Subscribe => Subscribe::subscribe_try_from(b, version),
            MessageType::Unsubscribe => Unsubscribe::unsubscribe_try_from(b, version),
            MessageType::Publish => Publish::publish_try_from(
                b,
                version,
                fixed.qos,
                fixed.dup,
                fixed.retain,
            ),
            MessageType::Disconnect => Disconnect::disconnect_try_from(b, version, settings),
            MessageType::PubAck => PubAck::puback_try_from(b, version),
            MessageType::PubRec => PubAck::pubrec_try_from(b, version),
            MessageType::PubRel => PubAck::pubrel_try_from(b, version),
            MessageType::PubComp => PubAck::pubcomp_try_from(b, version),
            _ => Err(MqttProtocolError::InvalidMessageType),
        }
    }
}

} // verus!
