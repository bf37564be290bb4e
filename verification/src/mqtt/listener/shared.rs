//! What a client connection does with each packet its client sends: the decision,
//! apart from the sending and the channels to the broker that carry it out.
use vstd::prelude::*;

use std::collections::HashMap;

use super::super::code::ReturnCode;
use super::super::error::MqttProtocolError;
use super::super::protocol::message::Message;
use super::super::protocol::publish::{PubAck, Publish, PublishView};
use super::super::protocol::subscribe::{Subscribe, Unsubscribe};
use super::super::utils::{pub_topic_ok, pub_topic_valid};
use super::super::QoS;
use super::store::{after_ack, after_rec, opt_publish, Store, StoreView};

verus! {

broadcast use vstd::std_specs::hash::group_hash_axioms;

/// Where a packet from the client goes beyond the connection.
pub enum Forward {
    /// nowhere
    Nothing,
    /// to the broker, whose SUBACK answers the client
    Subscribe(Subscribe),
    /// to the broker, whose UNSUBACK answers the client
    Unsubscribe(Unsubscribe),
    /// to the subscribers of its topic; when `keep_retained` holds the broker first
    /// keeps it as the retained message of the topic
    Route { publish: Publish, keep_retained: bool },
}

/// What the connection does with a packet: where it goes, and what the client is
/// answered at once.
pub struct Reaction {
    pub forward: Forward,
    pub reply: Option<Message>,
}

/// The topic aliases a client has set up, as plain values.
pub open spec fn alias_view(m: HashMap<u16, String>) -> Map<u16, Seq<char>> {
    m@.map_values(|s: String| s@)
}

/// What the topic alias of a PUBLISH does: alias 0 is refused; with no topic the
/// alias gives the topic it stands for (if any); with a valid topic the alias is set
/// to it, while there is room for a new alias (else refused); an invalid topic is
/// dropped. Gives the aliases after it and the topic the message goes on.
pub open spec fn resolve_alias(
    aliases: Map<u16, Seq<char>>,
    maximum: u16,
    topic: Seq<char>,
    alias: Option<u16>,
) -> Result<(Map<u16, Seq<char>>, Seq<char>), ReturnCode> {
    match alias {
        None => Ok((aliases, topic)),
        Some(a) => if a == 0 {
            Err(ReturnCode::TopicAliasInvalid)
        } else if topic.len() == 0 {
            Ok((aliases, if aliases.contains_key(a) { aliases[a] } else { topic }))
        } else if pub_topic_ok(topic) {
            if aliases.contains_key(a) || aliases.len() < maximum {
                Ok((aliases.insert(a, topic), topic))
            } else {
                Err(ReturnCode::TopicAliasInvalid)
            }
        } else {
            Ok((aliases, Seq::empty()))
        },
    }
}

/// The acknowledgement a PUBLISH of `qos` gets with reason `code`: PUBACK for QoS 1,
/// PUBREC for QoS 2, none for QoS 0.
pub open spec fn publish_answer(qos: QoS, id: Option<u16>, code: ReturnCode) -> Option<(bool, PubAck)> {
    let pid = match id {
        Some(x) => x,
        None => 0,
    };
    if qos == QoS::AtLeastOnce {
        Some((true, PubAck { packet_id: pid, reason_code: code }))
    } else if qos == QoS::ExactlyOnce {
        Some((false, PubAck { packet_id: pid, reason_code: code }))
    } else {
        None
    }
}

/// Whether `reply` is the acknowledgement that `publish_answer` gives.
pub open spec fn is_publish_answer(reply: Option<Message>, a: Option<(bool, PubAck)>) -> bool {
    match a {
        None => reply is None,
        Some((true, ack)) => reply matches Some(Message::PubAck(x)) && x == ack,
        Some((false, ack)) => reply matches Some(Message::PubRec(x)) && x == ack,
    }
}

/// Whether `r` is what the connection does with a PUBLISH `p` (its topic alias
/// already resolved to `topic` with aliases `al` after it), from store `s` to store
/// `s2`.
pub open spec fn publish_outcome(
    r: Result<Reaction, MqttProtocolError>,
    p: PublishView,
    topic: Seq<char>,
    s: StoreView,
    s2: StoreView,
) -> bool {
    let q = PublishView { topic, ..p };
    if (p.topic_alias is Some && topic.len() == 0) || !pub_topic_ok(topic) {
        r matches Ok(x) && x.forward is Nothing && is_publish_answer(
            x.reply,
            publish_answer(p.qos, p.packet_id, ReturnCode::TopicNameInvalid),
        ) && s2 == s
    } else if p.qos == QoS::AtLeastOnce {
        r matches Ok(x) && (x.forward matches Forward::Route { publish, keep_retained } && publish@
            == q && keep_retained == p.retain) && is_publish_answer(
            x.reply,
            publish_answer(p.qos, p.packet_id, ReturnCode::Success),
        ) && s2 == s
    } else if p.qos == QoS::ExactlyOnce {
        let id = p.packet_id->Some_0;
        if s.qos2.contains_key(id) {
            r matches Ok(x) && x.forward is Nothing && is_publish_answer(
                x.reply,
                publish_answer(p.qos, p.packet_id, ReturnCode::Success),
            ) && s2 == s
        } else if s.qos2.len() < s.qos2_size {
            r matches Ok(x) && x.forward is Nothing && is_publish_answer(
                x.reply,
                publish_answer(p.qos, p.packet_id, ReturnCode::Success),
            ) && s2 == (StoreView { qos2: s.qos2.insert(id, Some(q)), ..s })
        } else {
            r == Err::<Reaction, MqttProtocolError>(
                MqttProtocolError::Disconnected(ReturnCode::ReceiveMaximumExceeded),
            ) && s2 == s
        }
    } else {
        r matches Ok(x) && (x.forward matches Forward::Route { publish, keep_retained } && publish@
            == q && keep_retained == p.retain) && x.reply is None && s2 == s
    }
}

/// Whether a message can be handled: a QoS 2 PUBLISH carries a packet identifier,
/// as every decoded one does.
pub open spec fn handleable(m: Message) -> bool {
    m matches Message::Publish(p) ==> (p.qos == QoS::ExactlyOnce ==> p.packet_id is Some)
}

/// Decides what the connection does with the packet `msg` from its client, given the
/// client's topic aliases (at most `client_topic_alias_maximum`) and its store.
pub fn handle_message(
    message_store: &mut Store,
    client_topic_alias: &mut HashMap<u16, String>,
    client_topic_alias_maximum: u16,
    msg: Message,
) -> (r: Result<Reaction, MqttProtocolError>)
    requires
        handleable(msg),
    ensures
        match msg {
            Message::Connect(_) => r == Err::<Reaction, MqttProtocolError>(
                MqttProtocolError::InvalidMessageType,
            ) && final(message_store)@ == old(message_store)@ && alias_view(*final(client_topic_alias))
                == alias_view(*old(client_topic_alias)),
            Message::PingReq => r matches Ok(x) && x.forward is Nothing && (x.reply matches Some(
                Message::PingResp,
            )) && final(message_store)@ == old(message_store)@ && alias_view(*final(client_topic_alias))
                == alias_view(*old(client_topic_alias)),
            Message::Disconnect(d) => r == Err::<Reaction, MqttProtocolError>(
                MqttProtocolError::Disconnected(d.reason),
            ) && final(message_store)@ == old(message_store)@ && alias_view(*final(client_topic_alias))
                == alias_view(*old(client_topic_alias)),
            Message::Subscribe(sub) => r matches Ok(x) && (x.forward matches Forward::Subscribe(y)
                && y@ == sub@) && x.reply is None && final(message_store)@ == old(message_store)@
                && alias_view(*final(client_topic_alias)) == alias_view(*old(client_topic_alias)),
            Message::Unsubscribe(u) => r matches Ok(x) && (x.forward matches Forward::Unsubscribe(y)
                && y@ == u@) && x.reply is None && final(message_store)@ == old(message_store)@
                && alias_view(*final(client_topic_alias)) == alias_view(*old(client_topic_alias)),
            Message::Publish(p) => match resolve_alias(
                alias_view(*old(client_topic_alias)),
                client_topic_alias_maximum,
                p.topic@,
                p.topic_alias,
            ) {
                Err(code) => r == Err::<Reaction, MqttProtocolError>(
                    MqttProtocolError::Disconnected(code),
                ) && final(message_store)@ == old(message_store)@,
                Ok((al, topic)) => alias_view(*final(client_topic_alias)) == al && publish_outcome(
                    r,
                    p@,
                    topic,
                    old(message_store)@,
                    final(message_store)@,
                ),
            },
            Message::PubAck(a) => r matches Ok(x) && x.forward is Nothing && x.reply is None
                && final(message_store)@ == after_ack(old(message_store)@, a.packet_id)
                && alias_view(*final(client_topic_alias)) == alias_view(*old(client_topic_alias)),
            Message::PubComp(a) => r matches Ok(x) && x.forward is Nothing && x.reply is None
                && final(message_store)@ == after_ack(old(message_store)@, a.packet_id)
                && alias_view(*final(client_topic_alias)) == alias_view(*old(client_topic_alias)),
            Message::PubRec(a) => r matches Ok(x) && x.forward is Nothing && (x.reply matches Some(
                Message::PubRel(y),
            ) && y == PubAck { packet_id: a.packet_id, reason_code: ReturnCode::Success }) && (exists|now: u64|
                now < 4294967296 && final(message_store)@ == #[trigger] after_rec(
                    old(message_store)@,
                    a.packet_id,
                    now,
                )) && alias_view(*final(client_topic_alias)) == alias_view(*old(client_topic_alias)),
            Message::PubRel(a) => {
                let s = old(message_store)@;
                let released = if s.qos2.contains_key(a.packet_id) {
                    s.qos2[a.packet_id]
                } else {
                    None
                };
                &&& r matches Ok(x) && (x.reply matches Some(Message::PubComp(y)) && y == PubAck {
                    packet_id: a.packet_id,
                    reason_code: if released is None {
                        ReturnCode::PacketIdentifierNotFound
                    } else {
                        ReturnCode::Success
                    },
                }) && match released {
                    None => x.forward is Nothing,
                    Some(pv) => x.forward matches Forward::Route { publish, keep_retained } && publish@
                        == pv && !keep_retained,
                }
                &&& final(message_store)@ == (StoreView { qos2: s.qos2.remove(a.packet_id), ..s })
                &&& alias_view(*final(client_topic_alias)) == alias_view(*old(client_topic_alias))
            },
            _ => r == Err::<Reaction, MqttProtocolError>(MqttProtocolError::InvalidMessageType)
                && final(message_store)@ == old(message_store)@ && alias_view(*final(client_topic_alias))
                == alias_view(*old(client_topic_alias)),
        },
{
    match msg {
        Message::Connect(_) => Err(MqttProtocolError::InvalidMessageType),
        Message::PingReq => Ok(Reaction { forward: Forward::Nothing, reply: Some(Message::PingResp) }),
        Message::Disconnect(dis) => Err(MqttProtocolError::Disconnected(dis.reason)),
        Message::Subscribe(sub) => Ok(Reaction { forward: Forward::Subscribe(sub), reply: None }),
        Message::Unsubscribe(unsub) => Ok(
            Reaction { forward: Forward::Unsubscribe(unsub), reply: None },
        ),
        Message::Publish(publish) => handle_publish(
            message_store,
            client_topic_alias,
            client_topic_alias_maximum,
            publish,
        ),
        Message::PubAck(puback) => {
            message_store.inflight_ack(puback.packet_id);
            Ok(Reaction { forward: Forward::Nothing, reply: None })
        },
        Message::PubComp(pubcomp) => {
            message_store.inflight_cmp(pubcomp.packet_id);
            Ok(Reaction { forward: Forward::Nothing, reply: None })
        },
        Message::PubRec(pubrec) => {
            message_store.inflight_rec(pubrec.packet_id);
            let pub_rel = PubAck::new(pubrec.packet_id, ReturnCode::Success);
            Ok(Reaction { forward: Forward::Nothing, reply: Some(Message::PubRel(pub_rel)) })
        },
        Message::PubRel(pubrel) => {
            let publish_msg = message_store.qos2_rel(pubrel.packet_id);
            let code = if publish_msg.is_none() {
                ReturnCode::PacketIdentifierNotFound
            } else {
                ReturnCode::Success
            };
            let pub_comp = PubAck::new(pubrel.packet_id, code);
            let forward = match publish_msg {
                Some(publish) => Forward::Route { publish, keep_retained: false },
                None => Forward::Nothing,
            };
            Ok(Reaction { forward, reply: Some(Message::PubComp(pub_comp)) })
        },
        _ => Err(MqttProtocolError::InvalidMessageType),
    }
}

/// The acknowledgement of a PUBLISH of `qos`, as `publish_answer` says.
fn answer(qos: QoS, id: Option<u16>, code: ReturnCode) -> (r: Option<Message>)
    ensures
        is_publish_answer(r, publish_answer(qos, id, code)),
{
    let pid = match id {
        Some(x) => x,
        None => 0,
    };
    match qos {
        QoS::AtLeastOnce => Some(Message::PubAck(PubAck::new(pid, code))),
        QoS::ExactlyOnce => Some(Message::PubRec(PubAck::new(pid, code))),
        QoS::AtMostOnce => None,
    }
}

/// The PUBLISH part of `handle_message`.
fn handle_publish(
    message_store: &mut Store,
    client_topic_alias: &mut HashMap<u16, String>,
    client_topic_alias_maximum: u16,
    publish: Publish,
) -> (r: Result<Reaction, MqttProtocolError>)
    requires
        publish.qos == QoS::ExactlyOnce ==> publish.packet_id is Some,
    ensures
        match resolve_alias(
            alias_view(*old(client_topic_alias)),
            client_topic_alias_maximum,
            publish.topic@,
            publish.topic_alias,
        ) {
            Err(code) => r == Err::<Reaction, MqttProtocolError>(MqttProtocolError::Disconnected(code))
                && final(message_store)@ == old(message_store)@,
            Ok((al, topic)) => alias_view(*final(client_topic_alias)) == al && publish_outcome(
                r,
                publish@,
                topic,
                old(message_store)@,
                final(message_store)@,
            ),
        },
{
    let ghost p0 = publish@;
    let mut publish = publish;
    if let Some(topic_alias) = publish.topic_alias {
        if topic_alias == 0 {
            return Err(MqttProtocolError::Disconnected(ReturnCode::TopicAliasInvalid));
        }
        if publish.topic.as_str().is_empty() {
            match client_topic_alias.get(&topic_alias) {
                Some(t) => {
                    publish.topic = t.clone();
                },
                None => {},
            }
        } else {
            if pub_topic_valid(publish.topic.as_str()) {
                assert(alias_view(*client_topic_alias).dom() =~= client_topic_alias@.dom());
                if client_topic_alias.contains_key(&topic_alias) {
                    client_topic_alias.insert(topic_alias, publish.topic.clone());
                } else {
                    if client_topic_alias.len() < client_topic_alias_maximum as usize {
                        client_topic_alias.insert(topic_alias, publish.topic.clone());
                    } else {
                        return Err(MqttProtocolError::Disconnected(ReturnCode::TopicAliasInvalid));
                    }
                }
                assert(alias_view(*client_topic_alias) =~= alias_view(*old(client_topic_alias)).insert(
                    topic_alias,
                    p0.topic,
                ));
            } else {
                publish.topic = String::new();
            }
        }
    }
    let ghost topic = publish.topic@;
    assert(publish@ == PublishView { topic, ..p0 });
    if (publish.topic_alias.is_some() && publish.topic.as_str().is_empty()) || !pub_topic_valid(
        publish.topic.as_str(),
    ) {
        let reply = answer(publish.qos, publish.packet_id, ReturnCode::TopicNameInvalid);
        return Ok(Reaction { forward: Forward::Nothing, reply });
    }
    match publish.qos {
        QoS::AtLeastOnce => {
            let reply = answer(publish.qos, publish.packet_id, ReturnCode::Success);
            let keep_retained = publish.retain;
            Ok(Reaction { forward: Forward::Route { publish, keep_retained }, reply })
        },
        QoS::ExactlyOnce => {
            let id = match publish.packet_id {
                Some(id) => id,
                None => 0,
            };
            let reply = answer(publish.qos, publish.packet_id, ReturnCode::Success);
            if message_store.qos2_contains(id) {
                return Ok(Reaction { forward: Forward::Nothing, reply });
            }
            if !message_store.qos2_insert(publish) {
                Err(MqttProtocolError::Disconnected(ReturnCode::ReceiveMaximumExceeded))
            } else {
                Ok(Reaction { forward: Forward::Nothing, reply })
            }
        },
        QoS::AtMostOnce => {
            let keep_retained = publish.retain;
            Ok(Reaction { forward: Forward::Route { publish, keep_retained }, reply: None })
        },
    }
}

/// The packet identifier that follows `packet_id`, wrapping from the largest back
/// to 1 (0 is never used).
pub fn get_packet_id(packet_id: u16) -> (next: u16)
    ensures
        next == if packet_id == u16::MAX {
            1
        } else {
            (packet_id + 1) as u16
        },
{
    if packet_id == u16::MAX {
        1
    } else {
        packet_id + 1
    }
}

} // verus!
