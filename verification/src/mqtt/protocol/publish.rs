//! PUBLISH, and PUBACK, PUBREC, PUBREL and PUBCOMP that acknowledge it.
use vstd::prelude::*;
use vstd::utf8::encode_utf8;

use super::super::code::{code_of_value, code_value, decodable, lemma_code_roundtrip, ReturnCode};
use super::super::error::MqttProtocolError;
use super::super::{MqttProtocolVersion, QoS};
use super::message::Message;
use super::property::{
    clone_users, four_of, lemma_properties_roundtrip, lemma_take_step, last_value, pair_views,
    parse_properties, properties_bytes, properties_concat, property_wf, put_properties,
    try_from_properties, two_of, user_pairs, value_fits,
    user_properties_of, user_property_views, var_of, views, PropValue, Property, PropertyUser,
    PropertyView,
};
use super::text::{field_at, lemma_text_roundtrip, put_text, read_text, text_bytes, utf8_text};
use super::wire::{
    be_u16_at, be_u16_bytes, copy_bytes, lemma_u16_roundtrip, put_slice, put_u16, put_u8, read_u16,
    read_u8,
};
use crate::clock::now_secs;
use crate::topic::opt_chars;

verus! {

/// Options that a message carries on to its deliveries (MQTT 5).
pub struct PublishOptions {
    pub expiry: Option<u32>,
    /// when the message expires, in seconds since the Unix epoch
    pub expiry_at: Option<u64>,
    pub topic_alias: Option<u16>,
    pub payload_format_indicator: Option<u8>,
    pub content_type: Option<String>,
    pub response_topic: Option<String>,
    pub correlation_data: Option<Vec<u8>>,
    pub subscription_identifier: Option<u32>,
}

impl PublishOptions {
    /// Options that say nothing.
    pub open spec fn empty() -> PublishOptions {
        PublishOptions {
            expiry: None,
            expiry_at: None,
            topic_alias: None,
            payload_format_indicator: None,
            content_type: None,
            response_topic: None,
            correlation_data: None,
            subscription_identifier: None,
        }
    }

    /// These options with the message expiry interval `expiry`.
    pub fn with_expiry(self, expiry: Option<u32>) -> (r: Self)
        ensures
            r == (PublishOptions { expiry, ..self }),
    {
        PublishOptions { expiry, ..self }
    }

    /// These options with the subscription identifier `subscription_identifier`.
    pub fn with_subscription_identifier(self, subscription_identifier: Option<u32>) -> (r: Self)
        ensures
            r == (PublishOptions { subscription_identifier, ..self }),
    {
        PublishOptions { subscription_identifier, ..self }
    }
}

impl Default for PublishOptions {
    fn default() -> (r: Self)
        ensures
            r == PublishOptions::empty(),
    {
        PublishOptions {
            expiry: None,
            expiry_at: None,
            topic_alias: None,
            payload_format_indicator: None,
            content_type: None,
            response_topic: None,
            correlation_data: None,
            subscription_identifier: None,
        }
    }
}

/// Publish options as plain values.
pub struct PublishOptionsView {
    pub expiry: Option<u32>,
    pub expiry_at: Option<u64>,
    pub topic_alias: Option<u16>,
    pub payload_format_indicator: Option<u8>,
    pub content_type: Option<Seq<char>>,
    pub response_topic: Option<Seq<char>>,
    pub correlation_data: Option<Seq<u8>>,
    pub subscription_identifier: Option<u32>,
}

impl View for PublishOptions {
    type V = PublishOptionsView;

    open spec fn view(&self) -> PublishOptionsView {
        PublishOptionsView {
            expiry: self.expiry,
            expiry_at: self.expiry_at,
            topic_alias: self.topic_alias,
            payload_format_indicator: self.payload_format_indicator,
            content_type: opt_chars(self.content_type),
            response_topic: opt_chars(self.response_topic),
            correlation_data: match self.correlation_data {
                Some(b) => Some(b@),
                None => None,
            },
            subscription_identifier: self.subscription_identifier,
        }
    }
}

/// A PUBLISH packet.
pub struct Publish {
    pub dup: bool,
    pub qos: QoS,
    pub retain: bool,
    pub topic: String,
    pub payload: Vec<u8>,
    pub topic_alias: Option<u16>,
    pub packet_id: Option<u16>,
    /// when the message expires, in seconds since the Unix epoch
    pub expiry_at: Option<u64>,
    pub subscription_identifier: Option<u32>,
    pub user_properties: Vec<PropertyUser>,
}

/// A PUBLISH packet as plain values.
pub struct PublishView {
    pub dup: bool,
    pub qos: QoS,
    pub retain: bool,
    pub topic: Seq<char>,
    pub payload: Seq<u8>,
    pub topic_alias: Option<u16>,
    pub packet_id: Option<u16>,
    pub expiry_at: Option<u64>,
    pub subscription_identifier: Option<u32>,
    pub user_properties: Seq<(Seq<char>, Seq<char>)>,
}

impl View for Publish {
    type V = PublishView;

    open spec fn view(&self) -> PublishView {
        PublishView {
            dup: self.dup,
            qos: self.qos,
            retain: self.retain,
            topic: self.topic@,
            payload: self.payload@,
            topic_alias: self.topic_alias,
            packet_id: self.packet_id,
            expiry_at: self.expiry_at,
            subscription_identifier: self.subscription_identifier,
            user_properties: pair_views(self.user_properties@),
        }
    }
}

impl Clone for Publish {
    fn clone(&self) -> (r: Self)
        ensures
            r@ == self@,
    {
        Publish {
            dup: self.dup,
            qos: self.qos,
            retain: self.retain,
            topic: self.topic.clone(),
            payload: copy_bytes(self.payload.as_slice()),
            topic_alias: self.topic_alias,
            packet_id: self.packet_id,
            expiry_at: self.expiry_at,
            subscription_identifier: self.subscription_identifier,
            user_properties: clone_users(&self.user_properties),
        }
    }
}

/// An acknowledgement of a PUBLISH (PUBACK), or a step of its QoS 2 exchange
/// (PUBREC, PUBREL, PUBCOMP).
#[derive(Clone, Copy, PartialEq, Eq, Structural, Debug)]
pub struct PubAck {
    pub packet_id: u16,
    pub reason_code: ReturnCode,
}

pub type PubRec = PubAck;

pub type PubRel = PubAck;

pub type PubComp = PubAck;

/// The packet identifier field of a PUBLISH: two bytes when the quality of service
/// is above 0 (0 when the packet has no identifier), none otherwise.
pub open spec fn packet_id_bytes(q: QoS, id: Option<u16>) -> Seq<u8> {
    if q == QoS::AtMostOnce {
        Seq::empty()
    } else {
        be_u16_bytes(
            match id {
                Some(x) => x,
                None => 0,
            },
        )
    }
}

/// The body of a PUBLISH: topic, packet identifier, the user properties (MQTT 5),
/// payload.
pub open spec fn publish_bytes(p: PublishView, v: MqttProtocolVersion) -> Seq<u8> {
    text_bytes(p.topic) + packet_id_bytes(p.qos, p.packet_id) + (if v
        == MqttProtocolVersion::V5 {
        properties_bytes(user_property_views(p.user_properties))
    } else {
        Seq::empty()
    }) + p.payload
}

/// Decodes the body of a PUBLISH whose fixed header gave `qos`, `dup` and `retain`,
/// received at `now` (seconds since the Unix epoch). The topic must be UTF-8
/// (`InvalidTopicFilter`); a message expiry interval becomes the time it expires; of
/// each property the last one counts; the payload is the rest of the body.
pub open spec fn parse_publish(
    s: Seq<u8>,
    version: MqttProtocolVersion,
    qos: QoS,
    dup: bool,
    retain: bool,
    now: u64,
) -> Result<PublishView, MqttProtocolError> {
    match field_at(s, 0) {
        None => Err(MqttProtocolError::Disconnect),
        Some((tb, i)) => match utf8_text(tb) {
            None => Err(MqttProtocolError::InvalidTopicFilter),
            Some(topic) => if qos != QoS::AtMostOnce && i + 2 > s.len() {
                Err(MqttProtocolError::Disconnect)
            } else {
                let packet_id = if qos != QoS::AtMostOnce {
                    Some(be_u16_at(s, i))
                } else {
                    None
                };
                let j = if qos != QoS::AtMostOnce {
                    i + 2
                } else {
                    i
                };
                if version == MqttProtocolVersion::V5 {
                    match parse_properties(s, j) {
                        Err(e) => Err(e),
                        Ok((ps, k)) => Ok(
                            PublishView {
                                dup,
                                qos,
                                retain,
                                topic,
                                payload: s.subrange(k, s.len() as int),
                                topic_alias: two_of(last_value(ps, 0x23)),
                                packet_id,
                                expiry_at: match four_of(last_value(ps, 0x02)) {
                                    Some(x) => Some((now + x) as u64),
                                    None => None,
                                },
                                subscription_identifier: var_of(last_value(ps, 0x0B)),
                                user_properties: user_pairs(ps),
                            },
                        ),
                    }
                } else {
                    Ok(
                        PublishView {
                            dup,
                            qos,
                            retain,
                            topic,
                            payload: s.subrange(j, s.len() as int),
                            topic_alias: None,
                            packet_id,
                            expiry_at: None,
                            subscription_identifier: None,
                            user_properties: Seq::empty(),
                        },
                    )
                }
            },
        },
    }
}

/// Whether `r` is what decoding a PUBLISH should give when it gives `spec`.
pub open spec fn publish_outcome(
    r: Result<Message, MqttProtocolError>,
    spec: Result<PublishView, MqttProtocolError>,
) -> bool {
    match spec {
        Ok(pv) => r matches Ok(Message::Publish(p)) && p@ == pv,
        Err(e) => r == Err::<Message, MqttProtocolError>(e),
    }
}

impl Publish {
    /// A PUBLISH with no topic alias, expiry or subscription identifier.
    pub fn new(
        dup: bool,
        qos: QoS,
        retain: bool,
        topic: String,
        packet_id: Option<u16>,
        payload: Vec<u8>,
        user_properties: Vec<PropertyUser>,
    ) -> (r: Self)
        ensures
            r@ == (PublishView {
                dup,
                qos,
                retain,
                topic: topic@,
                payload: payload@,
                topic_alias: None,
                packet_id,
                expiry_at: None,
                subscription_identifier: None,
                user_properties: pair_views(user_properties@),
            }),
    {
        Publish {
            dup,
            qos,
            retain,
            topic,
            packet_id,
            payload,
            expiry_at: None,
            topic_alias: None,
            subscription_identifier: None,
            user_properties,
        }
    }

    /// This PUBLISH with the subscription identifier `subscription_identifier`.
    pub fn with_subscription_identifier(self, subscription_identifier: Option<u32>) -> (r: Self)
        ensures
            r@ == (PublishView { subscription_identifier, ..self@ }),
    {
        Publish { subscription_identifier, ..self }
    }

    /// The body of this PUBLISH for a client of `version`, as `publish_bytes` says.
    pub fn into(self, version: MqttProtocolVersion) -> (r: Vec<u8>)
        ensures
            r@ == publish_bytes(self@, version),
    {
        let mut buf: Vec<u8> = Vec::new();
        put_text(&mut buf, self.topic.as_str());
        if self.qos != QoS::AtMostOnce {
            match self.packet_id {
                Some(id) => put_u16(&mut buf, id),
                None => put_u16(&mut buf, 0),
            }
        }
        if version == MqttProtocolVersion::V5 {
            let props = user_properties_of(&self.user_properties);
            put_properties(&mut buf, &props);
        }
        put_slice(&mut buf, self.payload.as_slice());
        assert(buf@ =~= publish_bytes(self@, version));
        buf
    }

    /// Decodes the body of a PUBLISH received at `now`, as `parse_publish` says.
    pub fn publish_try_from_at(
        buf: &[u8],
        version: MqttProtocolVersion,
        qos: QoS,
        dup: bool,
        retain: bool,
        now: u64,
    ) -> (r: Result<Message, MqttProtocolError>)
        requires
            now <= u64::MAX - u32::MAX,
        ensures
            publish_outcome(r, parse_publish(buf@, version, qos, dup, retain, now)),
    {
        let (topic, i) = read_text(buf, 0, MqttProtocolError::InvalidTopicFilter)?;
        let mut j = i;
        let packet_id = if qos != QoS::AtMostOnce {
            let (pid, k) = read_u16(buf, i)?;
            j = k;
            Some(pid)
        } else {
            None
        };
        let mut expiry_at: Option<u64> = None;
        let mut topic_alias: Option<u16> = None;
        let mut subscription_identifier: Option<u32> = None;
        let mut user_properties: Vec<PropertyUser> = Vec::new();
        if version == MqttProtocolVersion::V5 {
            let (props, k) = try_from_properties(buf, j)?;
            let ghost ps = views(props@);
            let mut idx: usize = 0;
            while idx < props.len()
                invariant
                    idx <= props@.len(),
                    ps == views(props@),
                    now <= u64::MAX - u32::MAX,
                    topic_alias == two_of(last_value(ps.take(idx as int), 0x23)),
                    subscription_identifier == var_of(last_value(ps.take(idx as int), 0x0B)),
                    expiry_at == match four_of(last_value(ps.take(idx as int), 0x02)) {
                        Some(x) => Some((now + x) as u64),
                        None => None,
                    },
                    pair_views(user_properties@) == user_pairs(ps.take(idx as int)),
                decreases props.len() - idx,
            {
                proof {
                    lemma_take_step(ps, idx as int);
                }
                let ghost before = user_properties@;
                match &props[idx] {
                    Property::MessageExpiryInterval(v) => {
                        expiry_at = Some(now + *v as u64);
                    },
                    Property::TopicAlias(v) => {
                        topic_alias = Some(*v);
                    },
                    Property::SubscriptionIdentifier(v) => {
                        subscription_identifier = Some(*v);
                    },
                    Property::UserProperty(u) => {
                        user_properties.push(u.clone());
                        assert(pair_views(user_properties@) =~= pair_views(before).push(u@));
                    },
                    _ => {},
                }
                idx = idx + 1;
            }
            assert(ps.take(props@.len() as int) =~= ps);
            let payload = copy_bytes(slice_from(buf, k));
            let publish = Publish {
                dup,
                qos,
                retain,
                topic,
                packet_id,
                payload,
                expiry_at,
                topic_alias,
                subscription_identifier,
                user_properties,
            };
            Ok(Message::Publish(publish))
        } else {
            let payload = copy_bytes(slice_from(buf, j));
            let publish = Publish {
                dup,
                qos,
                retain,
                topic,
                packet_id,
                payload,
                expiry_at,
                topic_alias,
                subscription_identifier,
                user_properties,
            };
            assert(pair_views(publish.user_properties@) =~= Seq::<(Seq<char>, Seq<char>)>::empty());
            Ok(Message::Publish(publish))
        }
    }

    /// Decodes the body of a PUBLISH as `parse_publish` says, taking the time from the
    /// clock: the result is that of some moment before 2^32 seconds after the epoch.
    pub fn publish_try_from(
        buf: &[u8],
        version: MqttProtocolVersion,
        qos: QoS,
        dup: bool,
        retain: bool,
    ) -> (r: Result<Message, MqttProtocolError>)
        ensures
            exists|now: u64|
                now < 4294967296 && publish_outcome(
                    r,
                    #[trigger] parse_publish(buf@, version, qos, dup, retain, now),
                ),
    {
        let now = now_secs();
        let r = Publish::publish_try_from_at(buf, version, qos, dup, retain, now);
        assert(publish_outcome(r, parse_publish(buf@, version, qos, dup, retain, now)));
        r
    }
}

/// The bytes of `buf` from `k` on.
fn slice_from(buf: &[u8], k: usize) -> (r: &[u8])
    requires
        k <= buf@.len(),
    ensures
        r@ == buf@.subrange(k as int, buf@.len() as int),
{
    let (_, tail) = buf.split_at(k);
    tail
}

/// The body of an acknowledgement: the packet identifier, and for MQTT 5 a reason
/// code other than success followed by an empty property list.
pub open spec fn puback_bytes(a: PubAck, v: MqttProtocolVersion) -> Seq<u8> {
    be_u16_bytes(a.packet_id) + if v == MqttProtocolVersion::V5 && a.reason_code
        != ReturnCode::Success {
        seq![code_value(a.reason_code), 0u8]
    } else {
        Seq::empty()
    }
}

/// Decodes the body of a PUBACK. Before MQTT 5 it is the packet identifier alone and
/// the reason is success. In MQTT 5 a missing reason code means success; after a
/// reason code one byte is skipped, and when that byte is not zero a property list
/// that follows it must decode.
pub open spec fn parse_puback(s: Seq<u8>, version: MqttProtocolVersion) -> Result<
    PubAck,
    MqttProtocolError,
> {
    if s.len() < 2 {
        Err(MqttProtocolError::Disconnect)
    } else if version != MqttProtocolVersion::V5 {
        Ok(PubAck { packet_id: be_u16_at(s, 0), reason_code: ReturnCode::Success })
    } else if s.len() < 3 {
        Ok(PubAck { packet_id: be_u16_at(s, 0), reason_code: ReturnCode::Success })
    } else {
        match code_of_value(s[2]) {
            None => Err(MqttProtocolError::InvalidReturnCode(s[2])),
            Some(c) => if s.len() > 3 && s[3] > 0 && parse_properties(s, 4) is Err {
                Err(parse_properties(s, 4)->Err_0)
            } else {
                Ok(PubAck { packet_id: be_u16_at(s, 0), reason_code: c })
            },
        }
    }
}

/// Decodes the body of a PUBREC, PUBREL or PUBCOMP. Before MQTT 5 it is the packet
/// identifier alone and the reason is success. In MQTT 5 a missing reason code means
/// success; after a reason other than success one byte is skipped, and when that byte
/// is not zero a property list that follows it must decode.
pub open spec fn parse_ack(s: Seq<u8>, version: MqttProtocolVersion) -> Result<
    PubAck,
    MqttProtocolError,
> {
    if s.len() < 2 {
        Err(MqttProtocolError::Disconnect)
    } else if version != MqttProtocolVersion::V5 {
        Ok(PubAck { packet_id: be_u16_at(s, 0), reason_code: ReturnCode::Success })
    } else {
        let b: u8 = if s.len() > 2 {
            s[2]
        } else {
            0
        };
        match code_of_value(b) {
            None => Err(MqttProtocolError::InvalidReturnCode(b)),
            Some(c) => if c != ReturnCode::Success && s.len() > 3 && s[3] > 0 && parse_properties(
                s,
                4,
            ) is Err {
                Err(parse_properties(s, 4)->Err_0)
            } else {
                Ok(PubAck { packet_id: be_u16_at(s, 0), reason_code: c })
            },
        }
    }
}

/// Decodes what follows the reason code of an acknowledgement at `pos`: a byte, read
/// if there is one, and when it is not zero a property list after it, which is
/// checked and dropped.
fn skip_ack_properties(buf: &[u8], pos: usize) -> (r: Result<(), MqttProtocolError>)
    ensures
        r is Err <==> (pos < buf@.len() && buf@[pos as int] > 0 && parse_properties(
            buf@,
            pos + 1,
        ) is Err),
        r is Err ==> r->Err_0 == parse_properties(buf@, pos + 1)->Err_0,
{
    let properties_len = match read_u8(buf, pos) {
        Ok((v, _)) => v,
        Err(_) => 0,
    };
    if properties_len > 0 {
        let _ = try_from_properties(buf, pos + 1)?;
    }
    Ok(())
}

impl PubAck {
    /// An acknowledgement of packet `packet_id` with reason `code`.
    pub fn new(packet_id: u16, code: ReturnCode) -> (r: Self)
        ensures
            r == (PubAck { packet_id, reason_code: code }),
    {
        PubAck { packet_id, reason_code: code }
    }

    /// Decodes the body of a PUBACK, as `parse_puback` says.
    pub fn puback_try_from(buf: &[u8], version: MqttProtocolVersion) -> (r: Result<
        Message,
        MqttProtocolError,
    >)
        ensures
            match parse_puback(buf@, version) {
                Ok(a) => r matches Ok(Message::PubAck(b)) && b == a,
                Err(e) => r == Err::<Message, MqttProtocolError>(e),
            },
    {
        let (packet_id, p) = read_u16(buf, 0)?;
        if version != MqttProtocolVersion::V5 {
            return Ok(Message::PubAck(PubAck { packet_id, reason_code: ReturnCode::Success }));
        }
        if p >= buf.len() {
            return Ok(Message::PubAck(PubAck { packet_id, reason_code: ReturnCode::Success }));
        }
        let (reason_code, q) = read_u8(buf, p)?;
        let reason_code = ReturnCode::try_from_u8(reason_code)?;
        skip_ack_properties(buf, q)?;
        Ok(Message::PubAck(PubAck { packet_id, reason_code }))
    }

    /// The reason code of a PUBREC, PUBREL or PUBCOMP and what follows it, as
    /// `parse_ack` says.
    fn ack_try_from(buf: &[u8], version: MqttProtocolVersion) -> (r: Result<
        PubAck,
        MqttProtocolError,
    >)
        ensures
            r == parse_ack(buf@, version),
    {
        let (packet_id, p) = read_u16(buf, 0)?;
        if version != MqttProtocolVersion::V5 {
            return Ok(PubAck { packet_id, reason_code: ReturnCode::Success });
        }
        let (b, q) = match read_u8(buf, p) {
            Ok((v, q)) => (v, q),
            Err(_) => (0u8, p),
        };
        let reason_code = ReturnCode::try_from_u8(b)?;
        if reason_code != ReturnCode::Success {
            skip_ack_properties(buf, q)?;
        }
        Ok(PubAck { packet_id, reason_code })
    }

    /// Decodes the body of a PUBREC, as `parse_ack` says.
    pub fn pubrec_try_from(buf: &[u8], version: MqttProtocolVersion) -> (r: Result<
        Message,
        MqttProtocolError,
    >)
        ensures
            match parse_ack(buf@, version) {
                Ok(a) => r matches Ok(Message::PubRec(b)) && b == a,
                Err(e) => r == Err::<Message, MqttProtocolError>(e),
            },
    {
        let a = PubAck::ack_try_from(buf, version)?;
        Ok(Message::PubRec(a))
    }

    /// Decodes the body of a PUBREL, as `parse_ack` says.
    pub fn pubrel_try_from(buf: &[u8], version: MqttProtocolVersion) -> (r: Result<
        Message,
        MqttProtocolError,
    >)
        ensures
            match parse_ack(buf@, version) {
                Ok(a) => r matches Ok(Message::PubRel(b)) && b == a,
                Err(e) => r == Err::<Message, MqttProtocolError>(e),
            },
    {
        let a = PubAck::ack_try_from(buf, version)?;
        Ok(Message::PubRel(a))
    }

    /// Decodes the body of a PUBCOMP, as `parse_ack` says.
    pub fn pubcomp_try_from(buf: &[u8], version: MqttProtocolVersion) -> (r: Result<
        Message,
        MqttProtocolError,
    >)
        ensures
            match parse_ack(buf@, version) {
                Ok(a) => r matches Ok(Message::PubComp(b)) && b == a,
                Err(e) => r == Err::<Message, MqttProtocolError>(e),
            },
    {
        let a = PubAck::ack_try_from(buf, version)?;
        Ok(Message::PubComp(a))
    }

    /// The body of this acknowledgement, as `puback_bytes` says.
    pub fn into(self, version: MqttProtocolVersion) -> (r: Vec<u8>)
        ensures
            r@ == puback_bytes(self, version),
    {
        let mut buf: Vec<u8> = Vec::new();
        put_u16(&mut buf, self.packet_id);
        if version == MqttProtocolVersion::V5 && self.reason_code != ReturnCode::Success {
            put_u8(&mut buf, self.reason_code.code());
            put_u8(&mut buf, 0);
        }
        assert(buf@ =~= puback_bytes(self, version));
        buf
    }
}

/// A PUBREC, PUBREL or PUBCOMP reads back as written, when its reason is one that is
/// read back and can be said in `version` (before MQTT 5, only success).
pub proof fn lemma_ack_roundtrip(a: PubAck, version: MqttProtocolVersion)
    requires
        decodable(a.reason_code),
        version != MqttProtocolVersion::V5 ==> a.reason_code == ReturnCode::Success,
    ensures
        parse_ack(puback_bytes(a, version), version) == Ok::<PubAck, MqttProtocolError>(a),
{
    lemma_code_roundtrip(a.reason_code);
    let b = puback_bytes(a, version);
    assert(b.subrange(0, 2) =~= be_u16_bytes(a.packet_id));
    lemma_u16_roundtrip(b, 0, a.packet_id);
}

/// A PUBACK reads back as written, when its reason is one that is read back and can
/// be said in `version` (before MQTT 5, only success).
pub proof fn lemma_puback_roundtrip(a: PubAck, version: MqttProtocolVersion)
    requires
        decodable(a.reason_code),
        version != MqttProtocolVersion::V5 ==> a.reason_code == ReturnCode::Success,
    ensures
        parse_puback(puback_bytes(a, version), version) == Ok::<PubAck, MqttProtocolError>(a),
{
    lemma_code_roundtrip(a.reason_code);
    let b = puback_bytes(a, version);
    assert(b.subrange(0, 2) =~= be_u16_bytes(a.packet_id));
    lemma_u16_roundtrip(b, 0, a.packet_id);
}

/// What a PUBLISH encoded for a client of `version` decodes to: the encoding leaves
/// out the topic alias, the expiry and the subscription identifier, writes packet
/// identifier 0 for a missing one (and none at QoS 0), and writes user properties only
/// in MQTT 5.
pub open spec fn publish_as_sent(p: PublishView, version: MqttProtocolVersion) -> PublishView {
    PublishView {
        topic_alias: None,
        expiry_at: None,
        subscription_identifier: None,
        packet_id: if p.qos == QoS::AtMostOnce {
            None
        } else {
            Some(
                match p.packet_id {
                    Some(x) => x,
                    None => 0,
                },
            )
        },
        user_properties: if version == MqttProtocolVersion::V5 {
            p.user_properties
        } else {
            Seq::empty()
        },
        ..p
    }
}

/// Whether the user properties `us` can be encoded as written: each string at most
/// 65535 bytes, all of them within the limit of a property list.
pub open spec fn users_fit(us: Seq<(Seq<char>, Seq<char>)>) -> bool {
    &&& forall|k: int|
        0 <= k < us.len() ==> value_fits(PropValue::Pair((#[trigger] us[k]).0, us[k].1))
    &&& properties_concat(user_property_views(us)).len() < 268435456
}

proof fn lemma_user_views(us: Seq<(Seq<char>, Seq<char>)>)
    ensures
        user_pairs(user_property_views(us)) == us,
        last_value(user_property_views(us), 0x23) is None,
        last_value(user_property_views(us), 0x02) is None,
        last_value(user_property_views(us), 0x0B) is None,
    decreases us.len(),
{
    if us.len() > 0 {
        assert(user_property_views(us).drop_last() =~= user_property_views(us.drop_last()));
        lemma_user_views(us.drop_last());
        assert(us.drop_last().push(us.last()) =~= us);
    }
}

/// A PUBLISH reads back as it was sent (see `publish_as_sent`), when its topic and
/// user properties can be encoded: the body that `into` writes decodes, with the
/// fixed header's QoS, DUP and RETAIN, to the same topic, packet identifier,
/// properties and payload.
pub proof fn lemma_publish_roundtrip(p: PublishView, version: MqttProtocolVersion, now: u64)
    requires
        encode_utf8(p.topic).len() < 65536,
        version == MqttProtocolVersion::V5 ==> users_fit(p.user_properties),
    ensures
        parse_publish(publish_bytes(p, version), version, p.qos, p.dup, p.retain, now) == Ok::<
            PublishView,
            MqttProtocolError,
        >(publish_as_sent(p, version)),
{
    let s = publish_bytes(p, version);
    let tb = text_bytes(p.topic);
    let pid = packet_id_bytes(p.qos, p.packet_id);
    let props = if version == MqttProtocolVersion::V5 {
        properties_bytes(user_property_views(p.user_properties))
    } else {
        Seq::empty()
    };
    assert(s =~= tb + pid + props + p.payload);
    assert(s.subrange(0, tb.len() as int) =~= tb);
    lemma_text_roundtrip(s, 0, p.topic);
    let i = tb.len() as int;
    let j = i + pid.len();
    if p.qos != QoS::AtMostOnce {
        let id = match p.packet_id {
            Some(x) => x,
            None => 0,
        };
        assert(s.subrange(i, i + 2) =~= be_u16_bytes(id));
        lemma_u16_roundtrip(s, i, id);
    }
    if version == MqttProtocolVersion::V5 {
        let ups = user_property_views(p.user_properties);
        assert forall|k: int| 0 <= k < ups.len() implies property_wf(#[trigger] ups[k])
            && value_fits(ups[k].value) by {
            assert(value_fits(PropValue::Pair(p.user_properties[k].0, p.user_properties[k].1)));
        }
        assert(s.subrange(j, j + props.len()) =~= props);
        lemma_properties_roundtrip(s, j, ups);
        lemma_user_views(p.user_properties);
        assert(s.subrange(j + props.len(), s.len() as int) =~= p.payload);
    } else {
        assert(s.subrange(j, s.len() as int) =~= p.payload);
    }
}

} // verus!
