//! CONNECT, CONNACK and DISCONNECT.
use vstd::prelude::*;

use super::super::code::{code_of_value, code_value, ReturnCode};
use super::super::error::MqttProtocolError;
use super::super::utils::{generate_random_client_id, is_generated_id};
use super::super::{qos_of_level, version_of_code, MqttProtocolVersion, QoS};
use super::message::Message;
use super::property::{
    binary_of, byte_of, four_of, lemma_take_step, last_value, pair_views, parse_properties,
    properties_bytes, put_properties, text_of, try_from_properties, two_of, user_pairs, views,
    PropValue, Property, PropertyUser, PropertyView,
};
use super::publish::{PublishOptions, PublishOptionsView};
use crate::topic::opt_chars;
use super::text::{field_at, read_text_lossy, utf8_lossy};
use super::wire::{be_u16_at, be_u32_at, copy_bytes, put_u8, read_u16, read_u32, read_u8};
use super::will::{Will, WillOptions, WillView};
use crate::config::MqttSettings;

verus! {

/// What a client asks of its session.
#[derive(Clone, Copy, PartialEq, Eq, Structural, Debug)]
pub struct ConnectOptions {
    pub session_expiry_interval: u32,
    pub packet_maximum: u32,
    pub topic_alias_maximum: u16,
    pub inflight_maximum: u16,
}

/// A CONNECT packet.
pub struct Connect {
    pub version: MqttProtocolVersion,
    pub keep_alive: u16,
    pub generate_client_id: bool,
    pub clean_start: bool,
    pub client_id: String,
    pub username: Option<String>,
    pub password: Option<String>,
    pub will: Option<Will>,
    pub options: ConnectOptions,
}

/// A DISCONNECT packet.
#[derive(Clone, Copy, PartialEq, Eq, Structural, Debug)]
pub struct Disconnect {
    pub reason: ReturnCode,
    pub session_expiry_interval: Option<u32>,
}

/// What the broker tells a client of its session (MQTT 5).
#[derive(Clone, Copy, PartialEq, Eq, Structural, Debug)]
pub struct ConnAckOptions {
    pub topic_alias_maximum: u16,
    pub session_expiry_interval: u32,
}

/// A CONNACK packet.
pub struct ConnAck {
    pub session_present: bool,
    pub return_code: ReturnCode,
    pub generated_client_id: Option<String>,
    pub options: ConnAckOptions,
}

/// The body of a DISCONNECT: nothing before MQTT 5, the reason code in MQTT 5.
pub open spec fn disconnect_bytes(d: Disconnect, v: MqttProtocolVersion) -> Seq<u8> {
    if v == MqttProtocolVersion::V5 {
        seq![code_value(d.reason)]
    } else {
        Seq::empty()
    }
}

/// The session expiry interval a DISCONNECT asks for: its last one, at most what the
/// settings allow.
pub open spec fn capped_expiry(ps: Seq<PropertyView>, st: MqttSettings) -> Option<u32> {
    match four_of(last_value(ps, 0x11)) {
        Some(v) => Some(
            if v <= st.session_expiry_interval {
                v
            } else {
                st.session_expiry_interval
            },
        ),
        None => None,
    }
}

/// Decodes the body of a DISCONNECT. Before MQTT 5 it is empty and the reason is
/// success. In MQTT 5 a reason code and a property list must follow.
pub open spec fn parse_disconnect(
    s: Seq<u8>,
    version: MqttProtocolVersion,
    st: MqttSettings,
) -> Result<Disconnect, MqttProtocolError> {
    if version != MqttProtocolVersion::V5 {
        Ok(Disconnect { reason: ReturnCode::Success, session_expiry_interval: None })
    } else if s.len() < 1 {
        Err(MqttProtocolError::Disconnect)
    } else {
        match code_of_value(s[0]) {
            None => Err(MqttProtocolError::InvalidReturnCode(s[0])),
            Some(c) => match parse_properties(s, 1) {
                Err(e) => Err(e),
                Ok((ps, _)) => Ok(
                    Disconnect { reason: c, session_expiry_interval: capped_expiry(ps, st) },
                ),
            },
        }
    }
}

impl Disconnect {
    /// A DISCONNECT with reason `reason`.
    pub fn new(reason: ReturnCode) -> (r: Self)
        ensures
            r == (Disconnect { reason, session_expiry_interval: None }),
    {
        Disconnect { reason, session_expiry_interval: None }
    }

    /// The body of this DISCONNECT, as `disconnect_bytes` says.
    pub fn into(self, version: MqttProtocolVersion) -> (r: Vec<u8>)
        ensures
            r@ == disconnect_bytes(self, version),
    {
        let mut buf: Vec<u8> = Vec::new();
        if version != MqttProtocolVersion::V5 {
            return buf;
        }
        put_u8(&mut buf, self.reason.code());
        assert(buf@ =~= disconnect_bytes(self, version));
        buf
    }

    /// Decodes the body of a DISCONNECT, as `parse_disconnect` says.
    pub fn disconnect_try_from(
        buf: &[u8],
        version: MqttProtocolVersion,
        settings: &MqttSettings,
    ) -> (r: Result<Message, MqttProtocolError>)
        ensures
            match parse_disconnect(buf@, version, *settings) {
                Ok(d) => r matches Ok(Message::Disconnect(e)) && e == d,
                Err(e) => r == Err::<Message, MqttProtocolError>(e),
            },
    {
        if version != MqttProtocolVersion::V5 {
            return Ok(
                Message::Disconnect(
                    Disconnect { reason: ReturnCode::Success, session_expiry_interval: None },
                ),
            );
        }
        let (reason, p) = read_u8(buf, 0)?;
        let reason = ReturnCode::try_from_u8(reason)?;
        let (props, _) = try_from_properties(buf, p)?;
        let ghost ps = views(props@);
        let mut session_expiry_interval: Option<u32> = None;
        let mut idx: usize = 0;
        while idx < props.len()
            invariant
                idx <= props@.len(),
                ps == views(props@),
                session_expiry_interval == capped_expiry(ps.take(idx as int), *settings),
            decreases props.len() - idx,
        {
            proof {
                super::property::lemma_take_step(ps, idx as int);
            }
            if let Property::SessionExpiryInterval(v) = &props[idx] {
                if *v <= settings.session_expiry_interval {
                    session_expiry_interval = Some(*v);
                } else {
                    session_expiry_interval = Some(settings.session_expiry_interval);
                }
            }
            idx = idx + 1;
        }
        assert(ps.take(props@.len() as int) =~= ps);
        Ok(Message::Disconnect(Disconnect { reason, session_expiry_interval }))
    }
}

impl ConnAckOptions {
    /// These options with topic alias maximum `v`.
    pub fn with_topic_alias_maximum(self, v: u16) -> (r: Self)
        ensures
            r == (ConnAckOptions { topic_alias_maximum: v, ..self }),
    {
        ConnAckOptions { topic_alias_maximum: v, ..self }
    }

    /// These options with session expiry interval `v`.
    pub fn with_session_expiry_interval(self, v: u32) -> (r: Self)
        ensures
            r == (ConnAckOptions { session_expiry_interval: v, ..self }),
    {
        ConnAckOptions { session_expiry_interval: v, ..self }
    }
}

impl Default for ConnAckOptions {
    fn default() -> (r: Self)
        ensures
            r == (ConnAckOptions { topic_alias_maximum: 0, session_expiry_interval: 0 }),
    {
        ConnAckOptions { topic_alias_maximum: 0, session_expiry_interval: 0 }
    }
}

/// A CONNACK packet as plain values.
pub struct ConnAckView {
    pub session_present: bool,
    pub return_code: ReturnCode,
    pub generated_client_id: Option<Seq<char>>,
    pub options: ConnAckOptions,
}

impl View for ConnAck {
    type V = ConnAckView;

    open spec fn view(&self) -> ConnAckView {
        ConnAckView {
            session_present: self.session_present,
            return_code: self.return_code,
            generated_client_id: match self.generated_client_id {
                Some(s) => Some(s@),
                None => None,
            },
            options: self.options,
        }
    }
}

/// The properties of an MQTT 5 CONNACK: what the broker grants and supports, and the
/// client identifier it made up, if it made one.
pub open spec fn connack_properties(a: ConnAckView, st: MqttSettings) -> Seq<PropertyView> {
    seq![
        PropertyView { code: 0x11, value: PropValue::Four(a.options.session_expiry_interval) },
        PropertyView { code: 0x13, value: PropValue::Two(st.keep_alive) },
        PropertyView { code: 0x21, value: PropValue::Two(st.max_receive_queue) },
        PropertyView { code: 0x22, value: PropValue::Two(a.options.topic_alias_maximum) },
        PropertyView { code: 0x25, value: PropValue::Byte(1) },
        PropertyView { code: 0x28, value: PropValue::Byte(1) },
        PropertyView { code: 0x29, value: PropValue::Byte(1) },
        PropertyView { code: 0x2A, value: PropValue::Byte(1) },
        PropertyView { code: 0x27, value: PropValue::Four(st.max_packet_size) },
        PropertyView { code: 0x24, value: PropValue::Byte(2) },
    ] + match a.generated_client_id {
        Some(id) => seq![PropertyView { code: 0x12, value: PropValue::Text(id) }],
        None => Seq::empty(),
    }
}

/// The body of a CONNACK: the session present flag, the return code, and for MQTT 5
/// the properties that `connack_properties` lists.
pub open spec fn connack_bytes(a: ConnAckView, v: MqttProtocolVersion, st: MqttSettings) -> Seq<
    u8,
> {
    seq![
        if a.session_present {
            1u8
        } else {
            0u8
        },
        code_value(a.return_code),
    ] + if v == MqttProtocolVersion::V5 {
        properties_bytes(connack_properties(a, st))
    } else {
        Seq::empty()
    }
}

impl ConnAck {
    /// A CONNACK with default options.
    pub fn new(session_present: bool, return_code: ReturnCode, generated_client_id: Option<String>) -> (r: Self)
        ensures
            r.session_present == session_present,
            r.return_code == return_code,
            r.generated_client_id == generated_client_id,
            r.options == (ConnAckOptions { topic_alias_maximum: 0, session_expiry_interval: 0 }),
    {
        ConnAck {
            session_present,
            return_code,
            generated_client_id,
            options: ConnAckOptions::default(),
        }
    }

    /// This CONNACK granting topic alias maximum `v`.
    pub fn with_topic_alias_maximum(self, v: u16) -> (r: Self)
        ensures
            r@ == (ConnAckView {
                options: ConnAckOptions { topic_alias_maximum: v, ..self@.options },
                ..self@
            }),
    {
        let options = self.options.with_topic_alias_maximum(v);
        ConnAck { options, ..self }
    }

    /// This CONNACK granting session expiry interval `v`.
    pub fn with_session_expiry_interval(self, v: u32) -> (r: Self)
        ensures
            r@ == (ConnAckView {
                options: ConnAckOptions { session_expiry_interval: v, ..self@.options },
                ..self@
            }),
    {
        let options = self.options.with_session_expiry_interval(v);
        ConnAck { options, ..self }
    }

    /// The body of this CONNACK under `settings`, as `connack_bytes` says.
    pub fn into(self, version: MqttProtocolVersion, settings: &MqttSettings) -> (r: Vec<u8>)
        ensures
            r@ == connack_bytes(self@, version, *settings),
    {
        let mut buf: Vec<u8> = Vec::new();
        let sp: u8 = if self.session_present {
            1
        } else {
            0
        };
        put_u8(&mut buf, sp);
        put_u8(&mut buf, self.return_code.code());
        if version == MqttProtocolVersion::V5 {
            let ghost a = self@;
            let mut properties: Vec<Property> = Vec::new();
            properties.push(Property::SessionExpiryInterval(self.options.session_expiry_interval));
            properties.push(Property::ServerKeepAlive(settings.keep_alive));
            properties.push(Property::ReceiveMaximum(settings.max_receive_queue));
            properties.push(Property::TopicAliasMaximum(self.options.topic_alias_maximum));
            properties.push(Property::RetainAvailable(1));
            properties.push(Property::WildcardSubscriptionAvailable(1));
            properties.push(Property::SubscriptionIdentifierAvailable(1));
            properties.push(Property::SharedSubscriptionAvailable(1));
            properties.push(Property::MaximumPacketSize(settings.max_packet_size));
            properties.push(Property::MaximumQoS(2));
            if let Some(client_id) = self.generated_client_id {
                properties.push(Property::AssignedClientIdentifier(client_id));
            }
            assert(views(properties@) =~= connack_properties(a, *settings));
            put_properties(&mut buf, &properties);
        }
        assert(buf@ =~= connack_bytes(self@, version, *settings));
        buf
    }
}

/// The options a session starts from: no session expiry and no topic aliases, the
/// in-flight window and packet size that the settings allow.
pub open spec fn default_connect_options(st: MqttSettings) -> ConnectOptions {
    ConnectOptions {
        session_expiry_interval: 0,
        inflight_maximum: st.max_receive_queue,
        packet_maximum: st.max_packet_size,
        topic_alias_maximum: 0,
    }
}

impl ConnectOptions {
    /// The options a session starts from under `settings`.
    pub fn default(settings: &MqttSettings) -> (r: Self)
        ensures
            r == default_connect_options(*settings),
    {
        ConnectOptions {
            session_expiry_interval: 0,
            inflight_maximum: settings.max_receive_queue,
            packet_maximum: settings.max_packet_size,
            topic_alias_maximum: 0,
        }
    }
}

/// What one CONNECT property does to the options: a session expiry interval is taken
/// when the settings allow it; a maximum packet size or receive maximum is taken when
/// it is smaller than what stands (or nothing stands); a topic alias maximum is taken
/// up to what the settings allow. Other properties change nothing.
pub open spec fn connect_options_step(o: ConnectOptions, p: PropertyView, st: MqttSettings) -> ConnectOptions {
    match p.value {
        PropValue::Four(v) => if p.code == 0x11 {
            if v <= st.session_expiry_interval {
                ConnectOptions { session_expiry_interval: v, ..o }
            } else {
                o
            }
        } else if p.code == 0x27 {
            if o.packet_maximum == 0 || v < o.packet_maximum {
                ConnectOptions { packet_maximum: v, ..o }
            } else {
                o
            }
        } else {
            o
        },
        PropValue::Two(v) => if p.code == 0x21 {
            if o.inflight_maximum == 0 || v < o.inflight_maximum {
                ConnectOptions { inflight_maximum: v, ..o }
            } else {
                o
            }
        } else if p.code == 0x22 {
            ConnectOptions {
                topic_alias_maximum: if v <= st.topic_alias_maximum {
                    v
                } else {
                    st.topic_alias_maximum
                },
                ..o
            }
        } else {
            o
        },
        _ => o,
    }
}

/// The options after the CONNECT properties `ps`, one after the other.
pub open spec fn connect_options_fold(ps: Seq<PropertyView>, init: ConnectOptions, st: MqttSettings) -> ConnectOptions
    decreases ps.len(),
{
    if ps.len() == 0 {
        init
    } else {
        connect_options_step(connect_options_fold(ps.drop_last(), init, st), ps.last(), st)
    }
}

/// The fixed part of a CONNECT body.
#[derive(Clone, Copy, PartialEq, Eq, Structural, Debug)]
pub struct ConnectHead {
    pub version: MqttProtocolVersion,
    pub flag: u8,
    pub will_qos: QoS,
    pub keep_alive: u16,
}

/// Decodes the fixed part of a CONNECT body: the protocol name "MQTT" led by its
/// length 4 (`InvalidProtocolName`), the protocol level 3, 4 or 5
/// (`InvalidProtocolVersion`), the flags, whose will QoS must be 0, 1 or 2
/// (`InvalidQoS`), and the keep alive.
pub open spec fn parse_connect_head(s: Seq<u8>) -> Result<ConnectHead, MqttProtocolError> {
    if s.len() < 2 {
        Err(MqttProtocolError::Disconnect)
    } else if be_u16_at(s, 0) != 4 {
        Err(MqttProtocolError::InvalidProtocolName)
    } else if s.len() < 6 {
        Err(MqttProtocolError::Disconnect)
    } else if be_u32_at(s, 2) != 0x4d515454 {
        Err(MqttProtocolError::InvalidProtocolName)
    } else if s.len() < 7 {
        Err(MqttProtocolError::Disconnect)
    } else {
        match version_of_code(s[6]) {
            None => Err(MqttProtocolError::InvalidProtocolVersion),
            Some(v) => if s.len() < 8 {
                Err(MqttProtocolError::Disconnect)
            } else {
                match qos_of_level((s[7] / 8) % 4) {
                    None => Err(MqttProtocolError::InvalidQoS),
                    Some(q) => if s.len() < 10 {
                        Err(MqttProtocolError::Disconnect)
                    } else {
                        Ok(ConnectHead { version: v, flag: s[7], will_qos: q, keep_alive: be_u16_at(s, 8) })
                    },
                }
            },
        }
    }
}

/// The will that a CONNECT gives, with the will properties `wps` (the last of each
/// counts).
pub open spec fn will_view_of(
    topic: Seq<char>,
    payload: Seq<u8>,
    qos: QoS,
    retain: bool,
    wps: Seq<PropertyView>,
) -> WillView {
    WillView {
        topic,
        payload,
        qos,
        retain,
        user_properties: user_pairs(wps),
        will_delay_interval: four_of(last_value(wps, 0x18)),
        options: PublishOptionsView {
            expiry: four_of(last_value(wps, 0x02)),
            expiry_at: None,
            topic_alias: two_of(last_value(wps, 0x23)),
            payload_format_indicator: byte_of(last_value(wps, 0x01)),
            content_type: text_of(last_value(wps, 0x03)),
            response_topic: text_of(last_value(wps, 0x08)),
            correlation_data: binary_of(last_value(wps, 0x09)),
            subscription_identifier: None,
        },
    }
}

/// Decodes the will topic and will message at `p`, when the will flag is set. The
/// will message is taken by the length before it; `None` stands for a will message
/// longer than the rest of the packet, on which decoding panics.
pub open spec fn parse_will(
    s: Seq<u8>,
    p: int,
    h: ConnectHead,
    wps: Seq<PropertyView>,
) -> Option<Result<(Option<WillView>, int), MqttProtocolError>> {
    if (h.flag / 4) % 2 != 1 {
        Some(Ok((None, p)))
    } else {
        match field_at(s, p) {
            None => Some(Err(MqttProtocolError::Disconnect)),
            Some((tb, q)) => if q + 2 > s.len() {
                Some(Err(MqttProtocolError::Disconnect))
            } else {
                let n = be_u16_at(s, q) as int;
                if q + 2 + n > s.len() {
                    None
                } else {
                    Some(
                        Ok(
                            (
                                Some(
                                    will_view_of(
                                        utf8_lossy(tb),
                                        s.subrange(q + 2, q + 2 + n),
                                        h.will_qos,
                                        (h.flag / 32) % 2 == 1,
                                        wps,
                                    ),
                                ),
                                q + 2 + n,
                            ),
                        ),
                    )
                }
            },
        }
    }
}

/// Decodes the user name and the password at `p`, each when its flag is set.
pub open spec fn parse_credentials(s: Seq<u8>, p: int, flag: u8) -> Result<
    (Option<Seq<char>>, Option<Seq<char>>),
    MqttProtocolError,
> {
    let user: Result<(Option<Seq<char>>, int), MqttProtocolError> = if flag >= 128 {
        match field_at(s, p) {
            None => Err(MqttProtocolError::Disconnect),
            Some((ub, q)) => Ok((Some(utf8_lossy(ub)), q)),
        }
    } else {
        Ok((None, p))
    };
    match user {
        Err(e) => Err(e),
        Ok((username, q)) => if (flag / 64) % 2 == 1 {
            match field_at(s, q) {
                None => Err(MqttProtocolError::Disconnect),
                Some((pb, _)) => Ok((username, Some(utf8_lossy(pb)))),
            }
        } else {
            Ok((username, None))
        },
    }
}

/// A CONNECT packet as plain values.
pub struct ConnectView {
    pub version: MqttProtocolVersion,
    pub keep_alive: u16,
    pub generate_client_id: bool,
    pub clean_start: bool,
    pub client_id: Seq<char>,
    pub username: Option<Seq<char>>,
    pub password: Option<Seq<char>>,
    pub will: Option<WillView>,
    pub options: ConnectOptions,
}

impl View for Connect {
    type V = ConnectView;

    open spec fn view(&self) -> ConnectView {
        ConnectView {
            version: self.version,
            keep_alive: self.keep_alive,
            generate_client_id: self.generate_client_id,
            clean_start: self.clean_start,
            client_id: self.client_id@,
            username: opt_chars(self.username),
            password: opt_chars(self.password),
            will: match self.will {
                Some(w) => Some(w@),
                None => None,
            },
            options: self.options,
        }
    }
}

/// Decodes the body of a CONNECT under `st`, keeping the client identifier as it
/// came: the fixed part, for MQTT 5 the properties, the client identifier, for MQTT 5
/// with a will the will properties, the will, the user name, the password. Strings
/// have invalid UTF-8 replaced. `None` stands for the input on which decoding panics
/// (a will message longer than the rest of the packet).
pub open spec fn parse_connect(s: Seq<u8>, st: MqttSettings) -> Option<
    Result<ConnectView, MqttProtocolError>,
> {
    match parse_connect_head(s) {
        Err(e) => Some(Err(e)),
        Ok(h) => {
            let props = if h.version == MqttProtocolVersion::V5 {
                parse_properties(s, 10)
            } else {
                Ok((Seq::empty(), 10))
            };
            match props {
                Err(e) => Some(Err(e)),
                Ok((ps, p1)) => match field_at(s, p1) {
                    None => Some(Err(MqttProtocolError::Disconnect)),
                    Some((cb, p2)) => {
                        let wprops = if h.version == MqttProtocolVersion::V5 && (h.flag / 4) % 2
                            == 1 {
                            parse_properties(s, p2)
                        } else {
                            Ok((Seq::empty(), p2))
                        };
                        match wprops {
                            Err(e) => Some(Err(e)),
                            Ok((wps, p3)) => match parse_will(s, p3, h, wps) {
                                None => None,
                                Some(Err(e)) => Some(Err(e)),
                                Some(Ok((will, p5))) => match parse_credentials(s, p5, h.flag) {
                                    Err(e) => Some(Err(e)),
                                    Ok((username, password)) => Some(
                                        Ok(
                                            ConnectView {
                                                version: h.version,
                                                keep_alive: h.keep_alive,
                                                generate_client_id: false,
                                                clean_start: (h.flag / 2) % 2 == 1,
                                                client_id: utf8_lossy(cb),
                                                username,
                                                password,
                                                will,
                                                options: connect_options_fold(
                                                    ps,
                                                    default_connect_options(st),
                                                    st,
                                                ),
                                            },
                                        ),
                                    ),
                                },
                            },
                        }
                    },
                }
            }
        },
    }
}

/// Whether `r` is what decoding a CONNECT should give when it gives `spec`: an empty
/// client identifier is replaced by one the broker makes up, and then the session
/// starts clean.
pub open spec fn connect_outcome(
    r: Result<Message, MqttProtocolError>,
    spec: Result<ConnectView, MqttProtocolError>,
) -> bool {
    match spec {
        Err(e) => r == Err::<Message, MqttProtocolError>(e),
        Ok(cv) => r matches Ok(Message::Connect(c)) && if cv.client_id.len() == 0 {
            c@ == ConnectView {
                clean_start: true,
                generate_client_id: true,
                client_id: c@.client_id,
                ..cv
            } && is_generated_id(c@.client_id)
        } else {
            c@ == cv
        },
    }
}

/// The bits of a CONNECT flags byte: will QoS, will flag, clean start, will retain,
/// password flag, user name flag.
fn connect_flag_bits(f: u8) -> (r: (u8, bool, bool, bool, bool, bool))
    ensures
        r.0 == (f / 8) % 4,
        r.1 == ((f / 4) % 2 == 1),
        r.2 == ((f / 2) % 2 == 1),
        r.3 == ((f / 32) % 2 == 1),
        r.4 == ((f / 64) % 2 == 1),
        r.5 == (f >= 128),
{
    assert((f & 0x18) >> 3 == (f / 8) % 4) by (bit_vector);
    assert(((f & 0x04) >> 2 == 1) == ((f / 4) % 2 == 1)) by (bit_vector);
    assert(((f & 0x02) >> 1 == 1) == ((f / 2) % 2 == 1)) by (bit_vector);
    assert(((f & 0x20) >> 5 == 1) == ((f / 32) % 2 == 1)) by (bit_vector);
    assert(((f & 0x40) >> 6 == 1) == ((f / 64) % 2 == 1)) by (bit_vector);
    assert(((f & 0x80) >> 7 == 1) == (f >= 128)) by (bit_vector);
    (
        (f & 0x18) >> 3,
        (f & 0x04) >> 2 == 1,
        (f & 0x02) >> 1 == 1,
        (f & 0x20) >> 5 == 1,
        (f & 0x40) >> 6 == 1,
        (f & 0x80) >> 7 == 1,
    )
}

/// Decodes the fixed part of a CONNECT body, as `parse_connect_head` says.
fn read_connect_head(buf: &[u8]) -> (r: Result<ConnectHead, MqttProtocolError>)
    ensures
        r == parse_connect_head(buf@),
{
    let (proto_name_len, _) = read_u16(buf, 0)?;
    if proto_name_len != 4 {
        return Err(MqttProtocolError::InvalidProtocolName);
    }
    let (proto_name, _) = read_u32(buf, 2)?;
    if proto_name != 0x4d515454 {
        return Err(MqttProtocolError::InvalidProtocolName);
    }
    let (proto_version, _) = read_u8(buf, 6)?;
    let version = MqttProtocolVersion::try_from_u8(proto_version)?;
    let (flag, _) = read_u8(buf, 7)?;
    let bits = connect_flag_bits(flag);
    let will_qos = QoS::try_from_u8(bits.0)?;
    let (keep_alive, _) = read_u16(buf, 8)?;
    Ok(ConnectHead { version, flag, will_qos, keep_alive })
}

/// The options after the CONNECT properties `props`, as `connect_options_fold` says.
fn connect_options_from(props: &Vec<Property>, settings: &MqttSettings) -> (r: ConnectOptions)
    ensures
        r == connect_options_fold(views(props@), default_connect_options(*settings), *settings),
{
    let ghost ps = views(props@);
    let mut options = ConnectOptions::default(settings);
    let mut idx: usize = 0;
    while idx < props.len()
        invariant
            idx <= props@.len(),
            ps == views(props@),
            options == connect_options_fold(
                ps.take(idx as int),
                default_connect_options(*settings),
                *settings,
            ),
        decreases props.len() - idx,
    {
        proof {
            lemma_take_step(ps, idx as int);
        }
        match &props[idx] {
            Property::SessionExpiryInterval(v) => {
                if *v <= settings.session_expiry_interval {
                    options.session_expiry_interval = *v;
                }
            },
            Property::MaximumPacketSize(v) => {
                if options.packet_maximum == 0 || *v < options.packet_maximum {
                    options.packet_maximum = *v;
                }
            },
            Property::ReceiveMaximum(v) => {
                if options.inflight_maximum == 0 || *v < options.inflight_maximum {
                    options.inflight_maximum = *v;
                }
            },
            Property::TopicAliasMaximum(v) => {
                if *v <= settings.topic_alias_maximum {
                    options.topic_alias_maximum = *v;
                } else {
                    options.topic_alias_maximum = settings.topic_alias_maximum;
                }
            },
            _ => {},
        }
        idx = idx + 1;
    }
    assert(ps.take(props@.len() as int) =~= ps);
    options
}

/// The will options and user properties that the will properties `props` give.
fn will_options_from(props: &Vec<Property>) -> (r: (WillOptions, Vec<PropertyUser>))
    ensures
        r.0.options@ == will_view_of(Seq::empty(), Seq::empty(), QoS::AtMostOnce, false, views(props@)).options,
        r.0.will_delay_interval == four_of(last_value(views(props@), 0x18)),
        pair_views(r.1@) == user_pairs(views(props@)),
{
    let ghost ps = views(props@);
    let mut will_options = WillOptions::default();
    let mut users: Vec<PropertyUser> = Vec::new();
    let mut idx: usize = 0;
    while idx < props.len()
        invariant
            idx <= props@.len(),
            ps == views(props@),
            will_options.options@ == will_view_of(
                Seq::empty(),
                Seq::empty(),
                QoS::AtMostOnce,
                false,
                ps.take(idx as int),
            ).options,
            will_options.will_delay_interval == four_of(last_value(ps.take(idx as int), 0x18)),
            pair_views(users@) == user_pairs(ps.take(idx as int)),
        decreases props.len() - idx,
    {
        proof {
            lemma_take_step(ps, idx as int);
        }
        let ghost before = users@;
        match &props[idx] {
            Property::WillDelayInterval(v) => {
                will_options.will_delay_interval = Some(*v);
            },
            Property::MessageExpiryInterval(v) => {
                will_options.options.expiry = Some(*v);
            },
            Property::TopicAlias(v) => {
                will_options.options.topic_alias = Some(*v);
            },
            Property::PayloadFormatIndicator(v) => {
                will_options.options.payload_format_indicator = Some(*v);
            },
            Property::ContentType(v) => {
                will_options.options.content_type = Some(v.clone());
            },
            Property::ResponseTopic(v) => {
                will_options.options.response_topic = Some(v.clone());
            },
            Property::CorrelationData(v) => {
                will_options.options.correlation_data = Some(copy_bytes(v.as_slice()));
            },
            Property::UserProperty(v) => {
                users.push(v.clone());
                assert(pair_views(users@) =~= pair_views(before).push(v@));
            },
            _ => {},
        }
        idx = idx + 1;
    }
    assert(ps.take(props@.len() as int) =~= ps);
    (will_options, users)
}

impl Connect {
    /// Decodes the body of a CONNECT under `settings`, as `parse_connect` says,
    /// keeping the client identifier as it came; `None` where `parse_connect` gives
    /// `None`.
    pub fn parse_body(buf: &[u8], settings: &MqttSettings) -> (r: Option<
        Result<Connect, MqttProtocolError>,
    >)
        ensures
            match parse_connect(buf@, *settings) {
                None => r is None,
                Some(Err(e)) => r == Some(Err::<Connect, MqttProtocolError>(e)),
                Some(Ok(cv)) => r matches Some(Ok(c)) && c@ == cv,
            },
    {
        let head = match read_connect_head(buf) {
            Ok(h) => h,
            Err(e) => return Some(Err(e)),
        };
        let bits = connect_flag_bits(head.flag);
        let will_flag = bits.1;
        let clean_session = bits.2;
        let will_retain = bits.3;
        let pass_flag = bits.4;
        let user_flag = bits.5;
        let (props, p1) = if head.version == MqttProtocolVersion::V5 {
            match try_from_properties(buf, 10) {
                Ok(x) => x,
                Err(e) => return Some(Err(e)),
            }
        } else {
            (Vec::new(), 10)
        };
        let options = connect_options_from(&props, settings);
        let (client_id, p2) = match read_text_lossy(buf, p1) {
            Ok(x) => x,
            Err(e) => return Some(Err(e)),
        };
        let (wprops, p3) = if head.version == MqttProtocolVersion::V5 && will_flag {
            match try_from_properties(buf, p2) {
                Ok(x) => x,
                Err(e) => return Some(Err(e)),
            }
        } else {
            (Vec::new(), p2)
        };
        let (will, p5) = if will_flag {
            let (will_topic, q) = match read_text_lossy(buf, p3) {
                Ok(x) => x,
                Err(e) => return Some(Err(e)),
            };
            let (will_message_len, q2) = match read_u16(buf, q) {
                Ok(x) => x,
                Err(e) => return Some(Err(e)),
            };
            let n = will_message_len as usize;
            if n > buf.len() - q2 {
                return None;
            }
            let payload = copy_bytes(super::wire::slice_range(buf, q2, q2 + n));
            let (will_options, will_user_properties) = will_options_from(&wprops);
            (
                Some(
                    Will {
                        retain: will_retain,
                        qos: head.will_qos,
                        topic: will_topic,
                        payload,
                        user_properties: will_user_properties,
                        options: will_options,
                    },
                ),
                q2 + n,
            )
        } else {
            (None, p3)
        };
        let (username, p6) = if user_flag {
            match read_text_lossy(buf, p5) {
                Ok((u, q)) => (Some(u), q),
                Err(e) => return Some(Err(e)),
            }
        } else {
            (None, p5)
        };
        let password = if pass_flag {
            match read_text_lossy(buf, p6) {
                Ok((w, _)) => Some(w),
                Err(e) => return Some(Err(e)),
            }
        } else {
            None
        };
        Some(
            Ok(
                Connect {
                    version: head.version,
                    keep_alive: head.keep_alive,
                    clean_start: clean_session,
                    client_id,
                    username,
                    password,
                    will,
                    generate_client_id: false,
                    options,
                },
            ),
        )
    }

    /// Whether decoding `buf` as the body of a CONNECT panics: a will message longer
    /// than the rest of the packet.
    pub fn body_panics(buf: &[u8], settings: &MqttSettings) -> (r: bool)
        ensures
            r == parse_connect(buf@, *settings) is None,
    {
        Connect::parse_body(buf, settings).is_none()
    }

    /// Decodes the body of a CONNECT under `settings`, as `connect_outcome` says of
    /// `parse_connect`.
    pub fn connect_try_from(buf: &[u8], settings: &MqttSettings) -> (r: Result<
        Message,
        MqttProtocolError,
    >)
        requires
            parse_connect(buf@, *settings) is Some,
        ensures
            connect_outcome(r, parse_connect(buf@, *settings)->Some_0),
    {
        match Connect::parse_body(buf, settings) {
            None => Err(MqttProtocolError::InternalError),
            Some(Err(e)) => Err(e),
            Some(Ok(c)) => {
                if c.client_id.as_str().is_empty() {
                    let generated = generate_random_client_id();
                    Ok(
                        Message::Connect(
                            Connect {
                                clean_start: true,
                                generate_client_id: true,
                                client_id: generated,
                                ..c
                            },
                        ),
                    )
                } else {
                    Ok(Message::Connect(c))
                }
            },
        }
    }
}

} // verus!
