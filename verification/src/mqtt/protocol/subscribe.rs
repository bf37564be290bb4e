//! SUBSCRIBE, UNSUBSCRIBE and their acknowledgements.
use vstd::prelude::*;

use super::super::code::{code_value, ReturnCode};
use super::super::error::MqttProtocolError;
use super::super::{qos_of_level, MqttProtocolVersion, QoS};
use super::message::Message;
use super::property::{last_value, parse_properties, try_from_properties, var_of, views, Property};
use super::text::{field_at, read_text_lossy, utf8_lossy};
use super::wire::{be_u16_at, be_u16_bytes, put_u16, put_u8, read_u16, read_u8};

verus! {

/// What a subscription asks for.
#[derive(Clone, Copy, PartialEq, Eq, Structural, Debug)]
pub struct SubscribeOption {
    pub qos: QoS,
    pub no_local: bool,
    pub retain_as_published: bool,
    pub retain_handling: u8,
    pub subscription_identifier: Option<u32>,
}

/// A SUBSCRIBE packet.
pub struct Subscribe {
    pub packet_id: u16,
    pub topics: Vec<(String, SubscribeOption)>,
}

/// A SUBACK packet.
pub struct SubAck {
    pub packet_id: u16,
    pub return_codes: Vec<ReturnCode>,
}

/// An UNSUBSCRIBE packet.
pub struct Unsubscribe {
    pub packet_id: u16,
    pub topics: Vec<String>,
}

/// An UNSUBACK packet.
pub struct UnsubAck {
    pub packet_id: u16,
    pub return_codes: Vec<ReturnCode>,
}

/// The views of topic filters with their options.
pub open spec fn sub_views(v: Seq<(String, SubscribeOption)>) -> Seq<(Seq<char>, SubscribeOption)> {
    v.map_values(|e: (String, SubscribeOption)| (e.0@, e.1))
}

/// A SUBSCRIBE packet as plain values.
pub struct SubscribeView {
    pub packet_id: u16,
    pub topics: Seq<(Seq<char>, SubscribeOption)>,
}

impl View for Subscribe {
    type V = SubscribeView;

    open spec fn view(&self) -> SubscribeView {
        SubscribeView {
            packet_id: self.packet_id,
            topics: sub_views(self.topics@),
        }
    }
}

/// An UNSUBSCRIBE packet as plain values.
pub struct UnsubscribeView {
    pub packet_id: u16,
    pub topics: Seq<Seq<char>>,
}

impl View for Unsubscribe {
    type V = UnsubscribeView;

    open spec fn view(&self) -> UnsubscribeView {
        UnsubscribeView { packet_id: self.packet_id, topics: self.topics@.map_values(|t: String| t@) }
    }
}

/// The options of a subscription from its options byte. Before MQTT 5 only the
/// quality of service is read from it.
pub open spec fn subscribe_option_of(
    o: u8,
    q: QoS,
    version: MqttProtocolVersion,
    sid: Option<u32>,
) -> SubscribeOption {
    if version == MqttProtocolVersion::V5 {
        SubscribeOption {
            qos: q,
            no_local: (o / 4) % 2 == 1,
            retain_as_published: (o / 8) % 2 == 1,
            retain_handling: ((o / 16) % 4) as u8,
            subscription_identifier: sid,
        }
    } else {
        SubscribeOption {
            qos: q,
            no_local: false,
            retain_as_published: false,
            retain_handling: 0,
            subscription_identifier: sid,
        }
    }
}

/// Decodes the topic filters of a SUBSCRIBE from `i` to the end: each a string field
/// (invalid UTF-8 replaced) and an options byte whose quality of service must be 0, 1
/// or 2 (`InvalidQoS`) and whose retain handling must be at most 2 (`MalformedPayload`).
pub open spec fn parse_sub_entries(
    s: Seq<u8>,
    i: int,
    version: MqttProtocolVersion,
    sid: Option<u32>,
) -> Result<Seq<(Seq<char>, SubscribeOption)>, MqttProtocolError>
    decreases s.len() - i,
{
    if i < 0 || i >= s.len() {
        Ok(Seq::empty())
    } else {
        match field_at(s, i) {
            None => Err(MqttProtocolError::Disconnect),
            Some((tb, j)) => if j >= s.len() {
                Err(MqttProtocolError::Disconnect)
            } else {
                match qos_of_level(s[j] % 4) {
                    None => Err(MqttProtocolError::InvalidQoS),
                    Some(q) => {
                        let opt = subscribe_option_of(s[j], q, version, sid);
                        if opt.retain_handling > 2 {
                            Err(MqttProtocolError::MalformedPayload)
                        } else {
                            match parse_sub_entries(s, j + 1, version, sid) {
                                Ok(rest) => Ok(seq![(utf8_lossy(tb), opt)] + rest),
                                Err(e) => Err(e),
                            }
                        }
                    },
                }
            },
        }
    }
}

/// Decodes the body of a SUBSCRIBE: the packet identifier, for MQTT 5 a property list
/// (its last subscription identifier goes to every filter), then the topic filters.
pub open spec fn parse_subscribe(s: Seq<u8>, version: MqttProtocolVersion) -> Result<
    SubscribeView,
    MqttProtocolError,
> {
    if s.len() < 2 {
        Err(MqttProtocolError::Disconnect)
    } else if version == MqttProtocolVersion::V5 {
        match parse_properties(s, 2) {
            Err(e) => Err(e),
            Ok((ps, k)) => match parse_sub_entries(s, k, version, var_of(last_value(ps, 0x0B))) {
                Ok(t) => Ok(SubscribeView { packet_id: be_u16_at(s, 0), topics: t }),
                Err(e) => Err(e),
            },
        }
    } else {
        match parse_sub_entries(s, 2, version, None) {
            Ok(t) => Ok(SubscribeView { packet_id: be_u16_at(s, 0), topics: t }),
            Err(e) => Err(e),
        }
    }
}

/// Decodes the topic filters of an UNSUBSCRIBE from `i` to the end, each a string
/// field (invalid UTF-8 replaced).
pub open spec fn parse_unsub_entries(s: Seq<u8>, i: int) -> Result<
    Seq<Seq<char>>,
    MqttProtocolError,
>
    decreases s.len() - i,
{
    if i < 0 || i >= s.len() {
        Ok(Seq::empty())
    } else {
        match field_at(s, i) {
            None => Err(MqttProtocolError::Disconnect),
            Some((tb, j)) => if j <= i {
                Err(MqttProtocolError::Disconnect)
            } else {
                match parse_unsub_entries(s, j) {
                    Ok(rest) => Ok(seq![utf8_lossy(tb)] + rest),
                    Err(e) => Err(e),
                }
            },
        }
    }
}

/// Decodes the body of an UNSUBSCRIBE: the packet identifier, for MQTT 5 a property
/// list that must decode and is dropped, then the topic filters.
pub open spec fn parse_unsubscribe(s: Seq<u8>, version: MqttProtocolVersion) -> Result<
    UnsubscribeView,
    MqttProtocolError,
> {
    if s.len() < 2 {
        Err(MqttProtocolError::Disconnect)
    } else {
        let start = if version == MqttProtocolVersion::V5 {
            parse_properties(s, 2)
        } else {
            Ok((Seq::empty(), 2))
        };
        match start {
            Err(e) => Err(e),
            Ok((_, k)) => match parse_unsub_entries(s, k) {
                Ok(t) => Ok(UnsubscribeView { packet_id: be_u16_at(s, 0), topics: t }),
                Err(e) => Err(e),
            },
        }
    }
}

/// The body of a SUBACK or UNSUBACK: the packet identifier, for MQTT 5 an empty
/// property list, then a byte for each return code.
pub open spec fn ack_codes_bytes(
    packet_id: u16,
    codes: Seq<ReturnCode>,
    v: MqttProtocolVersion,
) -> Seq<u8> {
    be_u16_bytes(packet_id) + (if v == MqttProtocolVersion::V5 {
        seq![0u8]
    } else {
        Seq::empty()
    }) + codes.map_values(|c: ReturnCode| code_value(c))
}

/// Appends a byte for each return code.
fn put_codes(out: &mut Vec<u8>, codes: &Vec<ReturnCode>)
    ensures
        final(out)@ == old(out)@ + codes@.map_values(|c: ReturnCode| code_value(c)),
{
    let mut k: usize = 0;
    while k < codes.len()
        invariant
            k <= codes@.len(),
            out@ == old(out)@ + codes@.subrange(0, k as int).map_values(
                |c: ReturnCode| code_value(c),
            ),
        decreases codes.len() - k,
    {
        put_u8(out, codes[k].code());
        assert(codes@.subrange(0, k + 1).map_values(|c: ReturnCode| code_value(c))
            =~= codes@.subrange(0, k as int).map_values(|c: ReturnCode| code_value(c)).push(
            code_value(codes@[k as int]),
        ));
        k = k + 1;
    }
    assert(codes@.subrange(0, codes@.len() as int) =~= codes@);
}

/// The bits of an options byte, as `subscribe_option_of` reads them.
fn option_bits(o: u8) -> (r: (u8, bool, bool, u8))
    ensures
        r.0 == o % 4,
        r.1 == ((o / 4) % 2 == 1),
        r.2 == ((o / 8) % 2 == 1),
        r.3 == (o / 16) % 4,
{
    assert(o & 0x03 == o % 4) by (bit_vector);
    assert(((o & 0x04) >> 2 == 1) == ((o / 4) % 2 == 1)) by (bit_vector);
    assert(((o & 0x08) >> 3 == 1) == ((o / 8) % 2 == 1)) by (bit_vector);
    assert((o & 0x30) >> 4 == (o / 16) % 4) by (bit_vector);
    (o & 0x03, (o & 0x04) >> 2 == 1, (o & 0x08) >> 3 == 1, (o & 0x30) >> 4)
}

/// Decodes the topic filter at `pos`, the first step of `parse_sub_entries`.
fn read_sub_entry(
    buf: &[u8],
    pos: usize,
    version: MqttProtocolVersion,
    sid: Option<u32>,
) -> (r: Result<((String, SubscribeOption), usize), MqttProtocolError>)
    requires
        pos < buf@.len(),
    ensures
        match r {
            Ok((e, q)) => pos < q <= buf@.len() && parse_sub_entries(buf@, pos as int, version, sid)
                == match parse_sub_entries(buf@, q as int, version, sid) {
                Ok(rest) => Ok(seq![(e.0@, e.1)] + rest),
                Err(x) => Err(x),
            },
            Err(x) => parse_sub_entries(buf@, pos as int, version, sid) == Err::<
                Seq<(Seq<char>, SubscribeOption)>,
                MqttProtocolError,
            >(x),
        },
{
    let (topic, j) = read_text_lossy(buf, pos)?;
    let (options, q) = read_u8(buf, j)?;
    let (level, no_local, retain_as_published, retain_handling) = option_bits(options);
    let qos = QoS::try_from_u8(level)?;
    let option = if version == MqttProtocolVersion::V5 {
        SubscribeOption {
            qos,
            no_local,
            retain_as_published,
            retain_handling,
            subscription_identifier: sid,
        }
    } else {
        SubscribeOption {
            qos,
            no_local: false,
            retain_as_published: false,
            retain_handling: 0,
            subscription_identifier: sid,
        }
    };
    if option.retain_handling > 2 {
        return Err(MqttProtocolError::MalformedPayload);
    }
    Ok(((topic, option), q))
}

/// Decodes the topic filter at `pos`, the first step of `parse_unsub_entries`.
fn read_unsub_entry(buf: &[u8], pos: usize) -> (r: Result<(String, usize), MqttProtocolError>)
    requires
        pos < buf@.len(),
    ensures
        match r {
            Ok((t, q)) => pos < q <= buf@.len() && parse_unsub_entries(buf@, pos as int)
                == match parse_unsub_entries(buf@, q as int) {
                Ok(rest) => Ok(seq![t@] + rest),
                Err(x) => Err(x),
            },
            Err(x) => parse_unsub_entries(buf@, pos as int) == Err::<
                Seq<Seq<char>>,
                MqttProtocolError,
            >(x),
        },
{
    read_text_lossy(buf, pos)
}

impl Subscribe {
    /// Decodes the body of a SUBSCRIBE, as `parse_subscribe` says.
    pub fn subscribe_try_from(buf: &[u8], version: MqttProtocolVersion) -> (r: Result<
        Message,
        MqttProtocolError,
    >)
        ensures
            match parse_subscribe(buf@, version) {
                Ok(sv) => r matches Ok(Message::Subscribe(sub)) && sub@ == sv,
                Err(e) => r == Err::<Message, MqttProtocolError>(e),
            },
    {
        let (packet_id, p) = read_u16(buf, 0)?;
        let mut subscription_identifier: Option<u32> = None;
        let mut pos = p;
        if version == MqttProtocolVersion::V5 {
            let (props, k) = try_from_properties(buf, p)?;
            let ghost ps = views(props@);
            let mut idx: usize = 0;
            while idx < props.len()
                invariant
                    idx <= props@.len(),
                    ps == views(props@),
                    subscription_identifier == var_of(last_value(ps.take(idx as int), 0x0B)),
                decreases props.len() - idx,
            {
                proof {
                    super::property::lemma_take_step(ps, idx as int);
                }
                if let Property::SubscriptionIdentifier(id) = &props[idx] {
                    subscription_identifier = Some(*id);
                }
                idx = idx + 1;
            }
            assert(ps.take(props@.len() as int) =~= ps);
            pos = k;
        }
        let ghost start = pos;
        let mut topics: Vec<(String, SubscribeOption)> = Vec::new();
        while pos < buf.len()
            invariant
                start <= pos <= buf@.len(),
                parse_subscribe(buf@, version) == match parse_sub_entries(
                    buf@,
                    start as int,
                    version,
                    subscription_identifier,
                ) {
                    Ok(t) => Ok(SubscribeView { packet_id, topics: t }),
                    Err(e) => Err(e),
                },
                parse_sub_entries(buf@, start as int, version, subscription_identifier) == match parse_sub_entries(
                    buf@,
                    pos as int,
                    version,
                    subscription_identifier,
                ) {
                    Ok(rest) => Ok(
                        sub_views(topics@) + rest,
                    ),
                    Err(e) => Err(e),
                },
            decreases buf@.len() - pos,
        {
            let ((topic, option), q) = read_sub_entry(buf, pos, version, subscription_identifier)?;
            let ghost before = sub_views(topics@);
            let ghost entry = (topic@, option);
            topics.push((topic, option));
            proof {
                assert(sub_views(topics@) =~= before.push(entry));
                match parse_sub_entries(buf@, q as int, version, subscription_identifier) {
                    Ok(rest) => {
                        assert(before + (seq![entry] + rest) =~= before.push(entry) + rest);
                    },
                    Err(_) => {},
                }
            }
            pos = q;
        }
        assert(sub_views(topics@) + Seq::<(Seq<char>, SubscribeOption)>::empty()
            =~= sub_views(topics@));
        Ok(Message::Subscribe(Subscribe { packet_id, topics }))
    }
}

impl Unsubscribe {
    /// Decodes the body of an UNSUBSCRIBE, as `parse_unsubscribe` says.
    pub fn unsubscribe_try_from(buf: &[u8], version: MqttProtocolVersion) -> (r: Result<
        Message,
        MqttProtocolError,
    >)
        ensures
            match parse_unsubscribe(buf@, version) {
                Ok(uv) => r matches Ok(Message::Unsubscribe(u)) && u@ == uv,
                Err(e) => r == Err::<Message, MqttProtocolError>(e),
            },
    {
        let (packet_id, p) = read_u16(buf, 0)?;
        let mut pos = p;
        if version == MqttProtocolVersion::V5 {
            let (_, k) = try_from_properties(buf, p)?;
            pos = k;
        }
        let ghost start = pos;
        let mut topics: Vec<String> = Vec::new();
        while pos < buf.len()
            invariant
                start <= pos <= buf@.len(),
                parse_unsubscribe(buf@, version) == match parse_unsub_entries(buf@, start as int) {
                    Ok(t) => Ok(UnsubscribeView { packet_id, topics: t }),
                    Err(e) => Err(e),
                },
                parse_unsub_entries(buf@, start as int) == match parse_unsub_entries(
                    buf@,
                    pos as int,
                ) {
                    Ok(rest) => Ok(topics@.map_values(|t: String| t@) + rest),
                    Err(e) => Err(e),
                },
            decreases buf@.len() - pos,
        {
            let (topic, j) = read_unsub_entry(buf, pos)?;
            let ghost before = topics@.map_values(|t: String| t@);
            let ghost entry = topic@;
            topics.push(topic);
            proof {
                assert(topics@.map_values(|t: String| t@) =~= before.push(entry));
                match parse_unsub_entries(buf@, j as int) {
                    Ok(rest) => {
                        assert(before + (seq![entry] + rest) =~= before.push(entry) + rest);
                    },
                    Err(_) => {},
                }
            }
            pos = j;
        }
        assert(topics@.map_values(|t: String| t@) + Seq::<Seq<char>>::empty() =~= topics@.map_values(
            |t: String| t@,
        ));
        Ok(Message::Unsubscribe(Unsubscribe { packet_id, topics }))
    }
}

impl SubAck {
    /// A SUBACK for packet `packet_id` with a return code for each topic filter.
    pub fn new(packet_id: u16, return_codes: Vec<ReturnCode>) -> (r: Self)
        ensures
            r.packet_id == packet_id,
            r.return_codes@ == return_codes@,
    {
        SubAck { packet_id, return_codes }
    }

    /// The body of this SUBACK, as `ack_codes_bytes` says.
    pub fn into(self, version: MqttProtocolVersion) -> (r: Vec<u8>)
        ensures
            r@ == ack_codes_bytes(self.packet_id, self.return_codes@, version),
    {
        let mut buf: Vec<u8> = Vec::new();
        put_u16(&mut buf, self.packet_id);
        if version == MqttProtocolVersion::V5 {
            put_u8(&mut buf, 0);
        }
        put_codes(&mut buf, &self.return_codes);
        assert(buf@ =~= ack_codes_bytes(self.packet_id, self.return_codes@, version));
        buf
    }
}

impl UnsubAck {
    /// An UNSUBACK for packet `packet_id` with a return code for each topic filter.
    pub fn new(packet_id: u16, return_codes: Vec<ReturnCode>) -> (r: Self)
        ensures
            r.packet_id == packet_id,
            r.return_codes@ == return_codes@,
    {
        UnsubAck { packet_id, return_codes }
    }

    /// The body of this UNSUBACK, as `ack_codes_bytes` says.
    pub fn into(self, version: MqttProtocolVersion) -> (r: Vec<u8>)
        ensures
            r@ == ack_codes_bytes(self.packet_id, self.return_codes@, version),
    {
        let mut buf: Vec<u8> = Vec::new();
        put_u16(&mut buf, self.packet_id);
        if version == MqttProtocolVersion::V5 {
            put_u8(&mut buf, 0);
        }
        put_codes(&mut buf, &self.return_codes);
        assert(buf@ =~= ack_codes_bytes(self.packet_id, self.return_codes@, version));
        buf
    }
}

} // verus!
