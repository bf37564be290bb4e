//! MQTT 5 properties: what each one is called on the wire, how its value is
//! encoded, and the property lists of CONNECT, PUBLISH and the other packets.
use vstd::prelude::*;
use vstd::utf8::*;

use super::super::error::MqttProtocolError;
use super::text::{
    field_at, field_bytes, lemma_field_roundtrip, lemma_text_roundtrip, put_binary, put_text,
    read_binary, read_text, text_bytes, utf8_text,
};
use super::wire::{
    be_u16_at, be_u16_bytes, be_u32_at, be_u32_bytes, decode_length, decode_vbi, encode_length,
    encode_vbi, lemma_length_roundtrip, lemma_u16_roundtrip, lemma_u32_roundtrip,
    lemma_sub_subrange, lemma_vbi_roundtrip, put_length, put_slice, put_u16, put_u32, put_u8, put_vbi, read_length,
    read_u16, read_u32, read_u8, read_vbi,
};

verus! {

/// A user property: a pair of strings.
pub struct PropertyUser {
    pub key: String,
    pub value: String,
}

impl Clone for PropertyUser {
    fn clone(&self) -> (r: Self)
        ensures
            r@ == self@,
    {
        PropertyUser { key: self.key.clone(), value: self.value.clone() }
    }
}

impl View for PropertyUser {
    type V = (Seq<char>, Seq<char>);

    open spec fn view(&self) -> (Seq<char>, Seq<char>) {
        (self.key@, self.value@)
    }
}

impl Default for PropertyUser {
    fn default() -> (r: Self)
        ensures
            r@ == (Seq::<char>::empty(), Seq::<char>::empty()),
    {
        PropertyUser { key: String::new(), value: String::new() }
    }
}

/// The views of a sequence of user properties.
pub open spec fn pair_views(v: Seq<PropertyUser>) -> Seq<(Seq<char>, Seq<char>)> {
    v.map_values(|u: PropertyUser| u@)
}

/// A fresh copy of a list of user properties.
pub fn clone_users(v: &Vec<PropertyUser>) -> (r: Vec<PropertyUser>)
    ensures
        pair_views(r@) == pair_views(v@),
{
    let mut out: Vec<PropertyUser> = Vec::new();
    let mut k: usize = 0;
    while k < v.len()
        invariant
            k <= v@.len(),
            out@.len() == k,
            pair_views(out@) == pair_views(v@.subrange(0, k as int)),
        decreases v.len() - k,
    {
        let ghost before = out@;
        let c = v[k].clone();
        assert(c@ == v@[k as int]@);
        out.push(c);
        assert(out@.len() == k + 1);
        assert(before.len() == k);
        assert forall|j: int| 0 <= j < out@.len() implies pair_views(out@)[j] == pair_views(
            v@.subrange(0, k + 1),
        )[j] by {
            if j < k {
                assert(out@[j] == before[j]);
                assert(pair_views(before)[j] == pair_views(v@.subrange(0, k as int))[j]);
            } else {
                assert(out@[j] == c);
            }
        }
        assert(pair_views(out@) =~= pair_views(v@.subrange(0, k + 1)));
        k = k + 1;
    }
    assert(v@.subrange(0, v@.len() as int) =~= v@);
    out
}

/// A property of an MQTT 5 packet.
pub enum Property {
    ReasonString(String),
    ServerReference(String),
    ResponseInformation(String),
    RequestResponseInformation(u8),
    RequestProblemInformation(u8),
    AuthenticationMethod(String),
    AuthenticationData(Vec<u8>),
    ResponseTopic(String),
    CorrelationData(Vec<u8>),
    PayloadFormatIndicator(u8),
    ContentType(String),
    ServerKeepAlive(u16),
    AssignedClientIdentifier(String),
    SubscriptionIdentifier(u32),
    SessionExpiryInterval(u32),
    MessageExpiryInterval(u32),
    WillDelayInterval(u32),
    ReceiveMaximum(u16),
    TopicAliasMaximum(u16),
    TopicAlias(u16),
    MaximumQoS(u8),
    RetainAvailable(u8),
    MaximumPacketSize(u32),
    WildcardSubscriptionAvailable(u8),
    SubscriptionIdentifierAvailable(u8),
    SharedSubscriptionAvailable(u8),
    UserProperty(PropertyUser),
}

/// The value of a property, by the way it is encoded.
pub enum PropValue {
    /// one byte
    Byte(u8),
    /// two bytes, big-endian
    Two(u16),
    /// four bytes, big-endian
    Four(u32),
    /// a variable byte integer
    Var(u32),
    /// a UTF-8 string field
    Text(Seq<char>),
    /// a binary field
    Binary(Seq<u8>),
    /// two UTF-8 string fields
    Pair(Seq<char>, Seq<char>),
}

/// How the value of a property is encoded.
pub enum PropKind {
    Byte,
    Two,
    Four,
    Var,
    Text,
    Binary,
    Pair,
}

/// A property as its identifier byte and its value.
pub struct PropertyView {
    pub code: u8,
    pub value: PropValue,
}

/// The encoding of a value.
pub open spec fn kind_of(v: PropValue) -> PropKind {
    match v {
        PropValue::Byte(_) => PropKind::Byte,
        PropValue::Two(_) => PropKind::Two,
        PropValue::Four(_) => PropKind::Four,
        PropValue::Var(_) => PropKind::Var,
        PropValue::Text(_) => PropKind::Text,
        PropValue::Binary(_) => PropKind::Binary,
        PropValue::Pair(_, _) => PropKind::Pair,
    }
}

/// The encoding of the value of the property with identifier `c`, for the
/// identifiers that MQTT 5 defines.
pub open spec fn kind_of_code(c: u8) -> Option<PropKind> {
    if c == 0x01 || c == 0x17 || c == 0x19 || c == 0x24 || c == 0x25 || c == 0x28 || c == 0x29
        || c == 0x2A {
        Some(PropKind::Byte)
    } else if c == 0x13 || c == 0x21 || c == 0x22 || c == 0x23 {
        Some(PropKind::Two)
    } else if c == 0x02 || c == 0x11 || c == 0x18 || c == 0x27 {
        Some(PropKind::Four)
    } else if c == 0x0B {
        Some(PropKind::Var)
    } else if c == 0x03 || c == 0x08 || c == 0x12 || c == 0x15 || c == 0x1A || c == 0x1C || c
        == 0x1F {
        Some(PropKind::Text)
    } else if c == 0x09 || c == 0x16 {
        Some(PropKind::Binary)
    } else if c == 0x26 {
        Some(PropKind::Pair)
    } else {
        None
    }
}

/// The value that a freshly named property holds: zero or empty.
pub open spec fn zero_value(k: PropKind) -> PropValue {
    match k {
        PropKind::Byte => PropValue::Byte(0),
        PropKind::Two => PropValue::Two(0),
        PropKind::Four => PropValue::Four(0),
        PropKind::Var => PropValue::Var(0),
        PropKind::Text => PropValue::Text(Seq::empty()),
        PropKind::Binary => PropValue::Binary(Seq::empty()),
        PropKind::Pair => PropValue::Pair(Seq::empty(), Seq::empty()),
    }
}

/// A property whose value is encoded as its identifier says.
pub open spec fn property_wf(p: PropertyView) -> bool {
    kind_of_code(p.code) == Some(kind_of(p.value))
}

/// The bytes of a value.
pub open spec fn value_bytes(v: PropValue) -> Seq<u8> {
    match v {
        PropValue::Byte(b) => seq![b],
        PropValue::Two(x) => be_u16_bytes(x),
        PropValue::Four(x) => be_u32_bytes(x),
        PropValue::Var(x) => encode_vbi(x as nat),
        PropValue::Text(t) => text_bytes(t),
        PropValue::Binary(b) => field_bytes(b),
        PropValue::Pair(k, w) => text_bytes(k) + text_bytes(w),
    }
}

/// The bytes of a property: its identifier, then its value.
pub open spec fn property_bytes(p: PropertyView) -> Seq<u8> {
    seq![p.code] + value_bytes(p.value)
}

/// A value that reads back as written: strings and binary data of at most 65535
/// bytes, variable byte integers below 2^28.
pub open spec fn value_fits(v: PropValue) -> bool {
    match v {
        PropValue::Var(x) => x < 268435456,
        PropValue::Text(t) => encode_utf8(t).len() < 65536,
        PropValue::Binary(b) => b.len() < 65536,
        PropValue::Pair(k, w) => encode_utf8(k).len() < 65536 && encode_utf8(w).len() < 65536,
        _ => true,
    }
}

/// Decodes a value of kind `k` at `i`: `Disconnect` when the packet ends first,
/// `InvalidProperty` for a string that is not UTF-8, `MalformedPayload` for a variable
/// byte integer longer than four bytes.
pub open spec fn parse_value(k: PropKind, s: Seq<u8>, i: int) -> Result<
    (PropValue, int),
    MqttProtocolError,
> {
    match k {
        PropKind::Byte => if i < s.len() {
            Ok((PropValue::Byte(s[i]), i + 1))
        } else {
            Err(MqttProtocolError::Disconnect)
        },
        PropKind::Two => if i + 2 <= s.len() {
            Ok((PropValue::Two(be_u16_at(s, i)), i + 2))
        } else {
            Err(MqttProtocolError::Disconnect)
        },
        PropKind::Four => if i + 4 <= s.len() {
            Ok((PropValue::Four(be_u32_at(s, i)), i + 4))
        } else {
            Err(MqttProtocolError::Disconnect)
        },
        PropKind::Var => match decode_vbi(s, i) {
            Ok((x, n)) => Ok((PropValue::Var(x), i + n)),
            Err(e) => Err(e),
        },
        PropKind::Text => match field_at(s, i) {
            None => Err(MqttProtocolError::Disconnect),
            Some((b, j)) => match utf8_text(b) {
                Some(t) => Ok((PropValue::Text(t), j)),
                None => Err(MqttProtocolError::InvalidProperty),
            },
        },
        PropKind::Binary => match field_at(s, i) {
            None => Err(MqttProtocolError::Disconnect),
            Some((b, j)) => Ok((PropValue::Binary(b), j)),
        },
        PropKind::Pair => match field_at(s, i) {
            None => Err(MqttProtocolError::Disconnect),
            Some((b, j)) => match utf8_text(b) {
                None => Err(MqttProtocolError::InvalidProperty),
                Some(key) => match field_at(s, j) {
                    None => Err(MqttProtocolError::Disconnect),
                    Some((c, l)) => match utf8_text(c) {
                        Some(w) => Ok((PropValue::Pair(key, w), l)),
                        None => Err(MqttProtocolError::InvalidProperty),
                    },
                },
            },
        },
    }
}

/// Decodes the property at `i`: its identifier byte, then a value encoded as the
/// identifier says. An identifier that MQTT 5 does not define is `InvalidProperty`.
#[verifier::opaque]
pub open spec fn parse_property(s: Seq<u8>, i: int) -> Result<
    (PropertyView, int),
    MqttProtocolError,
> {
    if i < 0 || i >= s.len() {
        Err(MqttProtocolError::Disconnect)
    } else {
        match kind_of_code(s[i]) {
            None => Err(MqttProtocolError::InvalidProperty),
            Some(k) => match parse_value(k, s, i + 1) {
                Ok((v, j)) => Ok((PropertyView { code: s[i], value: v }, j)),
                Err(e) => Err(e),
            },
        }
    }
}

impl View for Property {
    type V = PropertyView;

    open spec fn view(&self) -> PropertyView {
        match self {
            Property::PayloadFormatIndicator(v) => PropertyView { code: 0x01, value: PropValue::Byte(*v) },
            Property::MessageExpiryInterval(v) => PropertyView { code: 0x02, value: PropValue::Four(*v) },
            Property::ContentType(v) => PropertyView { code: 0x03, value: PropValue::Text(v@) },
            Property::ResponseTopic(v) => PropertyView { code: 0x08, value: PropValue::Text(v@) },
            Property::CorrelationData(v) => PropertyView { code: 0x09, value: PropValue::Binary(v@) },
            Property::SubscriptionIdentifier(v) => PropertyView { code: 0x0B, value: PropValue::Var(*v) },
            Property::SessionExpiryInterval(v) => PropertyView { code: 0x11, value: PropValue::Four(*v) },
            Property::AssignedClientIdentifier(v) => PropertyView { code: 0x12, value: PropValue::Text(v@) },
            Property::ServerKeepAlive(v) => PropertyView { code: 0x13, value: PropValue::Two(*v) },
            Property::AuthenticationMethod(v) => PropertyView { code: 0x15, value: PropValue::Text(v@) },
            Property::AuthenticationData(v) => PropertyView { code: 0x16, value: PropValue::Binary(v@) },
            Property::RequestProblemInformation(v) => PropertyView { code: 0x17, value: PropValue::Byte(*v) },
            Property::WillDelayInterval(v) => PropertyView { code: 0x18, value: PropValue::Four(*v) },
            Property::RequestResponseInformation(v) => PropertyView { code: 0x19, value: PropValue::Byte(*v) },
            Property::ResponseInformation(v) => PropertyView { code: 0x1A, value: PropValue::Text(v@) },
            Property::ServerReference(v) => PropertyView { code: 0x1C, value: PropValue::Text(v@) },
            Property::ReasonString(v) => PropertyView { code: 0x1F, value: PropValue::Text(v@) },
            Property::ReceiveMaximum(v) => PropertyView { code: 0x21, value: PropValue::Two(*v) },
            Property::TopicAliasMaximum(v) => PropertyView { code: 0x22, value: PropValue::Two(*v) },
            Property::TopicAlias(v) => PropertyView { code: 0x23, value: PropValue::Two(*v) },
            Property::MaximumQoS(v) => PropertyView { code: 0x24, value: PropValue::Byte(*v) },
            Property::RetainAvailable(v) => PropertyView { code: 0x25, value: PropValue::Byte(*v) },
            Property::UserProperty(p) => PropertyView { code: 0x26, value: PropValue::Pair(p.key@, p.value@) },
            Property::MaximumPacketSize(v) => PropertyView { code: 0x27, value: PropValue::Four(*v) },
            Property::WildcardSubscriptionAvailable(v) => PropertyView { code: 0x28, value: PropValue::Byte(*v) },
            Property::SubscriptionIdentifierAvailable(v) => PropertyView { code: 0x29, value: PropValue::Byte(*v) },
            Property::SharedSubscriptionAvailable(v) => PropertyView { code: 0x2A, value: PropValue::Byte(*v) },
        }
    }
}

impl Property {
    /// Every property is encoded as its identifier says.
    pub proof fn lemma_wf(&self)
        ensures
            property_wf(self@),
    {
    }

    /// The identifier byte of this property.
    pub fn code(&self) -> (r: u8)
        ensures
            r == self@.code,
    {
        match self {
            Property::PayloadFormatIndicator(_) => 0x01,
            Property::MessageExpiryInterval(_) => 0x02,
            Property::ContentType(_) => 0x03,
            Property::ResponseTopic(_) => 0x08,
            Property::CorrelationData(_) => 0x09,
            Property::SubscriptionIdentifier(_) => 0x0B,
            Property::SessionExpiryInterval(_) => 0x11,
            Property::AssignedClientIdentifier(_) => 0x12,
            Property::ServerKeepAlive(_) => 0x13,
            Property::AuthenticationMethod(_) => 0x15,
            Property::AuthenticationData(_) => 0x16,
            Property::RequestProblemInformation(_) => 0x17,
            Property::WillDelayInterval(_) => 0x18,
            Property::RequestResponseInformation(_) => 0x19,
            Property::ResponseInformation(_) => 0x1A,
            Property::ServerReference(_) => 0x1C,
            Property::ReasonString(_) => 0x1F,
            Property::ReceiveMaximum(_) => 0x21,
            Property::TopicAliasMaximum(_) => 0x22,
            Property::TopicAlias(_) => 0x23,
            Property::MaximumQoS(_) => 0x24,
            Property::RetainAvailable(_) => 0x25,
            Property::UserProperty(_) => 0x26,
            Property::MaximumPacketSize(_) => 0x27,
            Property::WildcardSubscriptionAvailable(_) => 0x28,
            Property::SubscriptionIdentifierAvailable(_) => 0x29,
            Property::SharedSubscriptionAvailable(_) => 0x2A,
        }
    }
}

impl Property {
    /// A property of identifier `code` that holds zero or nothing; identifiers that
    /// MQTT 5 does not define are `InvalidProperty`.
    pub fn try_from_code(code: u8) -> (r: Result<Property, MqttProtocolError>)
        ensures
            match kind_of_code(code) {
                Some(k) => r matches Ok(p) && p@ == PropertyView { code, value: zero_value(k) },
                None => r == Err::<Property, MqttProtocolError>(MqttProtocolError::InvalidProperty),
            },
    {
        match code {
            0x01 => Ok(Property::PayloadFormatIndicator(0)),
            0x02 => Ok(Property::MessageExpiryInterval(0)),
            0x03 => Ok(Property::ContentType(String::new())),
            0x08 => Ok(Property::ResponseTopic(String::new())),
            0x09 => Ok(Property::CorrelationData(Vec::new())),
            0x0B => Ok(Property::SubscriptionIdentifier(0)),
            0x11 => Ok(Property::SessionExpiryInterval(0)),
            0x12 => Ok(Property::AssignedClientIdentifier(String::new())),
            0x13 => Ok(Property::ServerKeepAlive(0)),
            0x15 => Ok(Property::AuthenticationMethod(String::new())),
            0x16 => Ok(Property::AuthenticationData(Vec::new())),
            0x17 => Ok(Property::RequestProblemInformation(0)),
            0x18 => Ok(Property::WillDelayInterval(0)),
            0x19 => Ok(Property::RequestResponseInformation(0)),
            0x1A => Ok(Property::ResponseInformation(String::new())),
            0x1C => Ok(Property::ServerReference(String::new())),
            0x1F => Ok(Property::ReasonString(String::new())),
            0x21 => Ok(Property::ReceiveMaximum(0)),
            0x22 => Ok(Property::TopicAliasMaximum(0)),
            0x23 => Ok(Property::TopicAlias(0)),
            0x24 => Ok(Property::MaximumQoS(0)),
            0x25 => Ok(Property::RetainAvailable(0)),
            0x26 => Ok(Property::UserProperty(PropertyUser::default())),
            0x27 => Ok(Property::MaximumPacketSize(0)),
            0x28 => Ok(Property::WildcardSubscriptionAvailable(0)),
            0x29 => Ok(Property::SubscriptionIdentifierAvailable(0)),
            0x2A => Ok(Property::SharedSubscriptionAvailable(0)),
            _ => Err(MqttProtocolError::InvalidProperty),
        }
    }

    /// The bytes of this property: its identifier, then its value.
    pub fn into_bytes(&self) -> (r: Vec<u8>)
        ensures
            r@ == property_bytes(self@),
    {
        let mut buf: Vec<u8> = Vec::new();
        put_u8(&mut buf, self.code());
        match self {
            Property::PayloadFormatIndicator(v) => put_u8(&mut buf, *v),
            Property::MessageExpiryInterval(v) => put_u32(&mut buf, *v),
            Property::ContentType(v) => put_text(&mut buf, v.as_str()),
            Property::ResponseTopic(v) => put_text(&mut buf, v.as_str()),
            Property::CorrelationData(v) => put_binary(&mut buf, v.as_slice()),
            Property::SubscriptionIdentifier(v) => put_vbi(&mut buf, *v),
            Property::SessionExpiryInterval(v) => put_u32(&mut buf, *v),
            Property::AssignedClientIdentifier(v) => put_text(&mut buf, v.as_str()),
            Property::ServerKeepAlive(v) => put_u16(&mut buf, *v),
            Property::AuthenticationMethod(v) => put_text(&mut buf, v.as_str()),
            Property::AuthenticationData(v) => put_binary(&mut buf, v.as_slice()),
            Property::RequestProblemInformation(v) => put_u8(&mut buf, *v),
            Property::WillDelayInterval(v) => put_u32(&mut buf, *v),
            Property::RequestResponseInformation(v) => put_u8(&mut buf, *v),
            Property::ResponseInformation(v) => put_text(&mut buf, v.as_str()),
            Property::ServerReference(v) => put_text(&mut buf, v.as_str()),
            Property::ReasonString(v) => put_text(&mut buf, v.as_str()),
            Property::ReceiveMaximum(v) => put_u16(&mut buf, *v),
            Property::TopicAliasMaximum(v) => put_u16(&mut buf, *v),
            Property::TopicAlias(v) => put_u16(&mut buf, *v),
            Property::MaximumQoS(v) => put_u8(&mut buf, *v),
            Property::RetainAvailable(v) => put_u8(&mut buf, *v),
            Property::UserProperty(v) => {
                put_text(&mut buf, v.key.as_str());
                put_text(&mut buf, v.value.as_str());
            },
            Property::MaximumPacketSize(v) => put_u32(&mut buf, *v),
            Property::WildcardSubscriptionAvailable(v) => put_u8(&mut buf, *v),
            Property::SubscriptionIdentifierAvailable(v) => put_u8(&mut buf, *v),
            Property::SharedSubscriptionAvailable(v) => put_u8(&mut buf, *v),
        }
        assert(buf@ =~= property_bytes(self@));
        buf
    }

    /// Decodes the property at `pos`, as `parse_property` says, and the position
    /// after it.
    pub fn try_from_property(buf: &[u8], pos: usize) -> (r: Result<
        (Property, usize),
        MqttProtocolError,
    >)
        ensures
            match parse_property(buf@, pos as int) {
                Ok((p, j)) => r matches Ok((q, k)) && q@ == p && k == j,
                Err(e) => r == Err::<(Property, usize), MqttProtocolError>(e),
            },
    {
        reveal(parse_property);
        let (code, p) = read_u8(buf, pos)?;
        let property = Property::try_from_code(code)?;
        match property {
            Property::PayloadFormatIndicator(_) => {
                let (v, q) = read_u8(buf, p)?;
                Ok((Property::PayloadFormatIndicator(v), q))
            },
            Property::MessageExpiryInterval(_) => {
                let (v, q) = read_u32(buf, p)?;
                Ok((Property::MessageExpiryInterval(v), q))
            },
            Property::ContentType(_) => {
                let (v, q) = read_text(buf, p, MqttProtocolError::InvalidProperty)?;
                Ok((Property::ContentType(v), q))
            },
            Property::ResponseTopic(_) => {
                let (v, q) = read_text(buf, p, MqttProtocolError::InvalidProperty)?;
                Ok((Property::ResponseTopic(v), q))
            },
            Property::CorrelationData(_) => {
                let (v, q) = read_binary(buf, p)?;
                Ok((Property::CorrelationData(v), q))
            },
            Property::SubscriptionIdentifier(_) => {
                let (v, q) = read_vbi(buf, p)?;
                Ok((Property::SubscriptionIdentifier(v), q))
            },
            Property::SessionExpiryInterval(_) => {
                let (v, q) = read_u32(buf, p)?;
                Ok((Property::SessionExpiryInterval(v), q))
            },
            Property::AssignedClientIdentifier(_) => {
                let (v, q) = read_text(buf, p, MqttProtocolError::InvalidProperty)?;
                Ok((Property::AssignedClientIdentifier(v), q))
            },
            Property::ServerKeepAlive(_) => {
                let (v, q) = read_u16(buf, p)?;
                Ok((Property::ServerKeepAlive(v), q))
            },
            Property::AuthenticationMethod(_) => {
                let (v, q) = read_text(buf, p, MqttProtocolError::InvalidProperty)?;
                Ok((Property::AuthenticationMethod(v), q))
            },
            Property::AuthenticationData(_) => {
                let (v, q) = read_binary(buf, p)?;
                Ok((Property::AuthenticationData(v), q))
            },
            Property::RequestProblemInformation(_) => {
                let (v, q) = read_u8(buf, p)?;
                Ok((Property::RequestProblemInformation(v), q))
            },
            Property::WillDelayInterval(_) => {
                let (v, q) = read_u32(buf, p)?;
                Ok((Property::WillDelayInterval(v), q))
            },
            Property::RequestResponseInformation(_) => {
                let (v, q) = read_u8(buf, p)?;
                Ok((Property::RequestResponseInformation(v), q))
            },
            Property::ResponseInformation(_) => {
                let (v, q) = read_text(buf, p, MqttProtocolError::InvalidProperty)?;
                Ok((Property::ResponseInformation(v), q))
            },
            Property::ServerReference(_) => {
                let (v, q) = read_text(buf, p, MqttProtocolError::InvalidProperty)?;
                Ok((Property::ServerReference(v), q))
            },
            Property::ReasonString(_) => {
                let (v, q) = read_text(buf, p, MqttProtocolError::InvalidProperty)?;
                Ok((Property::ReasonString(v), q))
            },
            Property::ReceiveMaximum(_) => {
                let (v, q) = read_u16(buf, p)?;
                Ok((Property::ReceiveMaximum(v), q))
            },
            Property::TopicAliasMaximum(_) => {
                let (v, q) = read_u16(buf, p)?;
                Ok((Property::TopicAliasMaximum(v), q))
            },
            Property::TopicAlias(_) => {
                let (v, q) = read_u16(buf, p)?;
                Ok((Property::TopicAlias(v), q))
            },
            Property::MaximumQoS(_) => {
                let (v, q) = read_u8(buf, p)?;
                Ok((Property::MaximumQoS(v), q))
            },
            Property::RetainAvailable(_) => {
                let (v, q) = read_u8(buf, p)?;
                Ok((Property::RetainAvailable(v), q))
            },
            Property::UserProperty(_) => {
                let (key, q) = read_text(buf, p, MqttProtocolError::InvalidProperty)?;
                let (value, e) = read_text(buf, q, MqttProtocolError::InvalidProperty)?;
                Ok((Property::UserProperty(PropertyUser { key, value }), e))
            },
            Property::MaximumPacketSize(_) => {
                let (v, q) = read_u32(buf, p)?;
                Ok((Property::MaximumPacketSize(v), q))
            },
            Property::WildcardSubscriptionAvailable(_) => {
                let (v, q) = read_u8(buf, p)?;
                Ok((Property::WildcardSubscriptionAvailable(v), q))
            },
            Property::SubscriptionIdentifierAvailable(_) => {
                let (v, q) = read_u8(buf, p)?;
                Ok((Property::SubscriptionIdentifierAvailable(v), q))
            },
            Property::SharedSubscriptionAvailable(_) => {
                let (v, q) = read_u8(buf, p)?;
                Ok((Property::SharedSubscriptionAvailable(v), q))
            },
        }
    }
}

/// The views of a sequence of properties.
pub open spec fn views(v: Seq<Property>) -> Seq<PropertyView> {
    v.map_values(|p: Property| p@)
}

/// Decoding a property moves forward, and never past the end of the bytes.
pub proof fn lemma_parse_property_advances(s: Seq<u8>, i: int)
    ensures
        parse_property(s, i) matches Ok((_, j)) ==> i < j <= s.len(),
{
    reveal(parse_property);
}

/// Decodes properties from `i` on while the position is below `end`. A property
/// that runs past `end` is kept, and decoding stops after it.
pub open spec fn parse_property_list(s: Seq<u8>, i: int, end: int) -> Result<
    (Seq<PropertyView>, int),
    MqttProtocolError,
>
    decreases end - i,
{
    if i >= end {
        Ok((Seq::empty(), i))
    } else {
        match parse_property(s, i) {
            Err(e) => Err(e),
            Ok((p, j)) => if j >= end {
                Ok((seq![p], j))
            } else {
                proof {
                    lemma_parse_property_advances(s, i);
                }
                match parse_property_list(s, j, end) {
                    Ok((ps, k)) => Ok((seq![p] + ps, k)),
                    Err(e) => Err(e),
                }
            },
        }
    }
}

/// Decodes a property list at `i`: its length, then the properties that fill it.
pub open spec fn parse_properties(s: Seq<u8>, i: int) -> Result<
    (Seq<PropertyView>, int),
    MqttProtocolError,
> {
    match decode_length(s, i) {
        None => Err(MqttProtocolError::Disconnect),
        Some((n, k)) => parse_property_list(s, i + k, i + k + n),
    }
}

/// The bytes of properties, one after the other.
pub open spec fn properties_concat(ps: Seq<PropertyView>) -> Seq<u8>
    decreases ps.len(),
{
    if ps.len() == 0 {
        Seq::empty()
    } else {
        property_bytes(ps[0]) + properties_concat(ps.drop_first())
    }
}

/// The bytes of a property list: the length of its properties, then the properties.
pub open spec fn properties_bytes(ps: Seq<PropertyView>) -> Seq<u8> {
    encode_length(properties_concat(ps).len()) + properties_concat(ps)
}

/// `prefix` put before what a decoding gave.
pub open spec fn prepend(
    prefix: Seq<PropertyView>,
    r: Result<(Seq<PropertyView>, int), MqttProtocolError>,
) -> Result<(Seq<PropertyView>, int), MqttProtocolError> {
    match r {
        Ok((ps, k)) => Ok((prefix + ps, k)),
        Err(e) => Err(e),
    }
}

proof fn lemma_prepend_empty(r: Result<(Seq<PropertyView>, int), MqttProtocolError>)
    ensures
        prepend(Seq::empty(), r) == r,
{
    match r {
        Ok((ps, k)) => {
            assert(Seq::<PropertyView>::empty() + ps =~= ps);
        },
        Err(_) => {},
    }
}

/// A property list whose next property does not decode fails as that property does.
proof fn lemma_list_err(s: Seq<u8>, i: int, end: int)
    requires
        i < end,
        parse_property(s, i) is Err,
    ensures
        parse_property_list(s, i, end) == Err::<(Seq<PropertyView>, int), MqttProtocolError>(
            parse_property(s, i)->Err_0,
        ),
{
}

/// One step of decoding a property list: the property at `i` joins what came before.
proof fn lemma_list_step(s: Seq<u8>, i: int, end: int, prefix: Seq<PropertyView>)
    requires
        i < end,
        parse_property(s, i) is Ok,
    ensures
        prepend(prefix, parse_property_list(s, i, end)) == prepend(
            prefix + seq![parse_property(s, i)->Ok_0.0],
            parse_property_list(s, parse_property(s, i)->Ok_0.1, end),
        ),
        i < parse_property(s, i)->Ok_0.1 <= s.len(),
{
    let (p, j) = parse_property(s, i)->Ok_0;
    lemma_parse_property_advances(s, i);
    if j >= end {
        assert(prefix + seq![p] + Seq::<PropertyView>::empty() =~= prefix + seq![p]);
    } else {
        match parse_property_list(s, j, end) {
            Ok((ps, k)) => {
                assert(prefix + (seq![p] + ps) =~= prefix + seq![p] + ps);
            },
            Err(_) => {},
        }
    }
}

/// Decodes a property list at `pos`, as `parse_properties` says, and the position
/// after it.
#[verifier::rlimit(40)]
pub fn try_from_properties(buf: &[u8], pos: usize) -> (r: Result<
    (Vec<Property>, usize),
    MqttProtocolError,
>)
    ensures
        match parse_properties(buf@, pos as int) {
            Ok((ps, j)) => r matches Ok((v, k)) && views(v@) == ps && k == j,
            Err(e) => r == Err::<(Vec<Property>, usize), MqttProtocolError>(e),
        },
        r matches Ok((v, k)) ==> k <= buf@.len(),
{
    let (length, start) = read_length(buf, pos)?;
    let end: u128 = start as u128 + length as u128;
    let mut props: Vec<Property> = Vec::new();
    let mut cur = start;
    proof {
        lemma_prepend_empty(parse_property_list(buf@, start as int, end as int));
        assert(views(props@) =~= Seq::<PropertyView>::empty());
    }
    while (cur as u128) < end
        invariant
            start <= cur <= buf@.len(),
            end == start + length,
            parse_properties(buf@, pos as int) == parse_property_list(
                buf@,
                start as int,
                end as int,
            ),
            parse_property_list(buf@, start as int, end as int) == prepend(
                views(props@),
                parse_property_list(buf@, cur as int, end as int),
            ),
        decreases buf@.len() - cur,
    {
        let ghost before = views(props@);
        let (prop, next) = match Property::try_from_property(buf, cur) {
            Ok(x) => x,
            Err(e) => {
                proof {
                    lemma_list_err(buf@, cur as int, end as int);
                }
                return Err(e);
            },
        };
        proof {
            lemma_list_step(buf@, cur as int, end as int, before);
            assert(next == parse_property(buf@, cur as int)->Ok_0.1);
            assert(next > cur);
        }
        props.push(prop);
        assert(views(props@) =~= before + seq![prop@]);
        cur = next;
    }
    assert(views(props@) + Seq::<PropertyView>::empty() =~= views(props@));
    Ok((props, cur))
}

/// Appends a property list that holds `props`.
pub fn put_properties(out: &mut Vec<u8>, props: &Vec<Property>)
    ensures
        final(out)@ == old(out)@ + properties_bytes(views(props@)),
{
    let mut bytes: Vec<u8> = Vec::new();
    let mut k: usize = 0;
    assert(views(props@).subrange(0, props@.len() as int) =~= views(props@));
    assert(bytes@ + properties_concat(views(props@)) =~= properties_concat(views(props@)));
    while k < props.len()
        invariant
            k <= props@.len(),
            bytes@ + properties_concat(views(props@).subrange(k as int, props@.len() as int))
                == properties_concat(views(props@)),
        decreases props.len() - k,
    {
        let ghost rest = views(props@).subrange(k as int, props@.len() as int);
        let pb = props[k].into_bytes();
        let ghost before = bytes@;
        put_slice(&mut bytes, pb.as_slice());
        assert(rest.drop_first() =~= views(props@).subrange(k + 1, props@.len() as int));
        assert(before + properties_concat(rest) =~= bytes@ + properties_concat(rest.drop_first()));
        k = k + 1;
    }
    assert(views(props@).subrange(props@.len() as int, props@.len() as int) =~= Seq::<PropertyView>::empty());
    assert(bytes@ + Seq::<u8>::empty() =~= bytes@);
    put_length(out, bytes.len());
    put_slice(out, bytes.as_slice());
    assert(out@ =~= old(out)@ + properties_bytes(views(props@)));
}

/// A property that fits reads back as written, wherever it stands.
pub proof fn lemma_property_roundtrip(s: Seq<u8>, i: int, p: PropertyView)
    requires
        property_wf(p),
        value_fits(p.value),
        0 <= i,
        i + property_bytes(p).len() <= s.len(),
        s.subrange(i, i + property_bytes(p).len()) == property_bytes(p),
    ensures
        parse_property(s, i) == Ok::<(PropertyView, int), MqttProtocolError>(
            (p, i + property_bytes(p).len()),
        ),
{
    reveal(parse_property);
    let pb = property_bytes(p);
    let vb = value_bytes(p.value);
    let n = pb.len() as int;
    assert(s[i] == pb[0]);
    lemma_sub_subrange(s, i, i + n, 1, n);
    assert(pb.subrange(1, n) =~= vb);
    match p.value {
        PropValue::Byte(b) => {
            assert(s[i + 1] == vb[0]);
        },
        PropValue::Two(x) => {
            lemma_u16_roundtrip(s, i + 1, x);
        },
        PropValue::Four(x) => {
            lemma_u32_roundtrip(s, i + 1, x);
        },
        PropValue::Var(x) => {
            lemma_vbi_roundtrip(s, i + 1, x as nat);
        },
        PropValue::Text(t) => {
            lemma_text_roundtrip(s, i + 1, t);
        },
        PropValue::Binary(b) => {
            lemma_field_roundtrip(s, i + 1, b);
        },
        PropValue::Pair(k, w) => {
            let kb = text_bytes(k);
            lemma_sub_subrange(s, i + 1, i + n, 0, kb.len() as int);
            assert(vb.subrange(0, kb.len() as int) =~= kb);
            lemma_text_roundtrip(s, i + 1, k);
            lemma_sub_subrange(s, i + 1, i + n, kb.len() as int, n - 1);
            assert(vb.subrange(kb.len() as int, n - 1) =~= text_bytes(w));
            lemma_text_roundtrip(s, i + 1 + kb.len(), w);
        },
    }
}

/// Properties that fit read back as written, wherever they stand.
pub proof fn lemma_property_list_roundtrip(s: Seq<u8>, i: int, ps: Seq<PropertyView>)
    requires
        forall|k: int| 0 <= k < ps.len() ==> property_wf(#[trigger] ps[k]) && value_fits(ps[k].value),
        0 <= i,
        i + properties_concat(ps).len() <= s.len(),
        s.subrange(i, i + properties_concat(ps).len()) == properties_concat(ps),
    ensures
        parse_property_list(s, i, i + properties_concat(ps).len()) == Ok::<
            (Seq<PropertyView>, int),
            MqttProtocolError,
        >((ps, i + properties_concat(ps).len())),
    decreases ps.len(),
{
    if ps.len() == 0 {
        assert(ps =~= Seq::<PropertyView>::empty());
    } else {
        let c = properties_concat(ps);
        let pb = property_bytes(ps[0]);
        let rest = ps.drop_first();
        let j = i + pb.len();
        assert(property_wf(ps[0]) && value_fits(ps[0].value));
        assert(s.subrange(i, j) =~= c.subrange(0, pb.len() as int));
        assert(c.subrange(0, pb.len() as int) =~= pb);
        lemma_property_roundtrip(s, i, ps[0]);
        assert forall|k: int| 0 <= k < rest.len() implies property_wf(#[trigger] rest[k])
            && value_fits(rest[k].value) by {
            assert(rest[k] == ps[k + 1]);
        }
        assert(s.subrange(j, i + c.len()) =~= c.subrange(pb.len() as int, c.len() as int));
        assert(c.subrange(pb.len() as int, c.len() as int) =~= properties_concat(rest));
        lemma_property_list_roundtrip(s, j, rest);
        assert(c.len() == pb.len() + properties_concat(rest).len());
        if rest.len() > 0 {
            assert(properties_concat(rest).len() >= property_bytes(rest[0]).len());
        }
        if rest.len() == 0 {
            assert(seq![ps[0]] =~= ps);
        } else {
            assert(seq![ps[0]] + rest =~= ps);
        }
    }
}

/// A property list that fits reads back as written, wherever it stands.
pub proof fn lemma_properties_roundtrip(s: Seq<u8>, i: int, ps: Seq<PropertyView>)
    requires
        forall|k: int| 0 <= k < ps.len() ==> property_wf(#[trigger] ps[k]) && value_fits(ps[k].value),
        properties_concat(ps).len() < 268435456,
        0 <= i,
        i + properties_bytes(ps).len() <= s.len(),
        s.subrange(i, i + properties_bytes(ps).len()) == properties_bytes(ps),
    ensures
        parse_properties(s, i) == Ok::<(Seq<PropertyView>, int), MqttProtocolError>(
            (ps, i + properties_bytes(ps).len()),
        ),
{
    let c = properties_concat(ps);
    let e = encode_length(c.len());
    let b = properties_bytes(ps);
    assert(s.subrange(i, i + e.len()) =~= b.subrange(0, e.len() as int));
    assert(b.subrange(0, e.len() as int) =~= e);
    lemma_length_roundtrip(s, i, c.len());
    assert(s.subrange(i + e.len(), i + b.len()) =~= b.subrange(e.len() as int, b.len() as int));
    assert(b.subrange(e.len() as int, b.len() as int) =~= c);
    lemma_property_list_roundtrip(s, i + e.len(), ps);
}

/// The value of the last property with identifier `code`, if any.
pub open spec fn last_value(ps: Seq<PropertyView>, code: u8) -> Option<PropValue>
    decreases ps.len(),
{
    if ps.len() == 0 {
        None
    } else if ps.last().code == code {
        Some(ps.last().value)
    } else {
        last_value(ps.drop_last(), code)
    }
}

/// The user properties among `ps`, in order.
pub open spec fn user_pairs(ps: Seq<PropertyView>) -> Seq<(Seq<char>, Seq<char>)>
    decreases ps.len(),
{
    if ps.len() == 0 {
        Seq::empty()
    } else {
        let rest = user_pairs(ps.drop_last());
        match ps.last().value {
            PropValue::Pair(k, w) => if ps.last().code == 0x26 {
                rest.push((k, w))
            } else {
                rest
            },
            _ => rest,
        }
    }
}

/// A one-byte value, if that is what `v` holds.
pub open spec fn byte_of(v: Option<PropValue>) -> Option<u8> {
    match v {
        Some(PropValue::Byte(x)) => Some(x),
        _ => None,
    }
}

/// A two-byte value, if that is what `v` holds.
pub open spec fn two_of(v: Option<PropValue>) -> Option<u16> {
    match v {
        Some(PropValue::Two(x)) => Some(x),
        _ => None,
    }
}

/// A four-byte value, if that is what `v` holds.
pub open spec fn four_of(v: Option<PropValue>) -> Option<u32> {
    match v {
        Some(PropValue::Four(x)) => Some(x),
        _ => None,
    }
}

/// A variable byte integer, if that is what `v` holds.
pub open spec fn var_of(v: Option<PropValue>) -> Option<u32> {
    match v {
        Some(PropValue::Var(x)) => Some(x),
        _ => None,
    }
}

/// A string, if that is what `v` holds.
pub open spec fn text_of(v: Option<PropValue>) -> Option<Seq<char>> {
    match v {
        Some(PropValue::Text(x)) => Some(x),
        _ => None,
    }
}

/// Binary data, if that is what `v` holds.
pub open spec fn binary_of(v: Option<PropValue>) -> Option<Seq<u8>> {
    match v {
        Some(PropValue::Binary(x)) => Some(x),
        _ => None,
    }
}

/// The first `k + 1` properties are the first `k` and then the one at `k`.
pub proof fn lemma_take_step(ps: Seq<PropertyView>, k: int)
    requires
        0 <= k < ps.len(),
    ensures
        ps.take(k + 1).drop_last() == ps.take(k),
        ps.take(k + 1).last() == ps[k],
        ps.take(k + 1).len() == k + 1,
{
    assert(ps.take(k + 1).drop_last() =~= ps.take(k));
}

/// The views of user properties, as properties.
pub open spec fn user_property_views(us: Seq<(Seq<char>, Seq<char>)>) -> Seq<PropertyView> {
    us.map_values(
        |u: (Seq<char>, Seq<char>)| PropertyView { code: 0x26, value: PropValue::Pair(u.0, u.1) },
    )
}

/// Each user property as a property.
pub fn user_properties_of(us: &Vec<PropertyUser>) -> (r: Vec<Property>)
    ensures
        views(r@) == user_property_views(pair_views(us@)),
{
    let mut out: Vec<Property> = Vec::new();
    let mut k: usize = 0;
    while k < us.len()
        invariant
            k <= us@.len(),
            out@.len() == k,
            views(out@) == user_property_views(pair_views(us@.subrange(0, k as int))),
        decreases us.len() - k,
    {
        let ghost before = out@;
        let c = us[k].clone();
        out.push(Property::UserProperty(c));
        assert forall|j: int| 0 <= j < out@.len() implies views(out@)[j] == user_property_views(
            pair_views(us@.subrange(0, k + 1)),
        )[j] by {
            if j < k {
                assert(out@[j] == before[j]);
                assert(views(before)[j] == user_property_views(
                    pair_views(us@.subrange(0, k as int)),
                )[j]);
            }
        }
        assert(views(out@) =~= user_property_views(pair_views(us@.subrange(0, k + 1))));
        k = k + 1;
    }
    assert(us@.subrange(0, us@.len() as int) =~= us@);
    out
}

} // verus!
