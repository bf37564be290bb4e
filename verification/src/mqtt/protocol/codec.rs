//! Turning a stream of bytes into control packets and back, for one client.
use vstd::prelude::*;

use super::super::error::MqttProtocolError;
use super::super::MqttProtocolVersion;
use super::conn::{parse_connect, Connect};
use super::fixed::{packet_bytes, parse_fixed, FixedHeaderCodec};
use super::message::{body_outcome, message_fixed, unwritable, Message, MessageType};
use crate::config::MqttSettings;

verus! {

/// The codec of one client's connection: the protocol version it speaks and the
/// largest packet the broker takes from it.
pub struct MessageCodec {
    pub fixed_codec: FixedHeaderCodec,
    pub version: MqttProtocolVersion,
    pub packet_maximum: u32,
}

/// What decoding the message at the start of `r`'s input gave, without how many
/// bytes it took.
pub open spec fn message_of(r: Result<Option<(Message, usize)>, MqttProtocolError>) -> Result<
    Message,
    MqttProtocolError,
> {
    match r {
        Ok(Some((m, _))) => Ok(m),
        Ok(None) => Err(MqttProtocolError::InternalError),
        Err(e) => Err(e),
    }
}

/// Whether decoding the packet at the start of `s` panics: a CONNECT within the size
/// limit whose will message is longer than the rest of the packet.
pub open spec fn decode_panics(s: Seq<u8>, packet_maximum: u32, st: MqttSettings) -> bool {
    match parse_fixed(s) {
        Ok(Some((o, _))) => o.3 == MessageType::Connect && o.4.len() + 2 <= packet_maximum
            && parse_connect(o.4, st) is None,
        _ => false,
    }
}

/// Whether `r` is what decoding the start of `s` should give: nothing while the packet
/// is incomplete; a packet whose body and two bytes exceed `packet_maximum` as
/// `PacketTooLarge`; any other packet as its body decodes; with how many bytes it took.
pub open spec fn decode_outcome(
    r: Result<Option<(Message, usize)>, MqttProtocolError>,
    s: Seq<u8>,
    version: MqttProtocolVersion,
    packet_maximum: u32,
    st: MqttSettings,
) -> bool {
    match parse_fixed(s) {
        Err(e) => r == Err::<Option<(Message, usize)>, MqttProtocolError>(e),
        Ok(None) => r == Ok::<Option<(Message, usize)>, MqttProtocolError>(None),
        Ok(Some((o, n))) => if o.4.len() + 2 > packet_maximum {
            r matches Ok(Some((Message::PacketTooLarge, k))) && k == n
        } else {
            &&& r !is Ok || (r matches Ok(Some((_, k))) && k == n)
            &&& r != Ok::<Option<(Message, usize)>, MqttProtocolError>(None)
            &&& body_outcome(message_of(r), o.3, o.4, o.1, o.0, o.2, version, st)
        },
    }
}

impl MessageCodec {
    /// The codec a connection starts with: MQTT 3.1.1, and the packet size limit of
    /// `settings`.
    pub fn default(settings: &MqttSettings) -> (r: Self)
        ensures
            r.version == MqttProtocolVersion::V3_1_1,
            r.packet_maximum == settings.max_packet_size,
    {
        MessageCodec {
            fixed_codec: FixedHeaderCodec::default(),
            version: MqttProtocolVersion::V3_1_1,
            packet_maximum: settings.max_packet_size,
        }
    }

    /// Switches to MQTT 5.
    pub fn with_v5(&mut self)
        ensures
            final(self).version == MqttProtocolVersion::V5,
            final(self).packet_maximum == old(self).packet_maximum,
    {
        self.version = MqttProtocolVersion::V5;
    }

    /// Sets the largest packet taken from the client.
    pub fn with_packet_size(&mut self, size: u32)
        ensures
            final(self).version == old(self).version,
            final(self).packet_maximum == size,
    {
        self.packet_maximum = size;
    }

    /// Whether decoding the start of `src` panics, as `decode_panics` says.
    pub fn decode_panics(&mut self, src: &[u8], settings: &MqttSettings) -> (r: bool)
        ensures
            r == decode_panics(src@, old(self).packet_maximum, *settings),
            *final(self) == *old(self),
    {
        match self.fixed_codec.decode(src) {
            Ok(Some((fixed, _))) => {
                fixed.msg_type == MessageType::Connect && fixed.bytes.len() as u64 + 2
                    <= self.packet_maximum as u64 && Connect::body_panics(
                    fixed.bytes.as_slice(),
                    settings,
                )
            },
            _ => false,
        }
    }

    /// Decodes the packet at the start of `src`, as `decode_outcome` says.
    pub fn decode(&mut self, src: &[u8], settings: &MqttSettings) -> (r: Result<
        Option<(Message, usize)>,
        MqttProtocolError,
    >)
        requires
            !decode_panics(src@, old(self).packet_maximum, *settings),
        ensures
            decode_outcome(r, src@, old(self).version, old(self).packet_maximum, *settings),
            *final(self) == *old(self),
    {
        let (fixed, consumed) = match self.fixed_codec.decode(src)? {
            Some(x) => x,
            None => return Ok(None),
        };
        if fixed.bytes.len() as u64 + 2 > self.packet_maximum as u64 {
            return Ok(Some((Message::PacketTooLarge, consumed)));
        }
        let msg = Message::try_from_fixed(fixed, self.version, settings)?;
        Ok(Some((msg, consumed)))
    }

    /// The bytes of `msg` for this connection, as `packet_bytes` and `message_fixed`
    /// say.
    pub fn encode(&mut self, msg: Message, settings: &MqttSettings) -> (r: Vec<u8>)
        requires
            !unwritable(msg),
        ensures
            r@ == packet_bytes(message_fixed(msg, old(self).version, *settings)),
            *final(self) == *old(self),
    {
        let options = msg.into(self.version, settings);
        options.into_bytes()
    }
}

} // verus!
