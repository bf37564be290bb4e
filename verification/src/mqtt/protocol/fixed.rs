//! The fixed header of a control packet: its type and flags, then the length of the
//! rest, in one to four bytes.
use vstd::prelude::*;

use super::super::error::MqttProtocolError;
use super::super::{qos_level, qos_of_level, QoS};
use super::message::{type_code, type_of_code, FixedOptions, MessageType};
use super::wire::{
    copy_bytes, decode_length, encode_length, lemma_length_roundtrip, lemma_sub_subrange,
    peek_length, put_length, put_slice, put_u8, slice_range,
};

verus! {

/// The flags of a first byte, as a packet of type `t` must carry them.
pub open spec fn header_flags(t: MessageType, dup: bool, qos: QoS, retain: bool) -> u8 {
    match t {
        MessageType::Subscribe | MessageType::Unsubscribe | MessageType::PubRel => 2,
        MessageType::Publish => ((if dup {
            8int
        } else {
            0int
        }) + qos_level(qos) * 2 + (if retain {
            1int
        } else {
            0int
        })) as u8,
        _ => 0,
    }
}

/// The bytes of a packet: its first byte (type and flags), the length of its body,
/// its body.
pub open spec fn packet_bytes(o: (bool, QoS, bool, MessageType, Seq<u8>)) -> Seq<u8> {
    seq![(type_code(o.3) * 16 + header_flags(o.3, o.0, o.1, o.2)) as u8] + encode_length(
        o.4.len(),
    ) + o.4
}

/// The fixed header fields of a first byte whose packet type is `t`, or the error
/// that its flags give: SUBSCRIBE, UNSUBSCRIBE and PUBREL must carry flags 2, other
/// types but PUBLISH flags 0 (`InvalidFixedHeader`); the QoS of a PUBLISH must be 0,
/// 1 or 2 (`InvalidQoS`).
pub open spec fn parse_flags(b: u8, t: MessageType) -> Result<(bool, QoS, bool), MqttProtocolError> {
    match t {
        MessageType::Subscribe | MessageType::Unsubscribe | MessageType::PubRel => if b % 16 != 2 {
            Err(MqttProtocolError::InvalidFixedHeader)
        } else {
            Ok((false, QoS::AtMostOnce, false))
        },
        MessageType::Publish => match qos_of_level((b / 2) % 4) {
            None => Err(MqttProtocolError::InvalidQoS),
            Some(q) => Ok(((b / 8) % 2 == 1, q, b % 2 == 1)),
        },
        _ => if b % 16 != 0 {
            Err(MqttProtocolError::InvalidFixedHeader)
        } else {
            Ok((false, QoS::AtMostOnce, false))
        },
    }
}

/// Decodes the packet at the start of `s`: `Ok(None)` while the bytes do not yet hold
/// all of it; otherwise its fixed header fields and body, and how many bytes it
/// takes. A type of 0 is `InvalidMessageType`.
pub open spec fn parse_fixed(s: Seq<u8>) -> Result<
    Option<((bool, QoS, bool, MessageType, Seq<u8>), int)>,
    MqttProtocolError,
> {
    if s.len() < 2 {
        Ok(None)
    } else {
        match type_of_code(s[0] / 16) {
            None => Err(MqttProtocolError::InvalidMessageType),
            Some(t) => match parse_flags(s[0], t) {
                Err(e) => Err(e),
                Ok((dup, qos, retain)) => match decode_length(s, 1) {
                    None => Ok(None),
                    Some((n, k)) => if s.len() < n + 1 + k {
                        Ok(None)
                    } else {
                        Ok(
                            Some(
                                (
                                    (dup, qos, retain, t, s.subrange(1 + k, 1 + k + n)),
                                    1 + k + n,
                                ),
                            ),
                        )
                    },
                },
            },
        }
    }
}

/// Splits packets off a stream of bytes.
pub struct FixedHeaderCodec;

impl FixedHeaderCodec {
    /// A codec.
    pub fn default() -> (r: Self) {
        FixedHeaderCodec
    }

    /// Decodes the packet at the start of `src`, as `parse_fixed` says: its fixed
    /// header fields and body, and how many bytes it takes.
    pub fn decode(&mut self, src: &[u8]) -> (r: Result<Option<(FixedOptions, usize)>, MqttProtocolError>)
        ensures
            match parse_fixed(src@) {
                Err(e) => r == Err::<Option<(FixedOptions, usize)>, MqttProtocolError>(e),
                Ok(None) => r == Ok::<Option<(FixedOptions, usize)>, MqttProtocolError>(None),
                Ok(Some((o, n))) => r matches Ok(Some((f, m))) && (f.dup, f.qos, f.retain, f.msg_type, f.bytes@) == o && m == n,
            },
    {
        if src.len() < 2 {
            return Ok(None);
        }
        let b0 = src[0];
        let msg_type = MessageType::try_from_u8(b0 / 16)?;
        let mut dup = false;
        let mut qos = QoS::AtMostOnce;
        let mut retain = false;
        match msg_type {
            MessageType::Subscribe | MessageType::Unsubscribe | MessageType::PubRel => {
                if b0 % 16 != 2 {
                    return Err(MqttProtocolError::InvalidFixedHeader);
                }
            },
            MessageType::Publish => {
                qos = QoS::try_from_u8((b0 / 2) % 4)?;
                dup = (b0 / 8) % 2 == 1;
                retain = b0 % 2 == 1;
            },
            _ => {
                if b0 % 16 != 0 {
                    return Err(MqttProtocolError::InvalidFixedHeader);
                }
            },
        }
        let (length, length_bytes) = match peek_length(src, 1) {
            Some(x) => x,
            None => return Ok(None),
        };
        if src.len() - 1 - length_bytes < length as usize {
            return Ok(None);
        }
        let start = 1 + length_bytes;
        let end = start + length as usize;
        let bytes = copy_bytes(slice_range(src, start, end));
        Ok(Some((FixedOptions { dup, qos, retain, msg_type, bytes }, end)))
    }
}

impl FixedOptions {
    /// The bytes of this packet, as `packet_bytes` says.
    pub fn into_bytes(self) -> (r: Vec<u8>)
        ensures
            r@ == packet_bytes((self.dup, self.qos, self.retain, self.msg_type, self.bytes@)),
    {
        let mut buf: Vec<u8> = Vec::new();
        let flags: u8 = match self.msg_type {
            MessageType::Subscribe | MessageType::Unsubscribe | MessageType::PubRel => 2,
            MessageType::Publish => {
                let d: u8 = if self.dup {
                    8
                } else {
                    0
                };
                let r: u8 = if self.retain {
                    1
                } else {
                    0
                };
                d + self.qos.level() * 2 + r
            },
            _ => 0,
        };
        put_u8(&mut buf, self.msg_type.code() * 16 + flags);
        put_length(&mut buf, self.bytes.len());
        put_slice(&mut buf, self.bytes.as_slice());
        assert(buf@ =~= packet_bytes((self.dup, self.qos, self.retain, self.msg_type, self.bytes@)));
        buf
    }
}

/// A packet written with flags its type allows, and a body shorter than 2^28 bytes,
/// reads back as written, whatever follows it.
pub proof fn lemma_packet_roundtrip(
    o: (bool, QoS, bool, MessageType, Seq<u8>),
    rest: Seq<u8>,
)
    requires
        o.3 != MessageType::Reserved0,
        o.4.len() < 268435456,
        o.3 != MessageType::Publish ==> !o.0 && o.1 == QoS::AtMostOnce && !o.2,
    ensures
        parse_fixed(packet_bytes(o) + rest) == Ok::<
            Option<((bool, QoS, bool, MessageType, Seq<u8>), int)>,
            MqttProtocolError,
        >(Some((o, packet_bytes(o).len() as int))),
{
    let p = packet_bytes(o);
    let s = p + rest;
    let e = encode_length(o.4.len());
    let b0 = (type_code(o.3) * 16 + header_flags(o.3, o.0, o.1, o.2)) as u8;
    assert(s[0] == b0);
    assert(header_flags(o.3, o.0, o.1, o.2) < 16);
    assert(b0 / 16 == type_code(o.3));
    assert(b0 % 16 == header_flags(o.3, o.0, o.1, o.2));
    if o.3 == MessageType::Publish {
        assert((b0 / 2) % 4 == qos_level(o.1));
        assert((b0 / 8) % 2 == 1 <==> o.0);
        assert(b0 % 2 == 1 <==> o.2);
    }
    assert(s.subrange(1, 1 + e.len() as int) =~= e);
    lemma_length_roundtrip(s, 1, o.4.len());
    assert(s.subrange(1 + e.len() as int, 1 + e.len() as int + o.4.len() as int) =~= o.4);
}

} // verus!
