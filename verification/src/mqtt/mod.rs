//! The MQTT broker: protocol, sessions and retained messages.
use vstd::prelude::*;

pub mod code;
pub mod command;
pub mod error;
pub mod listener;
pub mod protocol;
pub mod retain_trie;
pub mod broker_laws;
pub mod server;
pub mod utils;

use error::MqttProtocolError;

verus! {

/// Quality of service of a delivery.
#[derive(Clone, Copy, PartialEq, Eq, Structural, Debug)]
pub enum QoS {
    AtMostOnce,
    AtLeastOnce,
    ExactlyOnce,
}

/// The level of a quality of service: 0, 1 or 2.
pub open spec fn qos_level(q: QoS) -> u8 {
    match q {
        QoS::AtMostOnce => 0,
        QoS::AtLeastOnce => 1,
        QoS::ExactlyOnce => 2,
    }
}

/// The quality of service of a level, if the level is 0, 1 or 2.
pub open spec fn qos_of_level(v: u8) -> Option<QoS> {
    if v == 0 {
        Some(QoS::AtMostOnce)
    } else if v == 1 {
        Some(QoS::AtLeastOnce)
    } else if v == 2 {
        Some(QoS::ExactlyOnce)
    } else {
        None
    }
}

impl QoS {
    /// The level of this quality of service.
    pub fn level(self) -> (r: u8)
        ensures
            r == qos_level(self),
    {
        match self {
            QoS::AtMostOnce => 0,
            QoS::AtLeastOnce => 1,
            QoS::ExactlyOnce => 2,
        }
    }

    /// The lower of two qualities of service.
    pub fn min(self, other: QoS) -> (r: QoS)
        ensures
            r == if qos_level(self) <= qos_level(other) {
                self
            } else {
                other
            },
    {
        if self.level() <= other.level() {
            self
        } else {
            other
        }
    }

    /// The quality of service of a level; other levels are refused.
    pub fn try_from_u8(value: u8) -> (r: Result<QoS, MqttProtocolError>)
        ensures
            match qos_of_level(value) {
                Some(q) => r == Ok::<QoS, MqttProtocolError>(q),
                None => r == Err::<QoS, MqttProtocolError>(MqttProtocolError::InvalidQoS),
            },
    {
        match value {
            0 => Ok(QoS::AtMostOnce),
            1 => Ok(QoS::AtLeastOnce),
            2 => Ok(QoS::ExactlyOnce),
            _ => Err(MqttProtocolError::InvalidQoS),
        }
    }
}

/// The version of the MQTT protocol that a client speaks.
#[derive(Clone, Copy, PartialEq, Eq, Structural, Debug)]
pub enum MqttProtocolVersion {
    V3,
    V3_1_1,
    V5,
}

/// The protocol level of a version on the wire.
pub open spec fn version_code(v: MqttProtocolVersion) -> u8 {
    match v {
        MqttProtocolVersion::V3 => 3,
        MqttProtocolVersion::V3_1_1 => 4,
        MqttProtocolVersion::V5 => 5,
    }
}

/// The version of a protocol level, if the level is 3, 4 or 5.
pub open spec fn version_of_code(v: u8) -> Option<MqttProtocolVersion> {
    if v == 3 {
        Some(MqttProtocolVersion::V3)
    } else if v == 4 {
        Some(MqttProtocolVersion::V3_1_1)
    } else if v == 5 {
        Some(MqttProtocolVersion::V5)
    } else {
        None
    }
}

impl MqttProtocolVersion {
    /// The protocol level of this version on the wire.
    pub fn code(&self) -> (r: u8)
        ensures
            r == version_code(*self),
    {
        match self {
            MqttProtocolVersion::V3 => 3,
            MqttProtocolVersion::V3_1_1 => 4,
            MqttProtocolVersion::V5 => 5,
        }
    }

    /// The version of a protocol level; other levels are refused.
    pub fn try_from_u8(value: u8) -> (r: Result<MqttProtocolVersion, MqttProtocolError>)
        ensures
            match version_of_code(value) {
                Some(v) => r == Ok::<MqttProtocolVersion, MqttProtocolError>(v),
                None => r == Err::<MqttProtocolVersion, MqttProtocolError>(
                    MqttProtocolError::InvalidProtocolVersion,
                ),
            },
    {
        match value {
            3 => Ok(MqttProtocolVersion::V3),
            4 => Ok(MqttProtocolVersion::V3_1_1),
            5 => Ok(MqttProtocolVersion::V5),
            _ => Err(MqttProtocolError::InvalidProtocolVersion),
        }
    }

    /// Whether this is version 5 of the protocol.
    pub fn is_v5(&self) -> (r: bool)
        ensures
            r == (*self == MqttProtocolVersion::V5),
    {
        match self {
            MqttProtocolVersion::V5 => true,
            _ => false,
        }
    }
}

} // verus!
