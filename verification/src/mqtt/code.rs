//! Reason codes of CONNACK, PUBACK, SUBACK and the other acknowledgements.
use vstd::prelude::*;

use super::error::MqttProtocolError;

verus! {

/// A return code (MQTT 3.1.1) or reason code (MQTT 5).
#[derive(Clone, Copy, PartialEq, Eq, Structural, Debug)]
pub enum ReturnCode {
    Success,
    UnsupportedProtocolVersion,
    IdentifierRejected,
    ServerUnavailable,
    InvalidUsernameOrPassword,
    NotAuthorized,
    NoMatchSubscription,
    NoSubscriptionExisted,
    UnspecifiedError,
    MalformedPacket,
    ProtocolError,
    ImSpecificError,
    UnsupProtoVersion,
    ClientIdNotValid,
    BadUserNameOrPassword,
    NotAuthorizedV5,
    ServerUnavailableV5,
    ServerBusy,
    Banned,
    BadAuthMethod,
    SessionTakenOver,
    TopicFilterInvalid,
    TopicNameInvalid,
    PacketIdentifierNotFound,
    PacketTooLarge,
    QuotaExceeded,
    PayloadFormatInvalid,
    RetainNotSupported,
    QoSNotSupported,
    UseAnotherServer,
    ServerMoved,
    ConnectionRateExceeded,
    KeepAliveTimeout,
    ReceiveMaximumExceeded,
    TopicAliasInvalid,
}

/// The byte that stands for a reason code on the wire.
pub open spec fn code_value(c: ReturnCode) -> u8 {
    match c {
        ReturnCode::Success => 0,
        ReturnCode::UnsupportedProtocolVersion => 1,
        ReturnCode::IdentifierRejected => 2,
        ReturnCode::ServerUnavailable => 3,
        ReturnCode::InvalidUsernameOrPassword => 4,
        ReturnCode::NotAuthorized => 5,
        ReturnCode::NoMatchSubscription => 16,
        ReturnCode::NoSubscriptionExisted => 17,
        ReturnCode::UnspecifiedError => 128,
        ReturnCode::MalformedPacket => 129,
        ReturnCode::ProtocolError => 130,
        ReturnCode::ImSpecificError => 131,
        ReturnCode::UnsupProtoVersion => 132,
        ReturnCode::ClientIdNotValid => 133,
        ReturnCode::BadUserNameOrPassword => 134,
        ReturnCode::NotAuthorizedV5 => 135,
        ReturnCode::ServerUnavailableV5 => 136,
        ReturnCode::ServerBusy => 137,
        ReturnCode::Banned => 138,
        ReturnCode::BadAuthMethod => 140,
        ReturnCode::SessionTakenOver => 142,
        ReturnCode::TopicFilterInvalid => 143,
        ReturnCode::TopicNameInvalid => 144,
        ReturnCode::PacketIdentifierNotFound => 146,
        ReturnCode::PacketTooLarge => 149,
        ReturnCode::QuotaExceeded => 151,
        ReturnCode::PayloadFormatInvalid => 153,
        ReturnCode::RetainNotSupported => 154,
        ReturnCode::QoSNotSupported => 155,
        ReturnCode::UseAnotherServer => 156,
        ReturnCode::ServerMoved => 157,
        ReturnCode::ConnectionRateExceeded => 159,
        ReturnCode::KeepAliveTimeout => 141,
        ReturnCode::ReceiveMaximumExceeded => 147,
        ReturnCode::TopicAliasInvalid => 148,
    }
}

/// The reason code that a byte stands for, among those that a client may send.
pub open spec fn code_of_value(v: u8) -> Option<ReturnCode> {
    if v == 0 {
        Some(ReturnCode::Success)
    } else if v == 1 {
        Some(ReturnCode::UnsupportedProtocolVersion)
    } else if v == 2 {
        Some(ReturnCode::IdentifierRejected)
    } else if v == 3 {
        Some(ReturnCode::ServerUnavailable)
    } else if v == 4 {
        Some(ReturnCode::InvalidUsernameOrPassword)
    } else if v == 5 {
        Some(ReturnCode::NotAuthorized)
    } else if v == 16 {
        Some(ReturnCode::NoMatchSubscription)
    } else if v == 17 {
        Some(ReturnCode::NoSubscriptionExisted)
    } else if v == 128 {
        Some(ReturnCode::UnspecifiedError)
    } else if v == 129 {
        Some(ReturnCode::MalformedPacket)
    } else if v == 130 {
        Some(ReturnCode::ProtocolError)
    } else if v == 131 {
        Some(ReturnCode::ImSpecificError)
    } else if v == 132 {
        Some(ReturnCode::UnsupProtoVersion)
    } else if v == 133 {
        Some(ReturnCode::ClientIdNotValid)
    } else if v == 134 {
        Some(ReturnCode::BadUserNameOrPassword)
    } else if v == 135 {
        Some(ReturnCode::NotAuthorizedV5)
    } else if v == 136 {
        Some(ReturnCode::ServerUnavailableV5)
    } else if v == 137 {
        Some(ReturnCode::ServerBusy)
    } else if v == 138 {
        Some(ReturnCode::Banned)
    } else if v == 140 {
        Some(ReturnCode::BadAuthMethod)
    } else if v == 142 {
        Some(ReturnCode::SessionTakenOver)
    } else if v == 143 {
        Some(ReturnCode::TopicFilterInvalid)
    } else if v == 144 {
        Some(ReturnCode::TopicNameInvalid)
    } else if v == 146 {
        Some(ReturnCode::PacketIdentifierNotFound)
    } else if v == 149 {
        Some(ReturnCode::PacketTooLarge)
    } else if v == 151 {
        Some(ReturnCode::QuotaExceeded)
    } else if v == 153 {
        Some(ReturnCode::PayloadFormatInvalid)
    } else if v == 154 {
        Some(ReturnCode::RetainNotSupported)
    } else if v == 155 {
        Some(ReturnCode::QoSNotSupported)
    } else if v == 156 {
        Some(ReturnCode::UseAnotherServer)
    } else if v == 157 {
        Some(ReturnCode::ServerMoved)
    } else if v == 159 {
        Some(ReturnCode::ConnectionRateExceeded)
    } else {
        None
    }
}

/// Whether a reason code is one that is read from its number: all but keep alive
/// timeout, receive maximum exceeded and topic alias invalid.
pub open spec fn decodable(c: ReturnCode) -> bool {
    c != ReturnCode::KeepAliveTimeout && c != ReturnCode::ReceiveMaximumExceeded && c
        != ReturnCode::TopicAliasInvalid
}

/// Every reason code reads back from its number, but for the three that the broker
/// only sends (keep alive timeout, receive maximum exceeded, topic alias invalid),
/// which are read as invalid.
pub proof fn lemma_code_roundtrip(c: ReturnCode)
    requires
        decodable(c),
    ensures
        code_of_value(code_value(c)) == Some(c),
{
}

/// The line that describes a return code, led by its number.
pub open spec fn description_of(c: ReturnCode) -> Seq<char> {
    match c {
        ReturnCode::Success => "0: Connection Accepted"@,
        ReturnCode::UnsupportedProtocolVersion => "1: Connection Refused, Unacceptable Protocol Version"@,
        ReturnCode::IdentifierRejected => "2: Connection Refused, Identifier Rejected"@,
        ReturnCode::ServerUnavailable => "3: Connection Refused, Server Unavailable"@,
        ReturnCode::InvalidUsernameOrPassword => "4: Connection Refused, Bad User Name or Password"@,
        ReturnCode::NotAuthorized => "5: Connection Refused, Not Authorized"@,
        ReturnCode::NoMatchSubscription => "16: No Matching Subscription"@,
        ReturnCode::NoSubscriptionExisted => "17: No Subscription Existed"@,
        ReturnCode::UnspecifiedError => "128: Unspecified Error"@,
        ReturnCode::MalformedPacket => "129: Malformed Packet"@,
        ReturnCode::ProtocolError => "130: Protocol Error"@,
        ReturnCode::ImSpecificError => "131: Implementation Specific Error"@,
        ReturnCode::UnsupProtoVersion => "132: Unsupported Protocol Version"@,
        ReturnCode::ClientIdNotValid => "133: Client Identifier Not Valid"@,
        ReturnCode::BadUserNameOrPassword => "134: Bad User Name or Password"@,
        ReturnCode::NotAuthorizedV5 => "135: Not Authorized"@,
        ReturnCode::ServerUnavailableV5 => "136: Server Unavailable"@,
        ReturnCode::ServerBusy => "137: Server Busy"@,
        ReturnCode::Banned => "138: Banned"@,
        ReturnCode::BadAuthMethod => "140: Bad Authentication Method"@,
        ReturnCode::SessionTakenOver => "142: Session Taken Over"@,
        ReturnCode::TopicFilterInvalid => "143: Topic Filter Invalid"@,
        ReturnCode::TopicNameInvalid => "144: Topic Name Invalid"@,
        ReturnCode::PacketIdentifierNotFound => "146: Packet Identifier Not Found"@,
        ReturnCode::PacketTooLarge => "149: Packet Too Large"@,
        ReturnCode::QuotaExceeded => "151: Quota Exceeded"@,
        ReturnCode::PayloadFormatInvalid => "153: Payload Format Invalid"@,
        ReturnCode::RetainNotSupported => "154: Retain Not Supported"@,
        ReturnCode::QoSNotSupported => "155: QoS Not Supported"@,
        ReturnCode::UseAnotherServer => "156: Use Another Server"@,
        ReturnCode::ServerMoved => "157: Server Moved"@,
        ReturnCode::ConnectionRateExceeded => "159: Connection Rate Exceeded"@,
        ReturnCode::KeepAliveTimeout => "141: Keep Alive Timeout"@,
        ReturnCode::ReceiveMaximumExceeded => "147: Receive Maximum Exceeded"@,
        ReturnCode::TopicAliasInvalid => "148: Topic Alias Invalid"@,
    }
}

impl ReturnCode {
    /// The byte that stands for this code on the wire.
    pub fn code(&self) -> (r: u8)
        ensures
            r == code_value(*self),
    {
        match self {
            ReturnCode::Success => 0,
            ReturnCode::UnsupportedProtocolVersion => 1,
            ReturnCode::IdentifierRejected => 2,
            ReturnCode::ServerUnavailable => 3,
            ReturnCode::InvalidUsernameOrPassword => 4,
            ReturnCode::NotAuthorized => 5,
            ReturnCode::NoMatchSubscription => 16,
            ReturnCode::NoSubscriptionExisted => 17,
            ReturnCode::UnspecifiedError => 128,
            ReturnCode::MalformedPacket => 129,
            ReturnCode::ProtocolError => 130,
            ReturnCode::ImSpecificError => 131,
            ReturnCode::UnsupProtoVersion => 132,
            ReturnCode::ClientIdNotValid => 133,
            ReturnCode::BadUserNameOrPassword => 134,
            ReturnCode::NotAuthorizedV5 => 135,
            ReturnCode::ServerUnavailableV5 => 136,
            ReturnCode::ServerBusy => 137,
            ReturnCode::Banned => 138,
            ReturnCode::BadAuthMethod => 140,
            ReturnCode::SessionTakenOver => 142,
            ReturnCode::TopicFilterInvalid => 143,
            ReturnCode::TopicNameInvalid => 144,
            ReturnCode::PacketIdentifierNotFound => 146,
            ReturnCode::PacketTooLarge => 149,
            ReturnCode::QuotaExceeded => 151,
            ReturnCode::PayloadFormatInvalid => 153,
            ReturnCode::RetainNotSupported => 154,
            ReturnCode::QoSNotSupported => 155,
            ReturnCode::UseAnotherServer => 156,
            ReturnCode::ServerMoved => 157,
            ReturnCode::ConnectionRateExceeded => 159,
            ReturnCode::KeepAliveTimeout => 141,
            ReturnCode::ReceiveMaximumExceeded => 147,
            ReturnCode::TopicAliasInvalid => 148,
        }
    }

    /// The reason code that a byte stands for; other bytes are refused.
    pub fn try_from_u8(value: u8) -> (r: Result<ReturnCode, MqttProtocolError>)
        ensures
            match code_of_value(value) {
                Some(c) => r == Ok::<ReturnCode, MqttProtocolError>(c),
                None => r == Err::<ReturnCode, MqttProtocolError>(
                    MqttProtocolError::InvalidReturnCode(value),
                ),
            },
    {
        match value {
            0 => Ok(ReturnCode::Success),
            1 => Ok(ReturnCode::UnsupportedProtocolVersion),
            2 => Ok(ReturnCode::IdentifierRejected),
            3 => Ok(ReturnCode::ServerUnavailable),
            4 => Ok(ReturnCode::InvalidUsernameOrPassword),
            5 => Ok(ReturnCode::NotAuthorized),
            16 => Ok(ReturnCode::NoMatchSubscription),
            17 => Ok(ReturnCode::NoSubscriptionExisted),
            128 => Ok(ReturnCode::UnspecifiedError),
            129 => Ok(ReturnCode::MalformedPacket),
            130 => Ok(ReturnCode::ProtocolError),
            131 => Ok(ReturnCode::ImSpecificError),
            132 => Ok(ReturnCode::UnsupProtoVersion),
            133 => Ok(ReturnCode::ClientIdNotValid),
            134 => Ok(ReturnCode::BadUserNameOrPassword),
            135 => Ok(ReturnCode::NotAuthorizedV5),
            136 => Ok(ReturnCode::ServerUnavailableV5),
            137 => Ok(ReturnCode::ServerBusy),
            138 => Ok(ReturnCode::Banned),
            140 => Ok(ReturnCode::BadAuthMethod),
            142 => Ok(ReturnCode::SessionTakenOver),
            143 => Ok(ReturnCode::TopicFilterInvalid),
            144 => Ok(ReturnCode::TopicNameInvalid),
            146 => Ok(ReturnCode::PacketIdentifierNotFound),
            149 => Ok(ReturnCode::PacketTooLarge),
            151 => Ok(ReturnCode::QuotaExceeded),
            153 => Ok(ReturnCode::PayloadFormatInvalid),
            154 => Ok(ReturnCode::RetainNotSupported),
            155 => Ok(ReturnCode::QoSNotSupported),
            156 => Ok(ReturnCode::UseAnotherServer),
            157 => Ok(ReturnCode::ServerMoved),
            159 => Ok(ReturnCode::ConnectionRateExceeded),
            _ => Err(MqttProtocolError::InvalidReturnCode(value)),
        }
    }

    /// A line that describes the code, led by its number.
    pub fn description(&self) -> (r: &'static str)
        ensures
            r@ == description_of(*self),
    {
        match self {
            ReturnCode::Success => "0: Connection Accepted",
            ReturnCode::UnsupportedProtocolVersion => "1: Connection Refused, Unacceptable Protocol Version",
            ReturnCode::IdentifierRejected => "2: Connection Refused, Identifier Rejected",
            ReturnCode::ServerUnavailable => "3: Connection Refused, Server Unavailable",
            ReturnCode::InvalidUsernameOrPassword => "4: Connection Refused, Bad User Name or Password",
            ReturnCode::NotAuthorized => "5: Connection Refused, Not Authorized",
            ReturnCode::NoMatchSubscription => "16: No Matching Subscription",
            ReturnCode::NoSubscriptionExisted => "17: No Subscription Existed",
            ReturnCode::UnspecifiedError => "128: Unspecified Error",
            ReturnCode::MalformedPacket => "129: Malformed Packet",
            ReturnCode::ProtocolError => "130: Protocol Error",
            ReturnCode::ImSpecificError => "131: Implementation Specific Error",
            ReturnCode::UnsupProtoVersion => "132: Unsupported Protocol Version",
            ReturnCode::ClientIdNotValid => "133: Client Identifier Not Valid",
            ReturnCode::BadUserNameOrPassword => "134: Bad User Name or Password",
            ReturnCode::NotAuthorizedV5 => "135: Not Authorized",
            ReturnCode::ServerUnavailableV5 => "136: Server Unavailable",
            ReturnCode::ServerBusy => "137: Server Busy",
            ReturnCode::Banned => "138: Banned",
            ReturnCode::BadAuthMethod => "140: Bad Authentication Method",
            ReturnCode::SessionTakenOver => "142: Session Taken Over",
            ReturnCode::TopicFilterInvalid => "143: Topic Filter Invalid",
            ReturnCode::TopicNameInvalid => "144: Topic Name Invalid",
            ReturnCode::PacketIdentifierNotFound => "146: Packet Identifier Not Found",
            ReturnCode::PacketTooLarge => "149: Packet Too Large",
            ReturnCode::QuotaExceeded => "151: Quota Exceeded",
            ReturnCode::PayloadFormatInvalid => "153: Payload Format Invalid",
            ReturnCode::RetainNotSupported => "154: Retain Not Supported",
            ReturnCode::QoSNotSupported => "155: QoS Not Supported",
            ReturnCode::UseAnotherServer => "156: Use Another Server",
            ReturnCode::ServerMoved => "157: Server Moved",
            ReturnCode::ConnectionRateExceeded => "159: Connection Rate Exceeded",
            ReturnCode::KeepAliveTimeout => "141: Keep Alive Timeout",
            ReturnCode::ReceiveMaximumExceeded => "147: Receive Maximum Exceeded",
            ReturnCode::TopicAliasInvalid => "148: Topic Alias Invalid",
        }
    }
}

} // verus!
