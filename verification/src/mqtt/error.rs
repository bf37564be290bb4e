//! Errors of the MQTT protocol layer.
use vstd::prelude::*;

use super::code::ReturnCode;

verus! {

/// What went wrong while decoding, encoding or handling an MQTT packet.
#[derive(Clone, Copy, PartialEq, Eq, Structural, Debug)]
pub enum MqttProtocolError {
    /// a message could not be handed to the broker task
    BrokerChannelSendError,
    /// a message could not be handed to a client task
    StackChannelSendError,
    /// a reply never came back
    OneshotReceiveError,
    InternalError,
    /// the packet ended before a field that it announces
    Disconnect,
    /// the client is disconnected with this reason
    Disconnected(ReturnCode),
    InvalidFixedHeader,
    InvalidMessageType,
    InvalidQoS,
    InvalidProtocolName,
    InvalidProtocolVersion,
    MalformedPayload,
    InvalidProperty,
    InvalidTopicFilter,
    InvalidReturnCode(u8),
}

} // verus!
