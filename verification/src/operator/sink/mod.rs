//! Where the router hands messages for delivery.
use vstd::prelude::*;

use super::matcher::Delivery;
use crate::mqtt::command::ClientCommand;
use crate::mqtt::QoS;

verus! {

/// A sink that drops every message.
pub struct DefaultSink;

impl DefaultSink {
    /// A sink that drops every message.
    pub fn new() -> (r: Box<Self>) {
        Box::new(DefaultSink)
    }
}

/// What a client's sink makes of a delivery: the client it goes to, the command that
/// hands the message to the client's connection, and whether the broker is to keep
/// the message when the connection cannot take it now (a lasting subscription's
/// message above QoS 0).
pub fn sink_command(d: Delivery) -> (r: (String, ClientCommand, bool))
    ensures
        r == (
            d.message.client_id,
            ClientCommand::Publish {
                topic: d.message.topic,
                qos: d.message.qos,
                retain: d.message.retain,
                payload: d.message.payload,
                user_properties: d.message.user_properties,
                options: d.message.options,
            },
            d.persist && d.message.qos != QoS::AtMostOnce,
        ),
{
    let keep = d.persist && d.message.qos != QoS::AtMostOnce;
    let m = d.message;
    let cmd = ClientCommand::Publish {
        topic: m.topic,
        qos: m.qos,
        retain: m.retain,
        payload: m.payload,
        user_properties: m.user_properties,
        options: m.options,
    };
    (m.client_id, cmd, keep)
}

} // verus!
