//! Commands the broker hands to a client's connection.
use vstd::prelude::*;

use super::code::ReturnCode;
use super::protocol::property::{pair_views, PropertyUser};
use super::protocol::publish::{PublishOptions, PublishOptionsView};
use super::QoS;

verus! {

/// What the broker tells a client's connection to do.
pub enum ClientCommand {
    /// close the connection with this reason
    Disconnect(ReturnCode),
    /// deliver this message
    Publish {
        topic: String,
        qos: QoS,
        retain: bool,
        payload: Vec<u8>,
        user_properties: Vec<PropertyUser>,
        options: PublishOptions,
    },
}

/// A command as plain values.
pub enum ClientCommandView {
    Disconnect(ReturnCode),
    Publish {
        topic: Seq<char>,
        qos: QoS,
        retain: bool,
        payload: Seq<u8>,
        user_properties: Seq<(Seq<char>, Seq<char>)>,
        options: PublishOptionsView,
    },
}

impl View for ClientCommand {
    type V = ClientCommandView;

    open spec fn view(&self) -> ClientCommandView {
        match self {
            ClientCommand::Disconnect(c) => ClientCommandView::Disconnect(*c),
            ClientCommand::Publish { topic, qos, retain, payload, user_properties, options } =>
                ClientCommandView::Publish {
                topic: topic@,
                qos: *qos,
                retain: *retain,
                payload: payload@,
                user_properties: pair_views(user_properties@),
                options: options@,
            },
        }
    }
}

} // verus!
