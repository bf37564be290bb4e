//! What the broker asks of the operator.
use vstd::prelude::*;

use crate::mqtt::protocol::property::PropertyUser;
use crate::mqtt::protocol::publish::PublishOptions;
use crate::mqtt::QoS;

verus! {

/// A request to the matcher or the router.
pub enum OperatorCommand {
    /// `client_id` subscribes to the topic filter `topic`.
    Subscribe {
        client_id: String,
        share_group: Option<String>,
        topic: String,
        qos: QoS,
        no_local: bool,
        subscription_id: Option<u32>,
        persist: bool,
    },
    /// `client_id` unsubscribes from the topic filter `topic`.
    Unsubscribe { client_id: String, share_group: Option<String>, topic: String },
    /// Every subscription of `client_id` ends.
    RemoveClient { client_id: String },
    /// `client_id` publishes a message on `topic`.
    Publish {
        client_id: String,
        retain: bool,
        qos: QoS,
        topic: String,
        payload: Vec<u8>,
        user_properties: Vec<PropertyUser>,
        options: PublishOptions,
    },
}

} // verus!
