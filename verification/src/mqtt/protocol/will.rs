//! The will of a client: the message that the broker publishes for it when it goes
//! away without saying goodbye.
use vstd::prelude::*;

use super::super::QoS;
use super::property::{clone_users, pair_views, PropertyUser};
use super::publish::{PublishOptions, PublishOptionsView};
use super::wire::copy_bytes;

verus! {

/// The options of a will: those of its message, and how long to wait before
/// publishing it.
pub struct WillOptions {
    pub options: PublishOptions,
    pub will_delay_interval: Option<u32>,
}

impl WillOptions {
    /// The options of a will that is published at once.
    pub fn from(options: PublishOptions) -> (r: Self)
        ensures
            r.options == options,
            r.will_delay_interval is None,
    {
        WillOptions { options, will_delay_interval: None }
    }
}

impl Default for WillOptions {
    fn default() -> (r: Self)
        ensures
            r.options == PublishOptions::empty(),
            r.will_delay_interval is None,
    {
        WillOptions { options: PublishOptions::default(), will_delay_interval: None }
    }
}

/// A will, as the CONNECT packet gives it.
pub struct Will {
    pub topic: String,
    pub payload: Vec<u8>,
    pub qos: QoS,
    pub retain: bool,
    pub user_properties: Vec<PropertyUser>,
    pub options: WillOptions,
}

/// A will as plain values.
pub struct WillView {
    pub topic: Seq<char>,
    pub payload: Seq<u8>,
    pub qos: QoS,
    pub retain: bool,
    pub user_properties: Seq<(Seq<char>, Seq<char>)>,
    pub options: PublishOptionsView,
    pub will_delay_interval: Option<u32>,
}

impl View for Will {
    type V = WillView;

    open spec fn view(&self) -> WillView {
        WillView {
            topic: self.topic@,
            payload: self.payload@,
            qos: self.qos,
            retain: self.retain,
            user_properties: pair_views(self.user_properties@),
            options: self.options.options@,
            will_delay_interval: self.options.will_delay_interval,
        }
    }
}

impl Clone for PublishOptions {
    fn clone(&self) -> (r: Self)
        ensures
            r@ == self@,
    {
        PublishOptions {
            expiry: self.expiry,
            expiry_at: self.expiry_at,
            topic_alias: self.topic_alias,
            payload_format_indicator: self.payload_format_indicator,
            content_type: match &self.content_type {
                Some(s) => Some(s.clone()),
                None => None,
            },
            response_topic: match &self.response_topic {
                Some(s) => Some(s.clone()),
                None => None,
            },
            correlation_data: match &self.correlation_data {
                Some(b) => Some(copy_bytes(b.as_slice())),
                None => None,
            },
            subscription_identifier: self.subscription_identifier,
        }
    }
}

impl Clone for Will {
    fn clone(&self) -> (r: Self)
        ensures
            r@ == self@,
    {
        Will {
            topic: self.topic.clone(),
            payload: copy_bytes(self.payload.as_slice()),
            qos: self.qos,
            retain: self.retain,
            user_properties: clone_users(&self.user_properties),
            options: WillOptions {
                options: self.options.options.clone(),
                will_delay_interval: self.options.will_delay_interval,
            },
        }
    }
}

} // verus!
