//! A message on its way through the processors, and the names used in its metadata.
use vstd::prelude::*;

use crate::mqtt::protocol::property::{pair_views, PropertyUser};
use crate::mqtt::protocol::publish::{PublishOptions, PublishOptionsView};
use crate::mqtt::QoS;

verus! {

/// A published message as the processors and the subscribers' sinks receive it.
pub struct Message {
    pub qos: QoS,
    pub retain: bool,
    pub client_id: String,
    pub topic: String,
    pub payload: Vec<u8>,
    pub user_properties: Vec<PropertyUser>,
    pub options: PublishOptions,
}

/// A message as plain values.
pub struct MessageView {
    pub qos: QoS,
    pub retain: bool,
    pub client_id: Seq<char>,
    pub topic: Seq<char>,
    pub payload: Seq<u8>,
    pub user_properties: Seq<(Seq<char>, Seq<char>)>,
    pub options: PublishOptionsView,
}

impl View for Message {
    type V = MessageView;

    open spec fn view(&self) -> MessageView {
        MessageView {
            qos: self.qos,
            retain: self.retain,
            client_id: self.client_id@,
            topic: self.topic@,
            payload: self.payload@,
            user_properties: pair_views(self.user_properties@),
            options: self.options@,
        }
    }
}

impl Message {
    /// A message from `client_id` on `topic`, with no options.
    pub fn new(
        client_id: String,
        topic: String,
        qos: QoS,
        retain: bool,
        payload: Vec<u8>,
        user_properties: Vec<PropertyUser>,
    ) -> (r: Self)
        ensures
            r == (Message {
                qos,
                retain,
                client_id,
                topic,
                payload,
                user_properties,
                options: PublishOptions::empty(),
            }),
    {
        Message {
            client_id,
            topic,
            qos,
            retain,
            payload,
            user_properties,
            options: PublishOptions::default(),
        }
    }

    /// This message with the options `options`.
    pub fn with_options(self, options: PublishOptions) -> (r: Self)
        ensures
            r == (Message { options, ..self }),
    {
        Message { options, ..self }
    }

    /// This message with its options carrying the subscription identifier
    /// `subscription_identifier`.
    pub fn with_subscription_identifier(self, subscription_identifier: Option<u32>) -> (r: Self)
        ensures
            r == (Message {
                options: PublishOptions { subscription_identifier, ..self.options },
                ..self
            }),
    {
        let options = self.options.with_subscription_identifier(subscription_identifier);
        Message { options, ..self }
    }
}

/// A metadata key that the broker itself sets.
pub enum MetadataKey {
    PayloadFormat,
    ParsedPayloadJson,
}

/// The format a payload was found to have.
pub enum MetadataPayloadFormat {
    Json,
    String,
}

impl MetadataKey {
    /// The name of the key.
    pub fn as_str(&self) -> (r: &str)
        ensures
            r@ == match self {
                MetadataKey::PayloadFormat => "__payload_format"@,
                MetadataKey::ParsedPayloadJson => "__parsed_payload_json"@,
            },
    {
        match self {
            MetadataKey::PayloadFormat => "__payload_format",
            MetadataKey::ParsedPayloadJson => "__parsed_payload_json",
        }
    }
}

impl MetadataPayloadFormat {
    /// The name of the format.
    pub fn as_str(&self) -> (r: &str)
        ensures
            r@ == match self {
                MetadataPayloadFormat::Json => "json"@,
                MetadataPayloadFormat::String => "string"@,
            },
    {
        match self {
            MetadataPayloadFormat::Json => "json",
            MetadataPayloadFormat::String => "string",
        }
    }
}

} // verus!
