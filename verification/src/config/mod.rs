//! The broker's configuration, as plain values. Reading it from a file is left to
//! the program around the library.
use vstd::prelude::*;

pub mod chain;
pub mod processor;
pub mod router;

verus! {

/// The whole configuration.
pub struct Config {
    pub node: NodeConfig,
    pub mqtt: MqttConfig,
}

/// The identity of this broker node.
pub struct NodeConfig {
    pub id: String,
}

/// Where the broker listens and how it treats its clients.
pub struct MqttConfig {
    pub listener: MqttListenerConfig,
    pub settings: MqttSettings,
}

/// The address the broker listens on.
pub struct MqttListenerConfig {
    pub host: String,
    pub port: u16,
}

/// Limits and defaults that the broker applies to every client.
#[derive(Clone, Copy, PartialEq, Eq, Structural, Debug)]
pub struct MqttSettings {
    /// the longest topic filter a client may subscribe to, in bytes
    pub max_topic_length: usize,
    /// the longest session expiry interval a client may ask for, in seconds
    pub session_expiry_interval: u32,
    /// the keep alive the broker announces, in seconds
    pub keep_alive: u16,
    /// how many QoS 1 and 2 messages a client may have in flight
    pub max_receive_queue: u16,
    /// the largest packet the broker accepts, in bytes
    pub max_packet_size: u32,
    /// how long before an unacknowledged message is sent again, in seconds
    pub resend_interval: u64,
    /// how many messages the broker keeps for a client that is away
    pub max_store_msgs_per_client: usize,
    /// the most topic aliases a client may use
    pub topic_alias_maximum: u16,
}

} // verus!
