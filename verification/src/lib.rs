//! An MQTT broker: packet encoding, session state, retained messages and the routing
//! of messages to subscribers.
use vstd::prelude::*;

pub mod cli;
pub mod clock;
pub mod config;
pub mod processor;
pub mod topic;
pub mod operator;
pub mod mqtt;
