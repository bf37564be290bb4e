//! What the broker keeps for each connected client.
pub mod session;
pub mod shared;
pub mod store;
