pub mod chain;
pub mod client;
pub mod command;
pub mod matcher;
pub mod router;
pub mod sink;
pub mod trie;
pub mod utils;
