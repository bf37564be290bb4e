//! Message processors: their configuration and their errors.
use vstd::prelude::*;

pub mod config;
pub mod error;
pub mod message;
