//! A processor as configured.
use vstd::prelude::*;

use crate::processor::config::ProcessorConfig;

verus! {

/// A processor instance: its identifier and its configuration.
pub struct Processor {
    pub uuid: String,
    pub config: ProcessorConfig,
}

} // verus!
