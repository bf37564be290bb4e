//! A processing chain as configured.
use vstd::prelude::*;

verus! {

/// A named chain of processors, and whether its output is delivered to subscribers.
pub struct Chain {
    pub name: String,
    pub processors: Vec<String>,
    pub delivery: bool,
}

} // verus!
