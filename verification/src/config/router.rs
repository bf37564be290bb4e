//! A route as configured.
use vstd::prelude::*;

verus! {

/// Messages on `topic`, from `client_id` when it is given, go through the chains
/// named in `chain`.
pub struct Router {
    pub topic: String,
    pub client_id: Option<String>,
    pub chain: Vec<String>,
}

} // verus!
