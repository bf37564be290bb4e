//! The configuration of each kind of processor.
use vstd::prelude::*;

verus! {

/// What a processor is and how it is set up.
pub enum ProcessorConfig {
    /// logs each message at `level`
    Logger { level: String },
    /// publishes each message again on `topic`
    Republish { topic: String, qos: Option<u8>, retain: Option<bool>, payload: Option<String> },
    /// sends each message to a web service
    WebHook {
        url: String,
        method: Option<String>,
        headers: Vec<(String, String)>,
        body_template: Option<String>,
        timeout_ms: Option<u64>,
        max_concurrency: Option<usize>,
    },
    /// rewrites the payload of each message through a template
    JsonTransform { template: String },
    /// lets through the messages for which `condition` holds
    Filter { condition: String, on_error_pass: Option<bool> },
    /// runs a WebAssembly module on each message
    Wasm { path: String, cfg: String },
    /// a kind of processor this broker does not know
    Other,
}

} // verus!
