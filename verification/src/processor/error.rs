//! Errors of message processors.
use vstd::prelude::*;

verus! {

/// What went wrong while a processor handled a message.
pub enum ProcessorError {
    InternalError,
    InvalidConfiguration(String),
    /// an error of the WebAssembly runtime, as its message
    WasmError(String),
    ProcessorError(String),
}

} // verus!
