use vstd::prelude::*;

verus! {

/// Errors raised by the library's own logic.
#[derive(Debug)]
pub enum EngineError {
    /// No voice model is registered under the given identifier.
    ModelNotFound(String),
    /// `hound` refused a WAVE file.
    Hound(hound::Error),
}

} // verus!
