//! Status messages for the user.

use vstd::prelude::*;

verus! {

/// Receives the status messages of an executor.
pub trait ProgressCallback {
    /// Takes one message. Nothing depends on what is done with it.
    fn on_message(&self, message: &str);
}

/// A receiver that drops every message.
#[derive(Debug, Clone, Copy)]
pub struct NoopProgress;

impl ProgressCallback for NoopProgress {
    fn on_message(&self, message: &str) {
    }
}

} // verus!
