//! Messages of the network progress bar.
use vstd::prelude::*;

verus! {

/// Messages of the progress bar.
#[derive(Debug, Clone, Copy, PartialEq, Eq, Structural)]
pub enum ProgressMessage {
    /// The user asked to cancel the operation.
    Cancel,
}

} // verus!
