//! Events that a storage backend sends to its storage.
use vstd::prelude::*;

verus! {

/// An event from a backend.
#[derive(Debug, Clone, Copy, PartialEq, Eq, Structural)]
pub enum BackendEvent {
    /// Some value was updated.
    NotifyValueUpdate,
}

} // verus!
