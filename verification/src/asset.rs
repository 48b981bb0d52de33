//! Handles and lifecycle events of the host's asset system, as this library
//! sees them: a handle is an opaque identifier, and an event reports that
//! the asset behind a handle was created, modified or removed.

use vstd::prelude::*;

verus! {

/// An opaque identifier for a loaded asset.
#[derive(Debug, Clone, Copy, PartialEq, Eq, Hash, Structural)]
pub struct HandleId(pub u64);

impl View for HandleId {
    type V = HandleId;

    open spec fn view(&self) -> HandleId {
        *self
    }
}

impl DeepView for HandleId {
    type V = HandleId;

    open spec fn deep_view(&self) -> HandleId {
        *self
    }
}

/// A lifecycle event of the asset behind a handle.
#[derive(Debug, Clone, Copy, PartialEq, Eq, Structural)]
pub enum AssetEvent {
    Created { handle: HandleId },
    Modified { handle: HandleId },
    Removed { handle: HandleId },
}

impl AssetEvent {
    /// The handle the event concerns.
    pub open spec fn spec_handle(self) -> HandleId {
        match self {
            AssetEvent::Created { handle } => handle,
            AssetEvent::Modified { handle } => handle,
            AssetEvent::Removed { handle } => handle,
        }
    }

    /// Whether the event reports new or changed content.
    pub open spec fn is_upsert(self) -> bool {
        self is Created || self is Modified
    }

    /// The handle the event concerns.
    pub fn handle(&self) -> (r: HandleId)
        ensures
            r == self.spec_handle(),
    {
        match self {
            AssetEvent::Created { handle } => *handle,
            AssetEvent::Modified { handle } => *handle,
            AssetEvent::Removed { handle } => *handle,
        }
    }
}

} // verus!
