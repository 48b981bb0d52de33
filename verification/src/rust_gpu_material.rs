//! A material type with statically-known vertex and fragment entry points.

use vstd::prelude::*;

use crate::entry_point::EntryPoint;

verus! {

/// A material kind whose shader stages are compiled entry points: the
/// vertex and fragment entry-point descriptors are fixed per material type
/// at build time.
pub trait RustGpuMaterial {
    type Vertex: EntryPoint;

    type Fragment: EntryPoint;
}

} // verus!
