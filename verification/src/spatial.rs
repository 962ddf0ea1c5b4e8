//! Qualifiers of delivered spatial placement and bounds.
use vstd::prelude::*;

verus! {

/// Whether baked graphics carry an explicit site registration.
#[derive(Clone, Copy, Debug, PartialEq, Eq, Structural)]
pub enum SitePlacementStatus {
    Unregistered,
    Explicit,
}

/// Whether bounds cover the whole object or only its extracted meshes.
#[derive(Clone, Copy, Debug, PartialEq, Eq, Structural)]
pub enum BoundsCompleteness {
    ExtractedMeshSubset,
    CompleteObject,
}

} // verus!
