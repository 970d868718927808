//! Stable identifiers for documents, meshes and entities.

use vstd::prelude::*;

verus! {

/// Identifies one SVG document in the host's asset store.
#[derive(Clone, Copy, Debug, PartialEq, Eq, Structural, Hash)]
pub struct DocHandle(pub u64);

/// Identifies one generated mesh in the mesh store.
#[derive(Clone, Copy, Debug, PartialEq, Eq, Structural, Hash)]
pub struct MeshHandle(pub u64);

/// Identifies one entity of the host's scene.
#[derive(Clone, Copy, Debug, PartialEq, Eq, Structural, Hash)]
pub struct EntityId(pub u64);

/// Whether an attachment slot already holds `mesh`.
pub fn slot_holds(slot: Option<MeshHandle>, mesh: MeshHandle) -> (held: bool)
    ensures
        held == (slot == Some(mesh)),
{
    match slot {
        Some(current) => current == mesh,
        None => false,
    }
}

} // verus!
