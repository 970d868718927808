//! The synchronisation protocol as a state machine over mathematical state.
//!
//! A [`WorldState`] records, for every document handle the host has spoken
//! of, where the document stands in its lifecycle, which mesh is current for
//! it and which entities reference it; the mesh store; and, for every bound
//! entity, the document it references and what its 2D and 3D attachment
//! slots hold. Each transition gives the next state and the actions the host
//! has to carry out. The executable world refines these transitions.

use vstd::prelude::*;
use crate::handles::{DocHandle, EntityId, MeshHandle};
use crate::mesh::MeshView;

verus! {

/// Where a document stands in its lifecycle. A handle the world has no
/// record of is `Unloaded`.
#[derive(Clone, Copy, Debug, PartialEq, Eq, Structural)]
pub enum DocState {
    /// No asset event has been seen for the handle.
    Unloaded,
    /// The document was created; its first mesh is being generated.
    Loading,
    /// The current mesh is up to date with the document.
    Ready,
    /// The document changed; the current mesh is about to be replaced.
    Modified,
    /// The document is gone. The handle is never used again.
    Removed,
}

/// The document an entity references and what its attachment slots hold.
/// A slot is `None` where the entity has no attachment of that kind.
#[derive(Clone, Copy, Debug, PartialEq, Eq)]
pub struct EntityMeshBinding {
    pub document: DocHandle,
    pub mesh_2d: Option<MeshHandle>,
    pub mesh_3d: Option<MeshHandle>,
}

/// A lifecycle event of the asset store.
#[derive(Clone, Copy, Debug, PartialEq, Eq)]
pub enum AssetEvent {
    Created { handle: DocHandle },
    Modified { handle: DocHandle },
    Removed { handle: DocHandle },
}

/// What the host has to do after a transition, in the order given.
#[derive(Clone, Copy, Debug, PartialEq, Eq)]
pub enum Action {
    /// Tessellate the current snapshot of the document and install the
    /// outcome.
    Tessellate { document: DocHandle },
    /// Make the newly stored mesh available to the renderer.
    Upload { mesh: MeshHandle },
    /// Point the entity's 2D attachment at the mesh.
    Attach2d { entity: EntityId, mesh: MeshHandle },
    /// Point the entity's 3D attachment at the mesh.
    Attach3d { entity: EntityId, mesh: MeshHandle },
    /// Free the renderer's copy of a mesh that has left the store.
    Release { mesh: MeshHandle },
    /// Remove the entity together with its descendants.
    Despawn { entity: EntityId },
}

/// Why the world refused an input.
#[derive(Clone, Copy, Debug, PartialEq, Eq)]
pub enum SyncError {
    /// The input does not fit the state the document is in.
    InvariantViolation,
    /// No mesh handle is left to give out.
    ResourceExhaustion,
}

/// What the world knows of one document.
#[verifier::ext_equal]
pub struct DocRecord {
    pub state: DocState,
    /// The current mesh, present exactly in `Ready` and `Modified`.
    pub mesh: Option<MeshHandle>,
    /// The entities that reference the document, in the order they were
    /// bound.
    pub bound: Seq<EntityId>,
}

/// A mesh in the store with the document it was generated from.
#[verifier::ext_equal]
pub struct StoredMeshView {
    pub document: DocHandle,
    pub mesh: MeshView,
}

/// The whole state. The maps are keyed by the raw identifiers.
#[verifier::ext_equal]
pub struct WorldState {
    pub docs: Map<u64, DocRecord>,
    pub meshes: Map<u64, StoredMeshView>,
    pub bindings: Map<u64, EntityMeshBinding>,
    /// The handle the next installed mesh receives.
    pub next_mesh: u64,
}

impl EntityMeshBinding {
    /// The binding with every slot it has pointed at `m`.
    pub open spec fn attached(self, m: MeshHandle) -> EntityMeshBinding {
        EntityMeshBinding {
            document: self.document,
            mesh_2d: if self.mesh_2d is Some {
                Some(m)
            } else {
                None
            },
            mesh_3d: if self.mesh_3d is Some {
                Some(m)
            } else {
                None
            },
        }
    }

    /// Every slot the binding has holds `m`.
    pub open spec fn follows(self, m: MeshHandle) -> bool {
        &&& self.mesh_2d is Some ==> self.mesh_2d == Some(m)
        &&& self.mesh_3d is Some ==> self.mesh_3d == Some(m)
    }

    /// No slot of the binding holds `m`.
    pub open spec fn avoids(self, m: MeshHandle) -> bool {
        &&& self.mesh_2d != Some(m)
        &&& self.mesh_3d != Some(m)
    }

    /// The attachments that bring entity `e` with this binding to `m`: one
    /// for each slot that is present and holds something else, 2D first.
    pub open spec fn attach_actions(self, e: EntityId, m: MeshHandle) -> Seq<Action> {
        let first = if self.mesh_2d is Some && self.mesh_2d != Some(m) {
            seq![Action::Attach2d { entity: e, mesh: m }]
        } else {
            Seq::empty()
        };
        let second = if self.mesh_3d is Some && self.mesh_3d != Some(m) {
            seq![Action::Attach3d { entity: e, mesh: m }]
        } else {
            Seq::empty()
        };
        first + second
    }
}

impl AssetEvent {
    /// The document the event is about.
    pub open spec fn document(self) -> DocHandle {
        match self {
            AssetEvent::Created { handle } => handle,
            AssetEvent::Modified { handle } => handle,
            AssetEvent::Removed { handle } => handle,
        }
    }
}

/// The attachments that bring the entities of `bound`, in order, to `m`.
pub open spec fn attach_all(
    bound: Seq<EntityId>,
    bindings: Map<u64, EntityMeshBinding>,
    m: MeshHandle,
) -> Seq<Action>
    decreases bound.len(),
{
    if bound.len() == 0 {
        Seq::empty()
    } else {
        attach_all(bound.drop_last(), bindings, m) + bindings[bound.last().0].attach_actions(
            bound.last(),
            m,
        )
    }
}

/// One `Despawn` for each entity of `bound`, in order.
pub open spec fn despawn_all(bound: Seq<EntityId>) -> Seq<Action> {
    bound.map_values(|e: EntityId| Action::Despawn { entity: e })
}

/// The release of a mesh that has left the store, if there was one.
pub open spec fn release_of(mesh: Option<MeshHandle>) -> Seq<Action> {
    match mesh {
        Some(m) => seq![Action::Release { mesh: m }],
        None => Seq::empty(),
    }
}

impl WorldState {
    /// The world before anything has happened, with `first` as the handle
    /// of the first mesh it will store.
    pub open spec fn starting_at(first: u64) -> WorldState {
        WorldState {
            docs: Map::empty(),
            meshes: Map::empty(),
            bindings: Map::empty(),
            next_mesh: first,
        }
    }

    /// The world before anything has happened.
    pub open spec fn empty() -> WorldState {
        WorldState::starting_at(0)
    }

    /// The record of `d`; that of an unknown handle is unloaded and unbound.
    pub open spec fn record(self, d: DocHandle) -> DocRecord {
        if self.docs.contains_key(d.0) {
            self.docs[d.0]
        } else {
            DocRecord { state: DocState::Unloaded, mesh: None, bound: Seq::empty() }
        }
    }

    pub open spec fn state_of(self, d: DocHandle) -> DocState {
        self.record(d).state
    }

    pub open spec fn current_mesh(self, d: DocHandle) -> Option<MeshHandle> {
        self.record(d).mesh
    }

    /// Whether `e` is bound to `d`.
    pub open spec fn references(self, e: EntityId, d: DocHandle) -> bool {
        self.bindings.contains_key(e.0) && self.bindings[e.0].document == d
    }

    // ----- invariant ---------------------------------------------------

    /// Every bound entity is listed under the document it references.
    pub open spec fn index_complete(self) -> bool {
        forall|e: u64| #[trigger]
            self.bindings.contains_key(e) ==> {
                &&& self.docs.contains_key(self.bindings[e].document.0)
                &&& self.docs[self.bindings[e].document.0].bound.contains(EntityId(e))
            }
    }

    /// Every entity listed under a document is bound to it.
    pub open spec fn index_sound(self) -> bool {
        forall|d: u64, i: int|
            #![trigger self.docs[d].bound[i]]
            self.docs.contains_key(d) && 0 <= i < self.docs[d].bound.len() ==> {
                &&& self.bindings.contains_key(self.docs[d].bound[i].0)
                &&& self.bindings[self.docs[d].bound[i].0].document == DocHandle(d)
            }
    }

    /// No entity is listed twice, and a removed document lists none.
    pub open spec fn index_distinct(self) -> bool {
        forall|d: u64| #[trigger]
            self.docs.contains_key(d) ==> {
                &&& self.docs[d].bound.no_duplicates()
                &&& self.docs[d].state == DocState::Removed ==> self.docs[d].bound.len() == 0
            }
    }

    /// A document has a current mesh exactly while it is `Ready` or
    /// `Modified`, and that mesh is in the store under the document's name.
    pub open spec fn meshes_current(self) -> bool {
        forall|d: u64| #[trigger]
            self.docs.contains_key(d) ==> match self.docs[d].mesh {
                Some(m) => {
                    &&& self.docs[d].state == DocState::Ready || self.docs[d].state
                        == DocState::Modified
                    &&& self.meshes.contains_key(m.0)
                    &&& self.meshes[m.0].document == DocHandle(d)
                },
                None => self.docs[d].state != DocState::Ready && self.docs[d].state
                    != DocState::Modified,
            }
    }

    /// Every stored mesh is the current mesh of the document it was
    /// generated from, is well formed, and has a handle that was given out
    /// before.
    pub open spec fn store_owned(self) -> bool {
        forall|m: u64| #[trigger]
            self.meshes.contains_key(m) ==> {
                &&& m < self.next_mesh
                &&& self.meshes[m].mesh.well_formed()
                &&& self.docs.contains_key(self.meshes[m].document.0)
                &&& self.docs[self.meshes[m].document.0].mesh == Some(MeshHandle(m))
            }
    }

    /// Every slot of an entity whose document has a current mesh holds that
    /// mesh.
    pub open spec fn synced(self) -> bool {
        forall|e: u64| #[trigger]
            self.bindings.contains_key(e) ==> match self.current_mesh(self.bindings[e].document) {
                Some(m) => self.bindings[e].follows(m),
                None => true,
            }
    }

    /// What holds of the world between any two transitions.
    pub open spec fn inv(self) -> bool {
        &&& self.index_complete()
        &&& self.index_sound()
        &&& self.index_distinct()
        &&& self.meshes_current()
        &&& self.store_owned()
        &&& self.synced()
    }

    // ----- entity binder -----------------------------------------------

    /// The world without the binding of `e`, if it had one.
    pub open spec fn unbind(self, e: EntityId) -> WorldState {
        if self.bindings.contains_key(e.0) {
            let d = self.bindings[e.0].document;
            let rec = self.record(d);
            WorldState {
                docs: self.docs.insert(
                    d.0,
                    DocRecord { state: rec.state, mesh: rec.mesh, bound: rec.bound.remove_value(e) },
                ),
                meshes: self.meshes,
                bindings: self.bindings.remove(e.0),
                next_mesh: self.next_mesh,
            }
        } else {
            self
        }
    }

    /// A binding to `d` is taken unless the document has been removed.
    pub open spec fn bind_accepts(self, d: DocHandle) -> bool {
        self.state_of(d) != DocState::Removed
    }

    /// What is recorded for an entity that comes to `d` with the given
    /// slots: where the document has a current mesh the slots are pointed at
    /// it at once, else they stay as they came.
    pub open spec fn bound_as(self, given: EntityMeshBinding) -> EntityMeshBinding {
        match self.current_mesh(given.document) {
            Some(m) => given.attached(m),
            None => given,
        }
    }

    /// The world after entity `e` has gained or changed its reference. Any
    /// earlier binding of `e` is dropped. Unless the document has been
    /// removed, `e` is listed last under it and bound as `bound_as` says.
    pub open spec fn bind(self, e: EntityId, given: EntityMeshBinding) -> WorldState {
        let base = self.unbind(e);
        if self.bind_accepts(given.document) {
            let d = given.document;
            let rec = base.record(d);
            WorldState {
                docs: base.docs.insert(
                    d.0,
                    DocRecord { state: rec.state, mesh: rec.mesh, bound: rec.bound.push(e) },
                ),
                meshes: base.meshes,
                bindings: base.bindings.insert(e.0, self.bound_as(given)),
                next_mesh: base.next_mesh,
            }
        } else {
            base
        }
    }

    /// The attachments the host owes entity `e` after `bind`.
    pub open spec fn bind_actions(self, e: EntityId, given: EntityMeshBinding) -> Seq<Action> {
        match self.current_mesh(given.document) {
            Some(m) => given.attach_actions(e, m),
            None => Seq::empty(),
        }
    }

    // ----- asset change tracker ----------------------------------------

    /// Whether the event fits the state its document is in. `Created` needs
    /// an unloaded document; `Modified` and `Removed` need one that was
    /// created and not yet removed.
    pub open spec fn event_accepts(self, ev: AssetEvent) -> bool {
        match ev {
            AssetEvent::Created { handle } => self.state_of(handle) == DocState::Unloaded,
            AssetEvent::Modified { handle } => {
                let s = self.state_of(handle);
                s == DocState::Loading || s == DocState::Ready || s == DocState::Modified
            },
            AssetEvent::Removed { handle } => {
                let s = self.state_of(handle);
                s == DocState::Loading || s == DocState::Ready || s == DocState::Modified
            },
        }
    }

    /// The record of `d` moved to `state`.
    pub open spec fn with_state(self, d: DocHandle, state: DocState) -> WorldState {
        let rec = self.record(d);
        WorldState {
            docs: self.docs.insert(d.0, DocRecord { state, mesh: rec.mesh, bound: rec.bound }),
            meshes: self.meshes,
            bindings: self.bindings,
            next_mesh: self.next_mesh,
        }
    }

    /// The world after `d` was removed: its mesh has left the store, the
    /// entities that referenced it are gone, the record is terminal.
    pub open spec fn removed(self, d: DocHandle) -> WorldState {
        WorldState {
            docs: self.docs.insert(
                d.0,
                DocRecord { state: DocState::Removed, mesh: None, bound: Seq::empty() },
            ),
            meshes: match self.current_mesh(d) {
                Some(m) => self.meshes.remove(m.0),
                None => self.meshes,
            },
            bindings: Map::new(
                |e: u64| self.bindings.contains_key(e) && self.bindings[e].document != d,
                |e: u64| self.bindings[e],
            ),
            next_mesh: self.next_mesh,
        }
    }

    /// The world after an event. An event that is not accepted changes
    /// nothing. `Created` starts loading. `Modified` marks a ready document
    /// as modified and is absorbed while a mesh is already being generated.
    /// `Removed` is `removed`.
    pub open spec fn apply(self, ev: AssetEvent) -> WorldState {
        if !self.event_accepts(ev) {
            self
        } else {
            match ev {
                AssetEvent::Created { handle } => self.with_state(handle, DocState::Loading),
                AssetEvent::Modified { handle } => if self.state_of(handle) == DocState::Ready {
                    self.with_state(handle, DocState::Modified)
                } else {
                    self
                },
                AssetEvent::Removed { handle } => self.removed(handle),
            }
        }
    }

    /// The actions an accepted event asks for. `Created`, and `Modified` of
    /// a ready document, ask for one tessellation. `Removed` despawns the
    /// bound entities in order and then releases the mesh.
    pub open spec fn event_actions(self, ev: AssetEvent) -> Seq<Action> {
        match ev {
            AssetEvent::Created { handle } => seq![Action::Tessellate { document: handle }],
            AssetEvent::Modified { handle } => if self.state_of(handle) == DocState::Ready {
                seq![Action::Tessellate { document: handle }]
            } else {
                Seq::empty()
            },
            AssetEvent::Removed { handle } => despawn_all(self.record(handle).bound) + release_of(
                self.current_mesh(handle),
            ),
        }
    }

    /// A generated mesh is taken for a document that waits for one.
    pub open spec fn install_accepts(self, d: DocHandle) -> bool {
        self.state_of(d) == DocState::Loading || self.state_of(d) == DocState::Modified
    }

    /// The world after `mesh` was installed for `d`: it is stored under the
    /// next handle, the previous mesh has left the store, every entity bound
    /// to `d` points at the new handle, and the document is ready.
    pub open spec fn install(self, d: DocHandle, mesh: MeshView) -> WorldState {
        let rec = self.record(d);
        let m = MeshHandle(self.next_mesh);
        let kept = match rec.mesh {
            Some(previous) => self.meshes.remove(previous.0),
            None => self.meshes,
        };
        WorldState {
            docs: self.docs.insert(
                d.0,
                DocRecord { state: DocState::Ready, mesh: Some(m), bound: rec.bound },
            ),
            meshes: kept.insert(m.0, StoredMeshView { document: d, mesh }),
            bindings: Map::new(
                |e: u64| self.bindings.contains_key(e),
                |e: u64|
                    if self.bindings[e].document == d {
                        self.bindings[e].attached(m)
                    } else {
                        self.bindings[e]
                    },
            ),
            next_mesh: (self.next_mesh + 1) as u64,
        }
    }

    /// The actions of an installation: upload the new mesh, attach it to the
    /// bound entities in order, and only then release the previous mesh.
    pub open spec fn install_actions(self, d: DocHandle) -> Seq<Action> {
        let rec = self.record(d);
        let m = MeshHandle(self.next_mesh);
        seq![Action::Upload { mesh: m }] + attach_all(rec.bound, self.bindings, m) + release_of(
            rec.mesh,
        )
    }
}

/// An entity whose reference to a document was added or changed, with the
/// slots it holds at that moment.
#[derive(Clone, Copy, Debug, PartialEq, Eq)]
pub struct BindingChange {
    pub entity: EntityId,
    pub binding: EntityMeshBinding,
}

impl WorldState {
    // ----- passes --------------------------------------------------------

    /// The world after a queue of events, taken in arrival order.
    pub open spec fn apply_all(self, events: Seq<AssetEvent>) -> WorldState
        decreases events.len(),
    {
        if events.len() == 0 {
            self
        } else {
            self.apply_all(events.drop_last()).apply(events.last())
        }
    }

    /// The actions of a queue of events: those of each accepted event, in
    /// arrival order.
    pub open spec fn actions_of_all(self, events: Seq<AssetEvent>) -> Seq<Action>
        decreases events.len(),
    {
        if events.len() == 0 {
            Seq::empty()
        } else {
            let reached = self.apply_all(events.drop_last());
            self.actions_of_all(events.drop_last()) + (if reached.event_accepts(events.last()) {
                reached.event_actions(events.last())
            } else {
                Seq::empty()
            })
        }
    }

    /// The places in the queue of the events that were refused.
    pub open spec fn refused_of_all(self, events: Seq<AssetEvent>) -> Seq<usize>
        decreases events.len(),
    {
        if events.len() == 0 {
            Seq::empty()
        } else {
            let reached = self.apply_all(events.drop_last());
            self.refused_of_all(events.drop_last()) + (if reached.event_accepts(events.last()) {
                Seq::empty()
            } else {
                seq![(events.len() - 1) as usize]
            })
        }
    }

    /// The world after a list of binding changes, taken in order.
    pub open spec fn bind_all(self, changes: Seq<BindingChange>) -> WorldState
        decreases changes.len(),
    {
        if changes.len() == 0 {
            self
        } else {
            self.bind_all(changes.drop_last()).bind(changes.last().entity, changes.last().binding)
        }
    }

    /// The attachments of a list of binding changes: those of each accepted
    /// change, in order.
    pub open spec fn bind_actions_of_all(self, changes: Seq<BindingChange>) -> Seq<Action>
        decreases changes.len(),
    {
        if changes.len() == 0 {
            Seq::empty()
        } else {
            let reached = self.bind_all(changes.drop_last());
            let last = changes.last();
            self.bind_actions_of_all(changes.drop_last()) + (if reached.bind_accepts(
                last.binding.document,
            ) {
                reached.bind_actions(last.entity, last.binding)
            } else {
                Seq::empty()
            })
        }
    }

    /// The places in the list of the changes that were refused.
    pub open spec fn refused_binds_of_all(self, changes: Seq<BindingChange>) -> Seq<usize>
        decreases changes.len(),
    {
        if changes.len() == 0 {
            Seq::empty()
        } else {
            let reached = self.bind_all(changes.drop_last());
            self.refused_binds_of_all(changes.drop_last()) + (if reached.bind_accepts(
                changes.last().binding.document,
            ) {
                Seq::empty()
            } else {
                seq![(changes.len() - 1) as usize]
            })
        }
    }
}

} // verus!
