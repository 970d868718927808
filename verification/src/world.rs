//! The executable world: the tables behind the protocol.
//!
//! [`SvgWorld`] owns the document table with its per-document index of bound
//! entities, the mesh store and the binding table. Each operation refines
//! the transition of the same name on [`WorldState`] and hands back the
//! actions the host has to carry out.

use std::collections::HashMap;
use vstd::prelude::*;
use vstd::std_specs::hash::*;
use crate::handles::{slot_holds, DocHandle, EntityId, MeshHandle};
use crate::guarantees::{lemma_apply_inv, lemma_bind_inv, lemma_install_inv, lemma_unbind_inv};
use crate::mesh::{assemble, assemble_spec, path_views, GeneratedMesh, PathResult};
use crate::state::{
    attach_all, despawn_all, release_of, Action, AssetEvent, DocRecord, DocState,
    EntityMeshBinding, StoredMeshView, SyncError, WorldState,
};

verus! {

broadcast use vstd::std_specs::hash::group_hash_axioms;

/// One row of the document table.
struct DocEntry {
    state: DocState,
    mesh: Option<MeshHandle>,
    bound: Vec<EntityId>,
}

/// One row of the mesh store.
struct StoredMesh {
    document: DocHandle,
    mesh: GeneratedMesh,
}

/// The documents, meshes and bindings the plugin keeps in step.
pub struct SvgWorld {
    docs: HashMap<u64, DocEntry>,
    meshes: HashMap<u64, StoredMesh>,
    bindings: HashMap<u64, EntityMeshBinding>,
    next_mesh: u64,
}

impl DocEntry {
    spec fn record(self) -> DocRecord {
        DocRecord { state: self.state, mesh: self.mesh, bound: self.bound@ }
    }
}

impl StoredMesh {
    spec fn stored(self) -> StoredMeshView {
        StoredMeshView { document: self.document, mesh: self.mesh@ }
    }
}

spec fn docs_view(docs: Map<u64, DocEntry>) -> Map<u64, DocRecord> {
    Map::new(|d: u64| docs.contains_key(d), |d: u64| docs[d].record())
}

spec fn meshes_view(meshes: Map<u64, StoredMesh>) -> Map<u64, StoredMeshView> {
    Map::new(|m: u64| meshes.contains_key(m), |m: u64| meshes[m].stored())
}

impl View for SvgWorld {
    type V = WorldState;

    closed spec fn view(&self) -> WorldState {
        WorldState {
            docs: docs_view(self.docs@),
            meshes: meshes_view(self.meshes@),
            bindings: self.bindings@,
            next_mesh: self.next_mesh,
        }
    }
}

/// The index of the first occurrence of `entity` in `list`, or the length of
/// `list` where there is none.
fn position(list: &Vec<EntityId>, entity: EntityId) -> (i: usize)
    ensures
        i <= list.len(),
        i < list.len() ==> list@.index_of_first(entity) == Some(i as int),
        i == list.len() ==> list@.index_of_first(entity) is None,
{
    let mut i: usize = 0;
    while i < list.len()
        invariant
            i <= list.len(),
            forall|j: int| 0 <= j < i ==> list@[j] != entity,
        decreases list.len() - i,
    {
        if list[i] == entity {
            proof {
                list@.index_of_first_ensures(entity);
            }
            return i;
        }
        i += 1;
    }
    proof {
        list@.index_of_first_ensures(entity);
    }
    i
}

/// Points every slot of `binding` at `mesh` and records, for entity
/// `entity`, an attachment for each slot that held something else.
fn attach(
    binding: EntityMeshBinding,
    entity: EntityId,
    mesh: MeshHandle,
    actions: &mut Vec<Action>,
) -> (out: EntityMeshBinding)
    ensures
        out == binding.attached(mesh),
        final(actions)@ == old(actions)@ + binding.attach_actions(entity, mesh),
{
    let mut out = binding;
    if binding.mesh_2d.is_some() {
        if !slot_holds(binding.mesh_2d, mesh) {
            actions.push(Action::Attach2d { entity, mesh });
        }
        out.mesh_2d = Some(mesh);
    }
    if binding.mesh_3d.is_some() {
        if !slot_holds(binding.mesh_3d, mesh) {
            actions.push(Action::Attach3d { entity, mesh });
        }
        out.mesh_3d = Some(mesh);
    }
    out
}

/// The bindings of the entities that are not in `gone`.
spec fn without(bindings: Map<u64, EntityMeshBinding>, gone: Seq<EntityId>) -> Map<
    u64,
    EntityMeshBinding,
> {
    Map::new(
        |x: u64| bindings.contains_key(x) && !gone.contains(EntityId(x)),
        |x: u64| bindings[x],
    )
}

/// The bindings with those of the entities in `done` pointed at `m`.
spec fn repointed(bindings: Map<u64, EntityMeshBinding>, done: Seq<EntityId>, m: MeshHandle) -> Map<
    u64,
    EntityMeshBinding,
> {
    Map::new(
        |x: u64| bindings.contains_key(x),
        |x: u64|
            if done.contains(EntityId(x)) {
                bindings[x].attached(m)
            } else {
                bindings[x]
            },
    )
}

/// One more element taken from a sequence adds that element and no other.
proof fn lemma_take_next<A>(s: Seq<A>, i: int)
    requires
        0 <= i < s.len(),
    ensures
        s.take(i + 1).drop_last() == s.take(i),
        s.take(i + 1).last() == s[i],
        forall|y: A| #[trigger] s.take(i + 1).contains(y) <==> s.take(i).contains(y) || y == s[i],
        s.no_duplicates() ==> !s.take(i).contains(s[i]),
{
    let shorter = s.take(i);
    let longer = s.take(i + 1);
    assert forall|y: A| #[trigger] longer.contains(y) <==> shorter.contains(y) || y == s[i] by {
        if longer.contains(y) && y != s[i] {
            assert(shorter[longer.index_of(y)] == y);
        }
        if shorter.contains(y) {
            assert(longer[shorter.index_of(y)] == y);
        }
        if y == s[i] {
            assert(longer[i] == y);
        }
    }
    if s.no_duplicates() && shorter.contains(s[i]) {
        assert(s[shorter.index_of(s[i])] == s[i]);
    }
}

/// In a world that satisfies the invariant, the entities listed under a
/// document are exactly those bound to it.
proof fn lemma_listed_are_bound(w: WorldState, d: DocHandle)
    requires
        w.inv(),
        w.docs.contains_key(d.0),
    ensures
        forall|x: u64|
            w.bindings.contains_key(x) ==> (#[trigger] w.docs[d.0].bound.contains(EntityId(x))
                <==> w.bindings[x].document == d),
        forall|i: int|
            0 <= i < w.docs[d.0].bound.len() ==> w.bindings.contains_key(
                (#[trigger] w.docs[d.0].bound[i]).0,
            ),
{
    let listed = w.docs[d.0].bound;
    assert forall|x: u64| w.bindings.contains_key(x) && #[trigger] listed.contains(
        EntityId(x),
    ) implies w.bindings[x].document == d by {
        let j = listed.index_of(EntityId(x));
        assert(w.docs[d.0].bound[j] == EntityId(x));
    }
}

impl SvgWorld {
    /// The invariant of the protocol holds of the world.
    pub open spec fn wf(&self) -> bool {
        self@.inv()
    }

    /// A world without documents, meshes or bindings.
    pub fn new() -> (world: SvgWorld)
        ensures
            world@ == WorldState::empty(),
            world.wf(),
    {
        SvgWorld::with_first_mesh(0)
    }

    /// A world without documents, meshes or bindings whose mesh handles
    /// start at `first`, for a host that keeps the handles below it for
    /// itself.
    pub fn with_first_mesh(first: u64) -> (world: SvgWorld)
        ensures
            world@ == WorldState::starting_at(first),
            world.wf(),
    {
        SvgWorld {
            docs: HashMap::new(),
            meshes: HashMap::new(),
            bindings: HashMap::new(),
            next_mesh: first,
        }
    }

    /// Where `document` stands in its lifecycle.
    pub fn state_of(&self, document: DocHandle) -> (state: DocState)
        ensures
            state == self@.state_of(document),
    {
        match self.docs.get(&document.0) {
            Some(entry) => entry.state,
            None => DocState::Unloaded,
        }
    }

    /// The handle of the mesh that is current for `document`, if it has one.
    pub fn current_mesh(&self, document: DocHandle) -> (mesh: Option<MeshHandle>)
        ensures
            mesh == self@.current_mesh(document),
    {
        match self.docs.get(&document.0) {
            Some(entry) => entry.mesh,
            None => None,
        }
    }

    /// What is recorded for `entity`, if it is bound.
    pub fn binding(&self, entity: EntityId) -> (binding: Option<EntityMeshBinding>)
        ensures
            binding == (if self@.bindings.contains_key(entity.0) {
                Some(self@.bindings[entity.0])
            } else {
                None
            }),
    {
        match self.bindings.get(&entity.0) {
            Some(binding) => Some(*binding),
            None => None,
        }
    }

    /// The stored mesh behind `handle`, for reading.
    pub fn mesh(&self, handle: MeshHandle) -> (mesh: Option<&GeneratedMesh>)
        ensures
            match mesh {
                Some(found) => self@.meshes.contains_key(handle.0) && found@
                    == self@.meshes[handle.0].mesh,
                None => !self@.meshes.contains_key(handle.0),
            },
    {
        match self.meshes.get(&handle.0) {
            Some(stored) => Some(&stored.mesh),
            None => None,
        }
    }

    /// The entities bound to `document`, in the order they were bound.
    pub fn bound_entities(&self, document: DocHandle) -> (bound: Vec<EntityId>)
        ensures
            bound@ == self@.record(document).bound,
    {
        let mut bound: Vec<EntityId> = Vec::new();
        match self.docs.get(&document.0) {
            Some(entry) => {
                let mut i: usize = 0;
                while i < entry.bound.len()
                    invariant
                        i <= entry.bound.len(),
                        bound@ == entry.bound@.take(i as int),
                    decreases entry.bound.len() - i,
                {
                    bound.push(entry.bound[i]);
                    i += 1;
                }
            },
            None => {},
        }
        bound
    }

    /// Drops the binding of `entity`, as when it loses its reference or
    /// leaves the scene. Says whether it was bound.
    pub fn unbind(&mut self, entity: EntityId) -> (was_bound: bool)
        requires
            old(self).wf(),
        ensures
            final(self).wf(),
            final(self)@ == old(self)@.unbind(entity),
            was_bound == old(self)@.bindings.contains_key(entity.0),
    {
        let ghost before = self@;
        proof {
            lemma_unbind_inv(before, entity);
        }
        match self.bindings.remove(&entity.0) {
            None => false,
            Some(binding) => {
                let d = binding.document;
                match self.docs.remove(&d.0) {
                    None => {
                        proof {
                            assert(false);
                        }
                    },
                    Some(entry) => {
                        let mut entry = entry;
                        let i = position(&entry.bound, entity);
                        if i < entry.bound.len() {
                            entry.bound.remove(i);
                        }
                        self.docs.insert(d.0, entry);
                    },
                }
                true
            },
        }
    }

    /// Records that `entity` references `binding.document` and holds the
    /// given slots, and brings it in line at once where the document has a
    /// current mesh. A reference to a removed document is refused and
    /// leaves the entity unbound.
    pub fn bind(&mut self, entity: EntityId, binding: EntityMeshBinding) -> (outcome: Result<
        Vec<Action>,
        SyncError,
    >)
        requires
            old(self).wf(),
        ensures
            final(self).wf(),
            final(self)@ == old(self)@.bind(entity, binding),
            match outcome {
                Ok(actions) => old(self)@.bind_accepts(binding.document) && actions@ == old(
                    self,
                )@.bind_actions(entity, binding),
                Err(error) => !old(self)@.bind_accepts(binding.document) && error
                    == SyncError::InvariantViolation,
            },
    {
        let ghost before = self@;
        proof {
            lemma_unbind_inv(before, entity);
            lemma_bind_inv(before, entity, binding);
        }
        self.unbind(entity);
        let d = binding.document;
        if self.state_of(d) == DocState::Removed {
            return Err(SyncError::InvariantViolation);
        }
        let mut entry = match self.docs.remove(&d.0) {
            Some(entry) => entry,
            None => DocEntry { state: DocState::Unloaded, mesh: None, bound: Vec::new() },
        };
        let mut actions: Vec<Action> = Vec::new();
        let stored = match entry.mesh {
            Some(m) => attach(binding, entity, m, &mut actions),
            None => binding,
        };
        entry.bound.push(entity);
        self.docs.insert(d.0, entry);
        self.bindings.insert(entity.0, stored);
        assert(self@ =~= before.bind(entity, binding));
        Ok(actions)
    }

    /// Takes one lifecycle event of the asset store. An event that does not
    /// fit the state of its document is refused and changes nothing.
    pub fn handle_event(&mut self, event: AssetEvent) -> (outcome: Result<Vec<Action>, SyncError>)
        requires
            old(self).wf(),
        ensures
            final(self).wf(),
            final(self)@ == old(self)@.apply(event),
            match outcome {
                Ok(actions) => old(self)@.event_accepts(event) && actions@ == old(
                    self,
                )@.event_actions(event),
                Err(error) => !old(self)@.event_accepts(event) && error
                    == SyncError::InvariantViolation,
            },
    {
        let ghost before = self@;
        proof {
            lemma_apply_inv(before, event);
        }
        match event {
            AssetEvent::Created { handle } => {
                if self.state_of(handle) != DocState::Unloaded {
                    return Err(SyncError::InvariantViolation);
                }
                self.set_state(handle, DocState::Loading);
                let mut actions: Vec<Action> = Vec::new();
                actions.push(Action::Tessellate { document: handle });
                Ok(actions)
            },
            AssetEvent::Modified { handle } => {
                let state = self.state_of(handle);
                let mut actions: Vec<Action> = Vec::new();
                if state == DocState::Ready {
                    self.set_state(handle, DocState::Modified);
                    actions.push(Action::Tessellate { document: handle });
                } else if state != DocState::Loading && state != DocState::Modified {
                    return Err(SyncError::InvariantViolation);
                }
                Ok(actions)
            },
            AssetEvent::Removed { handle } => {
                let state = self.state_of(handle);
                if state != DocState::Loading && state != DocState::Ready && state
                    != DocState::Modified {
                    return Err(SyncError::InvariantViolation);
                }
                Ok(self.remove_document(handle))
            },
        }
    }

    /// Moves the record of `document` to `state`, creating it if needed.
    fn set_state(&mut self, document: DocHandle, state: DocState)
        ensures
            final(self)@ == old(self)@.with_state(document, state),
    {
        let mut entry = match self.docs.remove(&document.0) {
            Some(entry) => entry,
            None => DocEntry { state: DocState::Unloaded, mesh: None, bound: Vec::new() },
        };
        entry.state = state;
        self.docs.insert(document.0, entry);
    }

    /// Carries out the removal of a document that was created.
    fn remove_document(&mut self, document: DocHandle) -> (actions: Vec<Action>)
        requires
            old(self).wf(),
            old(self)@.docs.contains_key(document.0),
        ensures
            final(self)@ == old(self)@.removed(document),
            actions@ == despawn_all(old(self)@.record(document).bound) + release_of(
                old(self)@.current_mesh(document),
            ),
    {
        let ghost before = self@;
        let mut actions: Vec<Action> = Vec::new();
        match self.docs.remove(&document.0) {
            None => {
                proof {
                    assert(false);
                }
            },
            Some(entry) => {
                let ghost listed = entry.bound@;
                let mut i: usize = 0;
                while i < entry.bound.len()
                    invariant
                        i <= entry.bound.len(),
                        entry.bound@ == listed,
                        actions@ == despawn_all(listed.take(i as int)),
                        self.bindings@ == without(before.bindings, listed.take(i as int)),
                        self.docs@ == old(self).docs@.remove(document.0),
                        self.meshes@ == old(self).meshes@,
                        self.next_mesh == old(self).next_mesh,
                    decreases entry.bound.len() - i,
                {
                    let e = entry.bound[i];
                    self.bindings.remove(&e.0);
                    actions.push(Action::Despawn { entity: e });
                    proof {
                        lemma_take_next(listed, i as int);
                    }
                    i += 1;
                }
                assert(listed.take(i as int) =~= listed);
                match entry.mesh {
                    Some(m) => {
                        self.meshes.remove(&m.0);
                        actions.push(Action::Release { mesh: m });
                    },
                    None => {},
                }
                self.docs.insert(
                    document.0,
                    DocEntry { state: DocState::Removed, mesh: None, bound: Vec::new() },
                );
                proof {
                    lemma_listed_are_bound(before, document);
                }
            },
        }
        actions
    }

    /// Installs the mesh of `document`, assembled from the outcomes of its
    /// paths, for a document that waits for one: as its first mesh after
    /// `Created`, or in place of the current one after `Modified`. The new
    /// mesh is stored and attached before the previous one is released.
    /// Refused, with nothing changed, for a document that waits for no mesh
    /// and when no mesh handle is left.
    pub fn install(&mut self, document: DocHandle, paths: &Vec<PathResult>) -> (outcome: Result<
        Vec<Action>,
        SyncError,
    >)
        requires
            old(self).wf(),
        ensures
            final(self).wf(),
            match outcome {
                Ok(actions) => {
                    &&& old(self)@.install_accepts(document)
                    &&& old(self)@.next_mesh < u64::MAX
                    &&& final(self)@ == old(self)@.install(
                        document,
                        assemble_spec(path_views(paths@)),
                    )
                    &&& actions@ == old(self)@.install_actions(document)
                },
                Err(error) => {
                    &&& final(self)@ == old(self)@
                    &&& error == (if old(self)@.install_accepts(document) {
                        SyncError::ResourceExhaustion
                    } else {
                        SyncError::InvariantViolation
                    })
                    &&& !old(self)@.install_accepts(document) || old(self)@.next_mesh == u64::MAX
                },
            },
    {
        let ghost before = self@;
        let state = self.state_of(document);
        if state != DocState::Loading && state != DocState::Modified {
            return Err(SyncError::InvariantViolation);
        }
        if self.next_mesh == u64::MAX {
            return Err(SyncError::ResourceExhaustion);
        }
        let fresh = MeshHandle(self.next_mesh);
        let mesh = assemble(paths);
        let ghost content = mesh@;
        proof {
            lemma_install_inv(before, document, content);
        }
        let mut actions: Vec<Action> = Vec::new();
        actions.push(Action::Upload { mesh: fresh });
        match self.docs.remove(&document.0) {
            None => {
                proof {
                    assert(false);
                }
            },
            Some(entry) => {
                let mut entry = entry;
                let ghost listed = entry.bound@;
                let ghost head = seq![Action::Upload { mesh: fresh }];
                proof {
                    lemma_listed_are_bound(before, document);
                }
                let mut i: usize = 0;
                while i < entry.bound.len()
                    invariant
                        i <= entry.bound.len(),
                        entry.bound@ == listed,
                        listed.no_duplicates(),
                        forall|j: int|
                            0 <= j < listed.len() ==> before.bindings.contains_key(
                                (#[trigger] listed[j]).0,
                            ),
                        actions@ == head + attach_all(listed.take(i as int), before.bindings, fresh),
                        self.bindings@ == repointed(before.bindings, listed.take(i as int), fresh),
                        self.docs@ == old(self).docs@.remove(document.0),
                        self.meshes@ == old(self).meshes@,
                        self.next_mesh == old(self).next_mesh,
                    decreases entry.bound.len() - i,
                {
                    let e = entry.bound[i];
                    proof {
                        lemma_take_next(listed, i as int);
                    }
                    match self.binding(e) {
                        None => {
                            proof {
                                assert(false);
                            }
                        },
                        Some(held) => {
                            let moved = attach(held, e, fresh, &mut actions);
                            self.bindings.insert(e.0, moved);
                        },
                    }
                    i += 1;
                }
                assert(listed.take(i as int) =~= listed);
                match entry.mesh {
                    Some(previous) => {
                        self.meshes.remove(&previous.0);
                        actions.push(Action::Release { mesh: previous });
                    },
                    None => {},
                }
                self.meshes.insert(fresh.0, StoredMesh { document, mesh });
                entry.state = DocState::Ready;
                entry.mesh = Some(fresh);
                self.docs.insert(document.0, entry);
                self.next_mesh = self.next_mesh + 1;
                assert(self@ =~= before.install(document, content));
            },
        }
        Ok(actions)
    }
}

} // verus!
