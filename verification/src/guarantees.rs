//! What holds of the protocol: every transition keeps the invariant of the
//! world, and what follows from that for documents, meshes and entities.

use vstd::prelude::*;
use crate::handles::{DocHandle, EntityId, MeshHandle};
use crate::mesh::MeshView;
use crate::state::{
    attach_all, despawn_all, release_of, Action, AssetEvent, BindingChange, DocState,
    EntityMeshBinding, WorldState,
};

verus! {

/// Removing a value from a sequence without duplicates leaves the other
/// elements, and nothing else, without duplicates.
pub proof fn lemma_remove_value<A>(s: Seq<A>, x: A)
    requires
        s.no_duplicates(),
    ensures
        s.remove_value(x).no_duplicates(),
        !s.remove_value(x).contains(x),
        forall|y: A| y != x ==> (s.remove_value(x).contains(y) <==> s.contains(y)),
        forall|i: int|
            0 <= i < s.remove_value(x).len() ==> s.contains(#[trigger] s.remove_value(x)[i]),
        !s.contains(x) ==> s.remove_value(x) == s,
{
    s.index_of_first_ensures(x);
    let r = s.remove_value(x);
    match s.index_of_first(x) {
        Some(k) => {
            assert(r == s.remove(k));
            assert forall|i: int| 0 <= i < r.len() implies s.contains(#[trigger] r[i]) by {
                if i < k {
                    assert(r[i] == s[i]);
                } else {
                    assert(r[i] == s[i + 1]);
                }
            }
            assert forall|i: int, j: int| 0 <= i < r.len() && 0 <= j < r.len() && i != j implies r[i]
                != r[j] by {
                let si = if i < k {
                    i
                } else {
                    i + 1
                };
                let sj = if j < k {
                    j
                } else {
                    j + 1
                };
                assert(r[i] == s[si] && r[j] == s[sj]);
            }
            if r.contains(x) {
                let i = choose|i: int| 0 <= i < r.len() && r[i] == x;
                let si = if i < k {
                    i
                } else {
                    i + 1
                };
                assert(r[i] == s[si]);
            }
            assert forall|y: A| y != x implies (r.contains(y) <==> s.contains(y)) by {
                if s.contains(y) {
                    let j = choose|j: int| 0 <= j < s.len() && s[j] == y;
                    if j < k {
                        assert(r[j] == y);
                    } else {
                        assert(r[j - 1] == y);
                    }
                }
                if r.contains(y) {
                    let i = choose|i: int| 0 <= i < r.len() && r[i] == y;
                    assert(s.contains(r[i]));
                }
            }
        },
        None => {},
    }
}

/// The world before anything has happened satisfies the invariant.
pub proof fn lemma_empty_inv(first: u64)
    ensures
        WorldState::starting_at(first).inv(),
        WorldState::empty().inv(),
{
}

/// Unbinding keeps the invariant, leaves every document's state and mesh
/// alone, and leaves the entity unbound.
pub proof fn lemma_unbind_inv(w: WorldState, e: EntityId)
    requires
        w.inv(),
    ensures
        w.unbind(e).inv(),
        !w.unbind(e).bindings.contains_key(e.0),
        w.unbind(e).meshes == w.meshes,
        w.unbind(e).next_mesh == w.next_mesh,
        forall|d: DocHandle|
            w.unbind(e).state_of(d) == w.state_of(d) && w.unbind(e).current_mesh(d)
                == w.current_mesh(d),
        forall|x: u64|
            x != e.0 ==> (w.unbind(e).bindings.contains_key(x) <==> w.bindings.contains_key(x)),
        forall|x: u64|
            x != e.0 && w.bindings.contains_key(x) ==> w.unbind(e).bindings[x] == w.bindings[x],
{
    if w.bindings.contains_key(e.0) {
        lemma_remove_value(w.docs[w.bindings[e.0].document.0].bound, e);
    }
}

/// Binding keeps the invariant.
pub proof fn lemma_bind_inv(w: WorldState, e: EntityId, given: EntityMeshBinding)
    requires
        w.inv(),
    ensures
        w.bind(e, given).inv(),
{
    lemma_unbind_inv(w, e);
    let base = w.unbind(e);
    let d = given.document;
    if w.bind_accepts(d) {
        let after = w.bind(e, given);
        let listed = base.record(d).bound;
        assert forall|x: u64| #[trigger] after.bindings.contains_key(x) implies after.record(
            after.bindings[x].document,
        ).bound.contains(EntityId(x)) by {
            if x == e.0 {
                assert(listed.push(e)[listed.len() as int] == e);
            } else if base.bindings[x].document == d {
                let j = choose|j: int| 0 <= j < listed.len() && listed[j] == EntityId(x);
                assert(listed.push(e)[j] == EntityId(x));
            }
        }
    }
}

/// Every asset event keeps the invariant, accepted or not.
pub proof fn lemma_apply_inv(w: WorldState, ev: AssetEvent)
    requires
        w.inv(),
    ensures
        w.apply(ev).inv(),
{
}

/// Installing a well-formed mesh for a document that waits for one keeps the
/// invariant, as long as a handle is left to give out.
pub proof fn lemma_install_inv(w: WorldState, d: DocHandle, mesh: MeshView)
    requires
        w.inv(),
        w.install_accepts(d),
        w.next_mesh < u64::MAX,
        mesh.well_formed(),
    ensures
        w.install(d, mesh).inv(),
{
}

/// Between any two transitions, an entity bound to a document that has a
/// current mesh holds that mesh, and no other, in every slot it has.
pub proof fn lemma_attachments_are_current(w: WorldState, e: EntityId, m: MeshHandle)
    requires
        w.inv(),
        w.bindings.contains_key(e.0),
        w.current_mesh(w.bindings[e.0].document) == Some(m),
    ensures
        w.bindings[e.0].follows(m),
        w.meshes.contains_key(m.0),
        w.meshes[m.0].document == w.bindings[e.0].document,
{
}

/// The store leaks nothing: every mesh in it is the current mesh of the
/// document it was generated from, and that document is ready or modified.
pub proof fn lemma_stored_meshes_are_current(w: WorldState, m: MeshHandle)
    requires
        w.inv(),
        w.meshes.contains_key(m.0),
    ensures
        w.current_mesh(w.meshes[m.0].document) == Some(m),
        w.state_of(w.meshes[m.0].document) == DocState::Ready || w.state_of(
            w.meshes[m.0].document,
        ) == DocState::Modified,
        w.meshes[m.0].mesh.well_formed(),
{
}

/// The store never holds two meshes for one document.
pub proof fn lemma_one_mesh_per_document(w: WorldState, a: MeshHandle, b: MeshHandle)
    requires
        w.inv(),
        w.meshes.contains_key(a.0),
        w.meshes.contains_key(b.0),
        w.meshes[a.0].document == w.meshes[b.0].document,
    ensures
        a == b,
{
}

/// A removed document is terminal: no event about it is accepted, an event
/// about it changes nothing, no entity can be bound to it and no mesh can be
/// installed for it.
pub proof fn lemma_removed_is_terminal(w: WorldState, ev: AssetEvent)
    requires
        w.state_of(ev.document()) == DocState::Removed,
    ensures
        !w.event_accepts(ev),
        w.apply(ev) == w,
        !w.bind_accepts(ev.document()),
        !w.install_accepts(ev.document()),
{
}

/// A second `Modified` that arrives before the first has been served is
/// absorbed: it is accepted, changes nothing and asks for no further
/// tessellation.
pub proof fn lemma_modified_coalesces(w: WorldState, d: DocHandle)
    requires
        w.event_accepts(AssetEvent::Modified { handle: d }),
    ensures
        ({
            let ev = AssetEvent::Modified { handle: d };
            let once = w.apply(ev);
            &&& once.event_accepts(ev)
            &&& once.apply(ev) == once
            &&& once.event_actions(ev) == Seq::<Action>::empty()
        }),
{
}

/// What an installation does to the world: the document becomes ready with
/// the fresh handle as its current mesh, the installed mesh is in the store
/// under that handle and the previous one is not, every entity bound to the
/// document has each slot it has pointed at the fresh handle, and no other
/// entity is touched.
pub proof fn lemma_install_repoints(w: WorldState, d: DocHandle, mesh: MeshView)
    requires
        w.inv(),
        w.install_accepts(d),
        w.next_mesh < u64::MAX,
    ensures
        ({
            let fresh = MeshHandle(w.next_mesh);
            let after = w.install(d, mesh);
            &&& after.state_of(d) == DocState::Ready
            &&& after.current_mesh(d) == Some(fresh)
            &&& after.meshes.contains_key(fresh.0)
            &&& after.meshes[fresh.0].mesh == mesh
            &&& w.current_mesh(d) != Some(fresh)
            &&& match w.current_mesh(d) {
                Some(previous) => !after.meshes.contains_key(previous.0),
                None => true,
            }
            &&& forall|e: EntityId| after.references(e, d) <==> w.references(e, d)
            &&& forall|e: EntityId| #[trigger]
                after.references(e, d) ==> after.bindings[e.0].follows(fresh)
                    && after.bindings[e.0] == w.bindings[e.0].attached(fresh)
            &&& forall|e: EntityId|
                w.bindings.contains_key(e.0) && !w.references(e, d) ==> #[trigger] after.bindings[e.0]
                    == w.bindings[e.0]
        }),
{
}

/// No stale mesh. Once a `Modified` event for a ready document has been
/// served, that is once the event was applied and the regenerated mesh
/// installed, the document is ready again under a new mesh handle, the
/// previous mesh has left the store, and no entity bound to the document
/// holds the previous handle in any slot: each slot it has holds the new
/// one.
pub proof fn lemma_no_stale_mesh(w: WorldState, d: DocHandle, mesh: MeshView)
    requires
        w.inv(),
        w.state_of(d) == DocState::Ready,
        w.next_mesh < u64::MAX,
    ensures
        ({
            let fresh = MeshHandle(w.next_mesh);
            let pending = w.apply(AssetEvent::Modified { handle: d });
            let after = pending.install(d, mesh);
            match w.current_mesh(d) {
                Some(previous) => {
                    &&& pending.state_of(d) == DocState::Modified
                    &&& pending.install_accepts(d)
                    &&& after.state_of(d) == DocState::Ready
                    &&& after.current_mesh(d) == Some(fresh)
                    &&& fresh != previous
                    &&& !after.meshes.contains_key(previous.0)
                    &&& forall|e: EntityId| after.references(e, d) <==> w.references(e, d)
                    &&& forall|e: EntityId| #[trigger]
                        after.references(e, d) ==> after.bindings[e.0].avoids(previous)
                            && after.bindings[e.0].follows(fresh)
                },
                None => false,
            }
        }),
{
}

/// Cascading removal. Once a `Removed` event has been applied, no entity
/// references the removed document: each one that did is gone from the
/// world and has a `Despawn` among the event's actions, while every other
/// entity is bound as before. The document's mesh has left the store.
pub proof fn lemma_cascading_removal(w: WorldState, d: DocHandle)
    requires
        w.inv(),
        w.event_accepts(AssetEvent::Removed { handle: d }),
    ensures
        ({
            let ev = AssetEvent::Removed { handle: d };
            let after = w.apply(ev);
            &&& after.state_of(d) == DocState::Removed
            &&& after.current_mesh(d) is None
            &&& after.record(d).bound.len() == 0
            &&& forall|e: EntityId| !after.references(e, d)
            &&& forall|e: EntityId| #[trigger]
                w.references(e, d) ==> !after.bindings.contains_key(e.0)
                    && w.event_actions(ev).contains(Action::Despawn { entity: e })
            &&& forall|e: EntityId|
                w.bindings.contains_key(e.0) && !w.references(e, d)
                    ==> after.bindings.contains_key(e.0) && #[trigger] after.bindings[e.0]
                    == w.bindings[e.0]
            &&& match w.current_mesh(d) {
                Some(m) => !after.meshes.contains_key(m.0) && w.event_actions(ev).contains(
                    Action::Release { mesh: m },
                ),
                None => true,
            }
        }),
{
    let ev = AssetEvent::Removed { handle: d };
    let after = w.apply(ev);
    let bound = w.record(d).bound;
    let despawns = despawn_all(bound);
    let releases = release_of(w.current_mesh(d));
    let actions = w.event_actions(ev);
    assert(actions == despawns + releases);
    assert forall|e: EntityId| #[trigger] w.references(e, d) implies !after.bindings.contains_key(
        e.0,
    ) && actions.contains(Action::Despawn { entity: e }) by {
        assert(w.bindings.contains_key(e.0));
        assert(EntityId(e.0) == e);
        assert(bound.contains(e));
        let j = choose|j: int| 0 <= j < bound.len() && bound[j] == e;
        assert(despawns[j] == Action::Despawn { entity: e });
        assert(actions[j] == despawns[j]);
    }
    if let Some(m) = w.current_mesh(d) {
        assert(releases[0] == Action::Release { mesh: m });
        assert(actions[despawns.len() as int] == releases[0]);
    }
}

/// Late-binding convergence. An entity that gains or changes its reference
/// while the document is ready is bound with each slot it has pointed at
/// the document's current mesh, by the binding alone, and the actions of
/// the binding are the attachments that bring it there.
pub proof fn lemma_late_binding_converges(w: WorldState, e: EntityId, given: EntityMeshBinding)
    requires
        w.inv(),
        w.state_of(given.document) == DocState::Ready,
    ensures
        ({
            let d = given.document;
            let after = w.bind(e, given);
            match w.current_mesh(d) {
                Some(m) => {
                    &&& after.references(e, d)
                    &&& after.current_mesh(d) == Some(m)
                    &&& after.state_of(d) == DocState::Ready
                    &&& after.bindings[e.0] == given.attached(m)
                    &&& after.bindings[e.0].follows(m)
                    &&& w.bind_actions(e, given) == given.attach_actions(e, m)
                },
                None => false,
            }
        }),
{
}

/// An entity bound to a document that is not ready yet is recorded as it
/// came, and nothing is asked of the host.
pub proof fn lemma_binding_waits(w: WorldState, e: EntityId, given: EntityMeshBinding)
    requires
        w.inv(),
        w.state_of(given.document) == DocState::Unloaded || w.state_of(given.document)
            == DocState::Loading,
    ensures
        w.bind(e, given).references(e, given.document),
        w.bind(e, given).bindings[e.0] == given,
        w.bind_actions(e, given) == Seq::<Action>::empty(),
{
}

/// The attachments of a sequence of entities hold nothing but attachments.
pub proof fn lemma_attach_all_attaches(
    bound: Seq<EntityId>,
    bindings: Map<u64, EntityMeshBinding>,
    m: MeshHandle,
)
    ensures
        forall|i: int|
            0 <= i < attach_all(bound, bindings, m).len() ==> {
                let a = #[trigger] attach_all(bound, bindings, m)[i];
                (a is Attach2d && a->Attach2d_mesh == m) || (a is Attach3d && a->Attach3d_mesh
                    == m)
            },
    decreases bound.len(),
{
    if bound.len() > 0 {
        lemma_attach_all_attaches(bound.drop_last(), bindings, m);
    }
}

/// The previous mesh is released only after the new one is attached: among
/// the actions of an installation the upload comes first and a release, if
/// there is one, comes last, after every attachment.
pub proof fn lemma_release_comes_last(w: WorldState, d: DocHandle)
    ensures
        ({
            let actions = w.install_actions(d);
            &&& actions.len() >= 1
            &&& actions[0] == Action::Upload { mesh: MeshHandle(w.next_mesh) }
            &&& forall|i: int|
                0 <= i < actions.len() && (#[trigger] actions[i]) is Release ==> i == actions.len()
                    - 1 && w.current_mesh(d) == Some(actions[i]->Release_mesh)
            &&& w.current_mesh(d) is Some ==> actions.last() is Release
        }),
{
    let rec = w.record(d);
    let m = MeshHandle(w.next_mesh);
    let attaches = attach_all(rec.bound, w.bindings, m);
    lemma_attach_all_attaches(rec.bound, w.bindings, m);
    let actions = w.install_actions(d);
    let head = seq![Action::Upload { mesh: m }];
    assert(actions == head + attaches + release_of(rec.mesh));
    assert forall|i: int| 0 <= i < actions.len() && (#[trigger] actions[i]) is Release implies i
        == actions.len() - 1 && w.current_mesh(d) == Some(actions[i]->Release_mesh) by {
        if i == 0 {
            assert(actions[0] == head[0]);
        } else if i < 1 + attaches.len() {
            assert(actions[i] == attaches[i - 1]);
        }
    }
}

/// A queue of asset events keeps the invariant.
pub proof fn lemma_apply_all_inv(w: WorldState, events: Seq<AssetEvent>)
    requires
        w.inv(),
    ensures
        w.apply_all(events).inv(),
    decreases events.len(),
{
    if events.len() > 0 {
        lemma_apply_all_inv(w, events.drop_last());
        lemma_apply_inv(w.apply_all(events.drop_last()), events.last());
    }
}

/// A list of binding changes keeps the invariant.
pub proof fn lemma_bind_all_inv(w: WorldState, changes: Seq<BindingChange>)
    requires
        w.inv(),
    ensures
        w.bind_all(changes).inv(),
    decreases changes.len(),
{
    if changes.len() > 0 {
        lemma_bind_all_inv(w, changes.drop_last());
        lemma_bind_inv(
            w.bind_all(changes.drop_last()),
            changes.last().entity,
            changes.last().binding,
        );
    }
}

/// Events about different documents may be taken in either order: each is
/// accepted or refused, and asks for the same actions, whether or not the
/// other came first, and the world they lead to is the same.
pub proof fn lemma_events_commute(w: WorldState, a: AssetEvent, b: AssetEvent)
    requires
        a.document() != b.document(),
    ensures
        w.apply(b).event_accepts(a) == w.event_accepts(a),
        w.apply(a).event_accepts(b) == w.event_accepts(b),
        w.apply(b).event_actions(a) == w.event_actions(a),
        w.apply(a).event_actions(b) == w.event_actions(b),
        w.apply(a).apply(b) == w.apply(b).apply(a),
{
}

} // verus!
