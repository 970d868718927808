use bevy_svg::handles::{slot_holds, DocHandle, EntityId, MeshHandle};
use bevy_svg::mesh::{GeometryFailure, MeshFragment, PathResult, Vertex};
use bevy_svg::state::{Action, AssetEvent, DocState, EntityMeshBinding, SyncError};
use bevy_svg::world::SvgWorld;

const DOC: DocHandle = DocHandle(7);
const OTHER: DocHandle = DocHandle(8);

fn flat(document: DocHandle, held: u64) -> EntityMeshBinding {
    EntityMeshBinding { document, mesh_2d: Some(MeshHandle(held)), mesh_3d: None }
}

fn solid(document: DocHandle, held: u64) -> EntityMeshBinding {
    EntityMeshBinding { document, mesh_2d: None, mesh_3d: Some(MeshHandle(held)) }
}

fn one_triangle() -> Vec<PathResult> {
    let v = Vertex { position: [0, 0, 0], normal: None, color: [0, 0, 0, 0] };
    vec![Ok(MeshFragment { vertices: vec![v, v, v], indices: vec![0, 1, 2] })]
}

fn two_triangles() -> Vec<PathResult> {
    let v = Vertex { position: [1, 1, 1], normal: None, color: [0, 0, 0, 0] };
    vec![Ok(MeshFragment { vertices: vec![v, v, v, v], indices: vec![0, 1, 2, 0, 2, 3] })]
}

fn ready_world() -> SvgWorld {
    let mut world = SvgWorld::new();
    world.handle_event(AssetEvent::Created { handle: DOC }).unwrap();
    world.install(DOC, &one_triangle()).unwrap();
    world
}

#[test]
fn new_world_knows_nothing() {
    let world = SvgWorld::new();
    assert_eq!(world.state_of(DOC), DocState::Unloaded);
    assert_eq!(world.current_mesh(DOC), None);
    assert_eq!(world.binding(EntityId(1)), None);
    assert!(world.mesh(MeshHandle(0)).is_none());
    assert!(world.bound_entities(DOC).is_empty());
}

#[test]
fn created_asks_for_one_tessellation() {
    let mut world = SvgWorld::new();
    let actions = world.handle_event(AssetEvent::Created { handle: DOC });
    assert_eq!(actions, Ok(vec![Action::Tessellate { document: DOC }]));
    assert_eq!(world.state_of(DOC), DocState::Loading);
    assert_eq!(world.current_mesh(DOC), None);
}

#[test]
fn first_installation_makes_the_document_ready() {
    let mut world = SvgWorld::new();
    world.handle_event(AssetEvent::Created { handle: DOC }).unwrap();
    let actions = world.install(DOC, &one_triangle());
    assert_eq!(actions, Ok(vec![Action::Upload { mesh: MeshHandle(0) }]));
    assert_eq!(world.state_of(DOC), DocState::Ready);
    assert_eq!(world.current_mesh(DOC), Some(MeshHandle(0)));
    assert_eq!(world.mesh(MeshHandle(0)).unwrap().triangle_count(), 1);
}

#[test]
fn installation_attaches_to_entities_bound_while_loading() {
    let mut world = SvgWorld::new();
    assert_eq!(world.bind(EntityId(1), flat(DOC, 90)), Ok(Vec::new()));
    assert_eq!(world.bind(EntityId(2), solid(DOC, 91)), Ok(Vec::new()));
    assert_eq!(world.state_of(DOC), DocState::Unloaded);
    world.handle_event(AssetEvent::Created { handle: DOC }).unwrap();
    assert_eq!(world.binding(EntityId(1)), Some(flat(DOC, 90)));
    let actions = world.install(DOC, &one_triangle());
    assert_eq!(
        actions,
        Ok(vec![
            Action::Upload { mesh: MeshHandle(0) },
            Action::Attach2d { entity: EntityId(1), mesh: MeshHandle(0) },
            Action::Attach3d { entity: EntityId(2), mesh: MeshHandle(0) },
        ])
    );
    assert_eq!(world.binding(EntityId(1)), Some(flat(DOC, 0)));
    assert_eq!(world.binding(EntityId(2)), Some(solid(DOC, 0)));
}

#[test]
fn entity_with_both_slots_gets_both_attachments() {
    let mut world = ready_world();
    let both = EntityMeshBinding {
        document: DOC,
        mesh_2d: Some(MeshHandle(50)),
        mesh_3d: Some(MeshHandle(51)),
    };
    assert_eq!(
        world.bind(EntityId(3), both),
        Ok(vec![
            Action::Attach2d { entity: EntityId(3), mesh: MeshHandle(0) },
            Action::Attach3d { entity: EntityId(3), mesh: MeshHandle(0) },
        ])
    );
}

#[test]
fn entity_without_slots_is_bound_without_actions() {
    let mut world = ready_world();
    let bare = EntityMeshBinding { document: DOC, mesh_2d: None, mesh_3d: None };
    assert_eq!(world.bind(EntityId(3), bare), Ok(Vec::new()));
    assert_eq!(world.binding(EntityId(3)), Some(bare));
    assert_eq!(world.bound_entities(DOC), vec![EntityId(3)]);
}

#[test]
fn late_binding_attaches_without_an_asset_event() {
    let mut world = ready_world();
    let actions = world.bind(EntityId(5), flat(DOC, 77));
    assert_eq!(actions, Ok(vec![Action::Attach2d { entity: EntityId(5), mesh: MeshHandle(0) }]));
    assert_eq!(world.binding(EntityId(5)), Some(flat(DOC, 0)));
}

#[test]
fn late_binding_with_the_current_mesh_asks_nothing() {
    let mut world = ready_world();
    assert_eq!(world.bind(EntityId(5), flat(DOC, 0)), Ok(Vec::new()));
    assert_eq!(world.binding(EntityId(5)), Some(flat(DOC, 0)));
}

#[test]
fn binding_to_a_document_that_is_not_ready_waits() {
    let mut world = SvgWorld::new();
    world.handle_event(AssetEvent::Created { handle: DOC }).unwrap();
    assert_eq!(world.bind(EntityId(5), flat(DOC, 77)), Ok(Vec::new()));
    assert_eq!(world.binding(EntityId(5)), Some(flat(DOC, 77)));
    assert_eq!(world.state_of(DOC), DocState::Loading);
}

#[test]
fn modified_replaces_the_mesh_and_releases_the_old_one_last() {
    let mut world = ready_world();
    world.bind(EntityId(1), flat(DOC, 0)).unwrap();
    world.bind(EntityId(2), solid(DOC, 0)).unwrap();
    let asked = world.handle_event(AssetEvent::Modified { handle: DOC });
    assert_eq!(asked, Ok(vec![Action::Tessellate { document: DOC }]));
    assert_eq!(world.state_of(DOC), DocState::Modified);
    assert_eq!(world.current_mesh(DOC), Some(MeshHandle(0)));
    let actions = world.install(DOC, &two_triangles());
    assert_eq!(
        actions,
        Ok(vec![
            Action::Upload { mesh: MeshHandle(1) },
            Action::Attach2d { entity: EntityId(1), mesh: MeshHandle(1) },
            Action::Attach3d { entity: EntityId(2), mesh: MeshHandle(1) },
            Action::Release { mesh: MeshHandle(0) },
        ])
    );
    assert_eq!(world.state_of(DOC), DocState::Ready);
    assert_eq!(world.current_mesh(DOC), Some(MeshHandle(1)));
    assert!(world.mesh(MeshHandle(0)).is_none());
    assert_eq!(world.mesh(MeshHandle(1)).unwrap().triangle_count(), 2);
}

#[test]
fn no_entity_keeps_the_mesh_from_before_a_modification() {
    let mut world = ready_world();
    for id in 1..6 {
        world.bind(EntityId(id), flat(DOC, 0)).unwrap();
    }
    world.bind(EntityId(9), flat(OTHER, 0)).unwrap();
    world.handle_event(AssetEvent::Modified { handle: DOC }).unwrap();
    world.install(DOC, &two_triangles()).unwrap();
    for id in 1..6 {
        let binding = world.binding(EntityId(id)).unwrap();
        assert_eq!(binding.mesh_2d, Some(MeshHandle(1)));
        assert!(!slot_holds(binding.mesh_2d, MeshHandle(0)));
    }
    assert_eq!(world.binding(EntityId(9)), Some(flat(OTHER, 0)));
}

#[test]
fn second_modified_is_absorbed() {
    let mut world = ready_world();
    world.handle_event(AssetEvent::Modified { handle: DOC }).unwrap();
    assert_eq!(world.handle_event(AssetEvent::Modified { handle: DOC }), Ok(Vec::new()));
    assert_eq!(world.state_of(DOC), DocState::Modified);
    world.install(DOC, &two_triangles()).unwrap();
    assert_eq!(world.state_of(DOC), DocState::Ready);
    assert_eq!(world.install(DOC, &two_triangles()), Err(SyncError::InvariantViolation));
}

#[test]
fn modified_while_loading_is_absorbed() {
    let mut world = SvgWorld::new();
    world.handle_event(AssetEvent::Created { handle: DOC }).unwrap();
    assert_eq!(world.handle_event(AssetEvent::Modified { handle: DOC }), Ok(Vec::new()));
    assert_eq!(world.state_of(DOC), DocState::Loading);
}

#[test]
fn removed_despawns_every_bound_entity_and_releases_the_mesh() {
    let mut world = ready_world();
    world.bind(EntityId(1), flat(DOC, 0)).unwrap();
    world.bind(EntityId(2), solid(DOC, 0)).unwrap();
    world.bind(EntityId(3), flat(OTHER, 0)).unwrap();
    let actions = world.handle_event(AssetEvent::Removed { handle: DOC });
    assert_eq!(
        actions,
        Ok(vec![
            Action::Despawn { entity: EntityId(1) },
            Action::Despawn { entity: EntityId(2) },
            Action::Release { mesh: MeshHandle(0) },
        ])
    );
    assert_eq!(world.state_of(DOC), DocState::Removed);
    assert_eq!(world.current_mesh(DOC), None);
    assert_eq!(world.binding(EntityId(1)), None);
    assert_eq!(world.binding(EntityId(2)), None);
    assert_eq!(world.binding(EntityId(3)), Some(flat(OTHER, 0)));
    assert!(world.bound_entities(DOC).is_empty());
    assert!(world.mesh(MeshHandle(0)).is_none());
}

#[test]
fn removed_while_loading_releases_nothing() {
    let mut world = SvgWorld::new();
    world.bind(EntityId(1), flat(DOC, 4)).unwrap();
    world.handle_event(AssetEvent::Created { handle: DOC }).unwrap();
    assert_eq!(
        world.handle_event(AssetEvent::Removed { handle: DOC }),
        Ok(vec![Action::Despawn { entity: EntityId(1) }])
    );
    assert_eq!(world.install(DOC, &one_triangle()), Err(SyncError::InvariantViolation));
    assert_eq!(world.state_of(DOC), DocState::Removed);
}

#[test]
fn removed_document_is_terminal() {
    let mut world = ready_world();
    world.handle_event(AssetEvent::Removed { handle: DOC }).unwrap();
    assert_eq!(
        world.handle_event(AssetEvent::Created { handle: DOC }),
        Err(SyncError::InvariantViolation)
    );
    assert_eq!(
        world.handle_event(AssetEvent::Modified { handle: DOC }),
        Err(SyncError::InvariantViolation)
    );
    assert_eq!(
        world.handle_event(AssetEvent::Removed { handle: DOC }),
        Err(SyncError::InvariantViolation)
    );
    assert_eq!(world.state_of(DOC), DocState::Removed);
}

#[test]
fn binding_to_a_removed_document_is_refused_and_dropped() {
    let mut world = ready_world();
    world.handle_event(AssetEvent::Created { handle: OTHER }).unwrap();
    world.bind(EntityId(1), flat(OTHER, 3)).unwrap();
    world.handle_event(AssetEvent::Removed { handle: DOC }).unwrap();
    assert_eq!(world.bind(EntityId(1), flat(DOC, 3)), Err(SyncError::InvariantViolation));
    assert_eq!(world.binding(EntityId(1)), None);
    assert!(world.bound_entities(OTHER).is_empty());
    assert!(world.bound_entities(DOC).is_empty());
}

#[test]
fn events_that_do_not_fit_are_refused() {
    let mut world = SvgWorld::new();
    assert_eq!(
        world.handle_event(AssetEvent::Modified { handle: DOC }),
        Err(SyncError::InvariantViolation)
    );
    assert_eq!(
        world.handle_event(AssetEvent::Removed { handle: DOC }),
        Err(SyncError::InvariantViolation)
    );
    assert_eq!(world.install(DOC, &one_triangle()), Err(SyncError::InvariantViolation));
    assert_eq!(world.state_of(DOC), DocState::Unloaded);
    world.handle_event(AssetEvent::Created { handle: DOC }).unwrap();
    assert_eq!(
        world.handle_event(AssetEvent::Created { handle: DOC }),
        Err(SyncError::InvariantViolation)
    );
    assert_eq!(world.state_of(DOC), DocState::Loading);
}

#[test]
fn created_is_refused_for_a_ready_document() {
    let mut world = ready_world();
    assert_eq!(
        world.handle_event(AssetEvent::Created { handle: DOC }),
        Err(SyncError::InvariantViolation)
    );
    assert_eq!(world.state_of(DOC), DocState::Ready);
    assert_eq!(world.current_mesh(DOC), Some(MeshHandle(0)));
}

#[test]
fn last_handle_is_never_given_out() {
    let mut world = SvgWorld::with_first_mesh(u64::MAX);
    world.bind(EntityId(1), flat(DOC, 5)).unwrap();
    world.handle_event(AssetEvent::Created { handle: DOC }).unwrap();
    assert_eq!(world.install(DOC, &one_triangle()), Err(SyncError::ResourceExhaustion));
    assert_eq!(world.state_of(DOC), DocState::Loading);
    assert_eq!(world.current_mesh(DOC), None);
    assert_eq!(world.binding(EntityId(1)), Some(flat(DOC, 5)));
}

#[test]
fn exhaustion_of_one_document_leaves_the_others_alone() {
    let mut world = SvgWorld::with_first_mesh(u64::MAX - 1);
    world.handle_event(AssetEvent::Created { handle: DOC }).unwrap();
    world.handle_event(AssetEvent::Created { handle: OTHER }).unwrap();
    assert_eq!(
        world.install(DOC, &one_triangle()),
        Ok(vec![Action::Upload { mesh: MeshHandle(u64::MAX - 1) }])
    );
    assert_eq!(world.install(OTHER, &one_triangle()), Err(SyncError::ResourceExhaustion));
    assert_eq!(world.state_of(DOC), DocState::Ready);
    assert_eq!(world.current_mesh(DOC), Some(MeshHandle(u64::MAX - 1)));
    assert_eq!(world.mesh(MeshHandle(u64::MAX - 1)).unwrap().triangle_count(), 1);
    assert_eq!(world.state_of(OTHER), DocState::Loading);
}

#[test]
fn first_mesh_handle_can_be_chosen() {
    let mut world = SvgWorld::with_first_mesh(40);
    world.handle_event(AssetEvent::Created { handle: DOC }).unwrap();
    assert_eq!(
        world.install(DOC, &one_triangle()),
        Ok(vec![Action::Upload { mesh: MeshHandle(40) }])
    );
    world.handle_event(AssetEvent::Modified { handle: DOC }).unwrap();
    assert_eq!(
        world.install(DOC, &one_triangle()),
        Ok(vec![Action::Upload { mesh: MeshHandle(41) }, Action::Release { mesh: MeshHandle(40) }])
    );
}

#[test]
fn document_that_fails_entirely_gets_an_empty_mesh() {
    let mut world = ready_world();
    world.bind(EntityId(1), flat(DOC, 0)).unwrap();
    world.handle_event(AssetEvent::Modified { handle: DOC }).unwrap();
    let failed: Vec<PathResult> = vec![Err(GeometryFailure::NotFinite)];
    assert_eq!(
        world.install(DOC, &failed),
        Ok(vec![
            Action::Upload { mesh: MeshHandle(1) },
            Action::Attach2d { entity: EntityId(1), mesh: MeshHandle(1) },
            Action::Release { mesh: MeshHandle(0) },
        ])
    );
    assert_eq!(world.mesh(MeshHandle(1)).unwrap().triangle_count(), 0);
    assert!(world.mesh(MeshHandle(0)).is_none());
}

#[test]
fn rebinding_moves_the_entity_between_documents() {
    let mut world = ready_world();
    world.handle_event(AssetEvent::Created { handle: OTHER }).unwrap();
    world.install(OTHER, &two_triangles()).unwrap();
    world.bind(EntityId(1), flat(DOC, 0)).unwrap();
    world.bind(EntityId(2), flat(DOC, 0)).unwrap();
    let actions = world.bind(EntityId(1), flat(OTHER, 0));
    assert_eq!(actions, Ok(vec![Action::Attach2d { entity: EntityId(1), mesh: MeshHandle(1) }]));
    assert_eq!(world.bound_entities(DOC), vec![EntityId(2)]);
    assert_eq!(world.bound_entities(OTHER), vec![EntityId(1)]);
    assert_eq!(world.binding(EntityId(1)), Some(flat(OTHER, 1)));
    assert_eq!(world.mesh(MeshHandle(0)).unwrap().triangle_count(), 1);
}

#[test]
fn rebinding_to_the_same_document_lists_the_entity_last() {
    let mut world = SvgWorld::new();
    world.bind(EntityId(1), flat(DOC, 0)).unwrap();
    world.bind(EntityId(2), flat(DOC, 0)).unwrap();
    world.bind(EntityId(3), flat(DOC, 0)).unwrap();
    world.bind(EntityId(1), flat(DOC, 0)).unwrap();
    assert_eq!(world.bound_entities(DOC), vec![EntityId(2), EntityId(3), EntityId(1)]);
}

#[test]
fn unbind_drops_the_binding_only() {
    let mut world = ready_world();
    world.bind(EntityId(1), flat(DOC, 0)).unwrap();
    world.bind(EntityId(2), flat(DOC, 0)).unwrap();
    assert!(world.unbind(EntityId(1)));
    assert!(!world.unbind(EntityId(1)));
    assert!(!world.unbind(EntityId(44)));
    assert_eq!(world.binding(EntityId(1)), None);
    assert_eq!(world.bound_entities(DOC), vec![EntityId(2)]);
    assert_eq!(world.state_of(DOC), DocState::Ready);
    assert_eq!(world.current_mesh(DOC), Some(MeshHandle(0)));
}

#[test]
fn unbound_entity_is_not_despawned_on_removal() {
    let mut world = ready_world();
    world.bind(EntityId(1), flat(DOC, 0)).unwrap();
    world.bind(EntityId(2), flat(DOC, 0)).unwrap();
    world.unbind(EntityId(1));
    assert_eq!(
        world.handle_event(AssetEvent::Removed { handle: DOC }),
        Ok(vec![Action::Despawn { entity: EntityId(2) }, Action::Release { mesh: MeshHandle(0) }])
    );
}

#[test]
fn events_about_different_documents_commute() {
    let run = |first: AssetEvent, second: AssetEvent| {
        let mut world = ready_world();
        world.handle_event(AssetEvent::Created { handle: OTHER }).unwrap();
        world.install(OTHER, &two_triangles()).unwrap();
        world.bind(EntityId(1), flat(DOC, 0)).unwrap();
        world.bind(EntityId(2), flat(OTHER, 1)).unwrap();
        let a = world.handle_event(first);
        let b = world.handle_event(second);
        (a, b, world)
    };
    let removed = AssetEvent::Removed { handle: DOC };
    let modified = AssetEvent::Modified { handle: OTHER };
    let (a1, b1, w1) = run(removed, modified);
    let (b2, a2, w2) = run(modified, removed);
    assert_eq!(a1, a2);
    assert_eq!(b1, b2);
    for document in [DOC, OTHER] {
        assert_eq!(w1.state_of(document), w2.state_of(document));
        assert_eq!(w1.current_mesh(document), w2.current_mesh(document));
        assert_eq!(w1.bound_entities(document), w2.bound_entities(document));
    }
    for id in [1, 2] {
        assert_eq!(w1.binding(EntityId(id)), w2.binding(EntityId(id)));
    }
}

#[test]
fn one_mesh_per_document_at_any_time() {
    let mut world = ready_world();
    for round in 1..5u64 {
        world.handle_event(AssetEvent::Modified { handle: DOC }).unwrap();
        world.install(DOC, &one_triangle()).unwrap();
        assert_eq!(world.current_mesh(DOC), Some(MeshHandle(round)));
        for earlier in 0..round {
            assert!(world.mesh(MeshHandle(earlier)).is_none());
        }
        assert!(world.mesh(MeshHandle(round)).is_some());
    }
}

#[test]
fn slot_holds_compares_the_handle() {
    assert!(slot_holds(Some(MeshHandle(3)), MeshHandle(3)));
    assert!(!slot_holds(Some(MeshHandle(4)), MeshHandle(3)));
    assert!(!slot_holds(None, MeshHandle(3)));
}
