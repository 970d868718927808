//! The plugin, what it sets up, and the two passes of its stage.
//!
//! Each tick the host runs the passes of [`Stage::SVG`] in this order: first
//! [`svg_mesh_linker`] on the asset events that arrived, then
//! [`set_svg_meshes`] on the entities whose reference to a document was added
//! or changed. The host carries out the actions a pass reports before it
//! runs the next one; for a `Tessellate` action it tessellates the document
//! with the tessellators of [`SvgResources`] and hands the outcome to
//! [`SvgWorld::install`].

use lyon_tessellation::{FillTessellator, StrokeTessellator};
use vstd::prelude::*;
use crate::state::{Action, AssetEvent, BindingChange, WorldState};
use crate::world::SvgWorld;

verus! {

/// `lyon_tessellation::FillTessellator`, taken on trust as an opaque type:
/// nothing of its state is visible here. The library only makes one and
/// hands it to the host.
#[verifier::external_type_specification]
#[verifier::external_body]
pub struct ExFillTessellator(FillTessellator);

/// `lyon_tessellation::StrokeTessellator`, taken on trust as an opaque type
/// like the fill tessellator.
#[verifier::external_type_specification]
#[verifier::external_body]
pub struct ExStrokeTessellator(StrokeTessellator);

/// `lyon_tessellation::FillTessellator::new`, taken on trust: it takes
/// nothing, fills the fields of a tessellator with empty buffers and
/// defaults, and returns it; a debug build also looks up one environment
/// variable that switches its logging on. Nothing is claimed of the value.
pub assume_specification[ FillTessellator::new ]() -> (tessellator: FillTessellator)
;

/// `lyon_tessellation::StrokeTessellator::new`, taken on trust: it takes
/// nothing and returns a tessellator with empty buffers. Nothing is
/// claimed of the value.
pub assume_specification[ StrokeTessellator::new ]() -> (tessellator: StrokeTessellator)
;

/// Stages for this plugin.
#[derive(Debug, Hash, PartialEq, Eq, Clone, Copy)]
pub enum Stage {
    /// Stage in which the meshes of SVG documents are kept in step.
    SVG,
}

/// A plugin that provides the world and the passes to draw SVG documents.
#[derive(Debug, Clone, Copy)]
pub struct SvgPlugin;

/// What the plugin sets up: the world the passes work on and the
/// tessellators the host runs on the paths of a document.
pub struct SvgResources {
    pub world: SvgWorld,
    pub fill_tess: FillTessellator,
    pub stroke_tess: StrokeTessellator,
}

/// What a pass reports to the host.
pub struct PassReport {
    /// The actions to carry out, in order.
    pub actions: Vec<Action>,
    /// The places in the input of the entries that were refused because they
    /// did not fit the state of their document.
    pub refused: Vec<usize>,
}

impl SvgPlugin {
    /// Builds what the passes need: a fill and a stroke tessellator, and a
    /// world without documents, meshes or bindings.
    pub fn build(&self) -> (resources: SvgResources)
        ensures
            resources.world@ == WorldState::empty(),
            resources.world.wf(),
    {
        let fill_tess = FillTessellator::new();
        let stroke_tess = StrokeTessellator::new();
        SvgResources { world: SvgWorld::new(), fill_tess, stroke_tess }
    }

    /// The stage the passes belong to.
    pub fn stage(&self) -> (stage: Stage)
        ensures
            stage == Stage::SVG,
    {
        Stage::SVG
    }
}

/// The asset pass: takes the events of one tick in arrival order. An event
/// that does not fit the state of its document is skipped and reported; the
/// others change the world and add their actions.
pub fn svg_mesh_linker(world: &mut SvgWorld, events: &Vec<AssetEvent>) -> (report: PassReport)
    requires
        old(world).wf(),
    ensures
        final(world).wf(),
        final(world)@ == old(world)@.apply_all(events@),
        report.actions@ == old(world)@.actions_of_all(events@),
        report.refused@ == old(world)@.refused_of_all(events@),
{
    let ghost before = world@;
    let mut actions: Vec<Action> = Vec::new();
    let mut refused: Vec<usize> = Vec::new();
    let mut i: usize = 0;
    while i < events.len()
        invariant
            i <= events.len(),
            world.wf(),
            world@ == before.apply_all(events@.take(i as int)),
            actions@ == before.actions_of_all(events@.take(i as int)),
            refused@ == before.refused_of_all(events@.take(i as int)),
        decreases events.len() - i,
    {
        proof {
            assert(events@.take(i + 1).drop_last() =~= events@.take(i as int));
        }
        match world.handle_event(events[i]) {
            Ok(more) => {
                let mut more = more;
                actions.append(&mut more);
            },
            Err(_) => {
                refused.push(i);
            },
        }
        i += 1;
    }
    assert(events@.take(i as int) =~= events@);
    PassReport { actions, refused }
}

/// The late-binding pass: takes the entities whose reference was added or
/// changed, in order. Each is bound, and brought in line at once where its
/// document has a current mesh; where the document is not ready nothing is
/// asked of the host. A reference to a removed document is dropped and
/// reported.
pub fn set_svg_meshes(world: &mut SvgWorld, changes: &Vec<BindingChange>) -> (report: PassReport)
    requires
        old(world).wf(),
    ensures
        final(world).wf(),
        final(world)@ == old(world)@.bind_all(changes@),
        report.actions@ == old(world)@.bind_actions_of_all(changes@),
        report.refused@ == old(world)@.refused_binds_of_all(changes@),
{
    let ghost before = world@;
    let mut actions: Vec<Action> = Vec::new();
    let mut refused: Vec<usize> = Vec::new();
    let mut i: usize = 0;
    while i < changes.len()
        invariant
            i <= changes.len(),
            world.wf(),
            world@ == before.bind_all(changes@.take(i as int)),
            actions@ == before.bind_actions_of_all(changes@.take(i as int)),
            refused@ == before.refused_binds_of_all(changes@.take(i as int)),
        decreases changes.len() - i,
    {
        proof {
            assert(changes@.take(i + 1).drop_last() =~= changes@.take(i as int));
        }
        let change = changes[i];
        match world.bind(change.entity, change.binding) {
            Ok(more) => {
                let mut more = more;
                actions.append(&mut more);
            },
            Err(_) => {
                refused.push(i);
            },
        }
        i += 1;
    }
    assert(changes@.take(i as int) =~= changes@);
    PassReport { actions, refused }
}

} // verus!
