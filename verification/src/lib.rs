//! Synchronisation core of an SVG-to-mesh rendering plugin.
//!
//! A host engine loads SVG documents, tessellates their paths and draws the
//! resulting meshes on the entities that reference a document. This crate is
//! the part in between:
//!
//! - [`path`] sorts a path before tessellation into drawable, degenerate and
//!   malformed;
//! - [`mesh`] assembles the fragments of a document's paths into one mesh;
//! - [`state`] is the protocol that keeps documents, meshes and entities in
//!   step, as a state machine over mathematical state, and [`guarantees`]
//!   proves what holds of it;
//! - [`world`] is the executable world that carries the protocol out;
//! - [`plugin`] holds the plugin and the two passes a host runs each tick.
//!
//! The host stays in charge of everything that touches the engine: it reads
//! the asset events, runs the tessellator, and carries out the actions the
//! passes hand back.

pub mod handles;
pub mod mesh;
pub mod path;
pub mod state;
pub mod guarantees;
pub mod world;
pub mod plugin;
