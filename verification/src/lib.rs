/// Coordinates of realms, columns and spatial units.
pub mod coords;
/// An observer's visibility window and its set algebra.
pub mod load_area;
/// The reference-counted unit-to-observers registry with Load and Unload
/// events.
pub mod registry;
/// The deduplicated queue of dirty spatial-unit keys.
pub mod change_queue;
/// The render-entity table and the per-tick reconciliation step.
pub mod render;
/// The per-observer window tracker driving registry transitions.
pub mod tracker;
/// The break-rule table with its fallback lookup cascade.
pub mod block_breaking;
