//! Runtime core of a tile-based 2D game engine: a dirty-region tile
//! compositor, a lifecycle and fixed-timestep scheduler, and an input
//! tracker that turns raw device events into deduplicated button events.
pub mod viewport;
pub mod tileset;
pub mod scene;
pub mod text;
pub mod input;
pub mod labels;
pub mod timestep;
pub mod resources;
pub mod engine;
pub mod package;
