//! Simulation core of a tile-based automated-factory game.
//!
//! The crate owns three tightly coupled subsystems:
//! a generational structure arena with split-borrow iteration,
//! a power-network builder that partitions the wire graph into
//! connected components, and a fluid-flow engine that diffuses fluid
//! between adjacent containers each tick.  Rendering, input handling
//! and persistence to browser storage are left to the embedding layer;
//! this crate works purely on plain values.

pub mod arena;
pub mod flow;
pub mod fluid;
pub mod geom;
pub mod items;
pub mod power;
pub mod save;
pub mod state;
pub mod structure;
