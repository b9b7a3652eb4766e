//! An entity-component-system core with a stack of world states.
//!
//! The library manages *data* and *control* for an interactive application:
//! entities (recyclable integer ids), typed component storage registered per
//! world state, and a stack of independent world states that a driver pushes,
//! pops and switches in lockstep with its own application-state stack.
//! Every operation is verified against the state model of [`model`], and the
//! laws of [`laws`] state how the operations compose.

pub mod assoc;
pub mod model;
pub mod ecs;
pub mod laws;
pub mod config;
pub mod state;

pub use ecs::{Entity, Component, World};
