//! Core simulation of a small side-scrolling obstacle game: a gravity-bound
//! player rectangle must pass between pairs of drifting columns.
//!
//! All coordinates and velocities are fixed-point integers (see [`geom`]),
//! so every physics step is exact and fully specified.  Rendering and input
//! polling live outside this crate; the library exposes the state machine,
//! the physics, and the column generator with full contracts.

pub mod columns;
pub mod entity;
pub mod geom;
pub mod input;
pub mod sim;
