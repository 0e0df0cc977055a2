//! An interactive particle simulator core: point masses attract one another
//! and move under accumulated forces, with optional immovable anchors, bounded
//! motion trails, and persistence of the particle list to a structured text
//! snapshot.
//!
//! Every scalar is carried as the bit pattern of an IEEE 754 double-precision
//! value.  The core owns all structural decisions — which pairs exert force,
//! how trails evolve, how state reacts to commands, how snapshots are framed —
//! while the numeric evaluation itself is supplied by the caller as closures,
//! whose data flow the contracts pin down with `call_ensures`.

pub mod codec;
pub mod command;
pub mod particle;
pub mod physics;
pub mod state;
