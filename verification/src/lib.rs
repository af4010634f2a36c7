//! Core of a particle-life simulation: typed particles interacting through a
//! pairwise, type-indexed force law, advanced tick by tick by an integrator.
//!
//! All state is kept in fixed-point integers (milli-units, see [`math::SCALE`]),
//! so every formula here is exact and provable. Emission draws randomness from
//! an outside generator behind a narrow trusted wrapper; rendering is left to
//! the caller, which only needs the screen cells computed here.

pub mod emitter;
pub mod force;
pub mod integrator;
pub mod math;
pub mod model;
pub mod render;
