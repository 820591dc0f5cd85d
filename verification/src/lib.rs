//! Kinematic and collision core of a 2D platformer on an integer grid.
//!
//! Positions are integer grid points; sub-unit quantities (velocity,
//! acceleration, pending displacement) are fixed-point numbers with
//! `SCALE` subunits per grid unit. Each simulated tick the integrator
//! advances acceleration into velocity and velocity into a pending
//! displacement, and the sweep resolver then walks that displacement in
//! unit ministeps against the static level geometry, sliding along
//! walls and floors and classifying the actor's contact state.

pub mod aabb;
pub mod components;
pub mod kinematics;
pub mod pixels;
pub mod resolver;
pub mod vec2;
