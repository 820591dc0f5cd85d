//! Simulation components: immovable level geometry, an actor's movable
//! body, and the actor's kinematic state.

use vstd::prelude::*;
use crate::aabb::{AabbModel, IAabb};
use crate::vec2::{sabs, FxVec2, Vec2Model, MAX_FX};

verus! {

/// Immovable level geometry: one box, created at setup and never
/// mutated during simulation.
#[derive(Clone, Copy, Debug)]
pub struct Static {
    pub aabb: IAabb,
}

impl View for Static {
    type V = AabbModel;

    open spec fn view(&self) -> AabbModel {
        self.aabb@
    }
}

/// An actor's movable body: its box's center is the authoritative
/// simulated position and the only field the resolver moves.
#[derive(Clone, Copy, Debug)]
pub struct Dynamic {
    pub aabb: IAabb,
}

impl View for Dynamic {
    type V = AabbModel;

    open spec fn view(&self) -> AabbModel {
        self.aabb@
    }
}

/// Contact classification of an actor after a resolution pass.
#[derive(Clone, Copy, Debug, PartialEq, Eq, Structural)]
pub enum CollisionStatus {
    Standing,
    FreeFall,
    WallHug,
}

/// Mathematical value of an actor's kinematic state.
pub ghost struct ActorModel {
    pub max_speed: int,
    pub acceleration: Vec2Model,
    pub velocity: Vec2Model,
    pub dp: Vec2Model,
    pub collision: CollisionStatus,
}

/// Per-actor kinematic state, in fixed-point subunits.
#[derive(Clone, Copy, Debug)]
pub struct Actor {
    /// Cap on the velocity magnitude, in subunits per second.
    pub max_speed: i64,
    /// Acceleration accumulated by external forces this tick, reset to
    /// zero by the integrator; subunits per second squared.
    pub acceleration: FxVec2,
    /// Velocity persisting across ticks; subunits per second.
    pub velocity: FxVec2,
    /// Pending displacement: the signed distance the actor still wants
    /// to move this tick; subunits.
    pub dp: FxVec2,
    /// Contact classification from the last resolution pass.
    pub collision: CollisionStatus,
}

impl View for Actor {
    type V = ActorModel;

    open spec fn view(&self) -> ActorModel {
        ActorModel {
            max_speed: self.max_speed as int,
            acceleration: self.acceleration@,
            velocity: self.velocity@,
            dp: self.dp@,
            collision: self.collision,
        }
    }
}

/// Kinematic quantities within the bounds the fixed-point arithmetic
/// of the integrator and resolver accepts.
pub open spec fn actor_wf(a: ActorModel) -> bool {
    &&& 0 <= a.max_speed <= MAX_FX
    &&& sabs(a.acceleration.x) <= MAX_FX
    &&& sabs(a.acceleration.y) <= MAX_FX
    &&& sabs(a.velocity.x) <= MAX_FX
    &&& sabs(a.velocity.y) <= MAX_FX
    &&& sabs(a.dp.x) <= MAX_FX
    &&& sabs(a.dp.y) <= MAX_FX
}

} // verus!
