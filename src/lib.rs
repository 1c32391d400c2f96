//! Placement of performers on a stage so that the audience enjoys them most.
//!
//! Positions are integer room coordinates. A placement is scored by the
//! inverse-square model of `scoring`, searched by the particle swarm of
//! `swarm`, driven per performer or jointly by `optimizer`, or handed to an
//! exact solver through the model of `exact`.

pub mod models;
pub mod scoring;
pub mod swarm;
pub mod optimizer;
pub mod exact;

pub use models::{Attendee, Instrument, Position, ProblemSpec, Solution, PlacementError};
pub use optimizer::{particle_swarm_optimizer, independent_optimizer, AttendeeId, MusicianId};
pub use exact::optimize;
