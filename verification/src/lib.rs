//! Mass escalation for drifting bits.
//!
//! Bits are small point masses that an attack knocks loose. After a short
//! delay they become active; active bits that touch merge into heavier bits,
//! and bits that touch an absorber are taken into its tally. Whenever a bit
//! or an absorber reaches [`mass::MASS_THRESHOLD`] a [`mass::CoalesceEvent`]
//! is raised for whoever spawns the next enemy.
//!
//! Every phase is a function from plain values (handles, masses, contact
//! pairs) to plain values, so the rules can be stated and proved without a
//! physics engine in sight.

pub mod absorber;
pub mod activation;
pub mod attraction;
pub mod bit;
pub mod coalesce;
pub mod emitter;
pub mod error;
pub mod handle;
pub mod laws;
pub mod mass;
pub mod timer;
pub mod world;
