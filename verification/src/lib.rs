//! A stochastic simulator core for well-mixed chemical reaction networks.
//!
//! The crate holds the discrete side of the direct-method simulation
//! algorithm: species and reactions, exact propensity factors, state
//! updates and the bookkeeping of trajectories.  Drawing random numbers and
//! the real-valued arithmetic on rates and times belong to the caller.

pub mod engine;
pub mod model;
pub mod rate;
pub mod species;
pub mod text;
pub mod trajectory;
