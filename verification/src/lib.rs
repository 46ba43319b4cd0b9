//! Queueing theory: the discrete, exactly checkable part of the library.
//!
//! - `kendall`: Kendall's notation A/S/c/K/N/D and its rendering.
//! - `birth_death`: the state space of a birth-death process.
//! - `priority`: the stable ordering, selection and lookup of priority classes.
//! - `networks`: the shape of an open Jackson network.
//! - `staffing`: combining the server counts that service-level targets ask for.

pub mod kendall;
pub mod birth_death;
pub mod priority;
pub mod networks;
pub mod staffing;
