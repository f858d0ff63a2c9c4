//! Event-driven simulation of the SIS (susceptible-infected-susceptible)
//! epidemic process on a fixed contact graph, using the rejection variant of
//! Gillespie's algorithm. Time is counted in integer ticks.

pub mod event;
pub mod queue;
pub mod count;
mod random;
pub mod sim;
pub mod text;
pub mod graph;
pub mod trace;
pub mod laws;
