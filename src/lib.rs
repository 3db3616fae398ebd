//! A swarm of solar panels orbiting a central body, each repositioned by
//! Metropolis-style simulated annealing under two hard constraints (distance
//! to the central body, separation between panels) and with an overheat
//! recovery. Lengths, energies and probabilities are fixed-point integers so
//! that every step of the engine is stated and proved exactly.

pub mod driver;
pub mod energy;
pub mod engine;
pub mod geometry;
pub mod laws;
pub mod metropolis;
pub mod model;
pub mod simulation;
