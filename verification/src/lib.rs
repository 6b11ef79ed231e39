//! Verified core of a two-dimensional predator/prey simulation: the data
//! model of agents and world, and the bookkeeping of one tick.
//!
//! The library holds every quantity as the bit pattern of a single-precision
//! number and states of it only what is exact. The embedding program does
//! the arithmetic on reals, draws the random numbers and hands the results
//! in, phase by phase; the library checks them against the world, writes
//! them down and keeps the phases of a tick in their order.

pub mod activations;
pub mod blobs;
pub mod brains;
pub mod cli;
pub mod constants;
pub mod laws;
pub mod phases;
pub mod scalar;
pub mod tick;
pub mod utils;
pub mod world;
