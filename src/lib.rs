//! A population of walkers that repel one another and leave bounded trails.
//!
//! The library holds the parts of the simulation that are independent of how
//! positions and forces are represented: the domain configuration, the bounded
//! trail of past positions, the per-tick orchestration over every unordered
//! pair of walkers, and the sampling of population sizes and step ranges.
pub mod config;
mod random;
pub mod simulation;
pub mod steps;
pub mod trail;
