//! A stochastic, color-drifting growth simulation on a fixed-size 2D grid:
//! organisms spread into adjacent empty cells tick by tick, each new one
//! taking a bounded random perturbation of its parent's color. The grid
//! model, the edit operations and the update engine are verified; rendering
//! and input belong to the surrounding program.

pub mod color;
pub mod engine;
pub mod grid;
mod rng;
