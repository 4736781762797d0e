//! An offline production-chain planner for a factory-building game.
//!
//! The library normalizes a prototype catalog into a uniform recipe/machine/
//! research graph, expands production goals into a flat work ledger, shares
//! the work across the owned machines by crafting speed, closes the energy
//! feedback loop to a fixed point, and offers a hill-climbing meta-planner
//! that inserts "build more machines" tasks to reduce the completion time.

pub mod catalog;
pub mod dict;
pub mod graph;
pub mod laws;
pub mod plan;
pub mod qty;
pub mod step;
pub mod text;
pub mod world;

pub use qty::Number;
pub use qty::NumberType;
