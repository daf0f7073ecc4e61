//! A constraint-based layout engine.
//!
//! Callers describe geometric relationships between rectangular regions as
//! algebraic and logical constraints over unknown real-valued measurements,
//! and the engine derives concrete values that satisfy as many constraints as
//! possible, weighted by importance, using an external optimizing solver.

pub mod layout;
pub mod widgets;
