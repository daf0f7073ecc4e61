//! The core constraint-modeling pipeline: expression arenas, measure and
//! proposition algebras, translation into the solver's native form, and the
//! layout builder that drives a solve.

pub mod builder;
pub mod context;
pub mod measure;
pub mod prop;
pub mod rational;
pub mod solver;
pub mod text;
pub mod widget;
