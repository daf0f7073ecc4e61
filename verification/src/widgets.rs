//! Widget shapes built on the core: the canonical rectangle.

pub mod rectangle;
