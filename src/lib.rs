//! Display lists and stacking contexts: ordered, clippable, hit-testable painting instructions.
pub mod geometry;
pub mod clip;
pub mod item;
pub mod list;
pub mod context;
pub mod hit;
pub mod paint;
