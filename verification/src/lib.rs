//! Removes the common "accidental" leading-space prefix from every line of a
//! multi-line text block, so that text written indented to match surrounding
//! code comes out as if written at column zero.

pub mod engine;
pub mod laws;
pub mod model;

pub use engine::analyze;
pub use engine::dedent;
pub use engine::remove_space;
pub use engine::DedentError;
pub use engine::Line;
pub use engine::Lines;
