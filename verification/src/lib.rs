//! A line-level diff library with a numeric-tolerant notion of equality.
//!
//! The core is a generic minimum-edit-distance engine (`engine::diff_ops`)
//! parametrized by an equality predicate and an editability predicate, both
//! supplied through the `engine::DiffPolicy` trait.  The engine is reused at
//! the character level to decide whether two lines differ only in digit runs
//! (`oracle::lines_equal`), and its output is rendered through a
//! fixed-capacity context buffer (`render::render`).  `pipeline::diff`
//! composes the three.
//!
//! Every executable function's result is pinned to the spec functions of
//! `model`; `laws` proves the structural laws of the engine on top of them.

pub mod engine;
pub mod grid;
pub mod laws;
pub mod model;
pub mod ops;
pub mod oracle;
pub mod pipeline;
pub mod render;

pub use engine::{diff_ops, DiffPolicy};
pub use ops::{opsel_min, BareOp, Op};
pub use oracle::{lines_equal, CharPolicy};
pub use pipeline::{check_fits, diff, LinePolicy};
pub use render::{render, ContextBuffer, Tag, TaggedLine};
