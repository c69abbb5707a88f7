//! Structural diff of JSON-shaped values.
//!
//! The crate compares two tree-shaped values ([`Value`]) and reports every
//! point where they disagree as an optional [`Difference`] tree; equal
//! subtrees are pruned rather than reported.

pub mod compare;
pub mod diff;
pub mod laws;
pub mod value;

pub use compare::arrays;
pub use compare::objects;
pub use compare::values;
pub use diff::ArrayDifference;
pub use diff::Difference;
pub use diff::DumbMap;
pub use diff::EntryDifference;
pub use diff::ScalarDifference;
pub use diff::TypeDifference;
pub use value::Number;
pub use value::Type;
pub use value::Value;
