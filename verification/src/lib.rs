//! Path evaluation and in-place update over JSON-like tree values.
//!
//! A compiled path is an ordered list of steps (single/multi index, or
//! range), each carrying a policy that decides whether a failing step
//! aborts the whole evaluation or silently drops that branch.  `collect`
//! reads the sub-values a path designates; `update` rewrites them through
//! a caller-supplied transformer that may replace, delete or multiply
//! each located value.

pub mod bounds;
pub mod eval;
pub mod laws;
pub mod model;
pub mod path;
pub mod update;
pub mod val;
