//! Composition engine of an input method editor: it accumulates keystrokes
//! into a pending (pre-edit) string, derives an ordered list of commit
//! candidates from it, lets the caller rotate the candidate selection, and
//! finalizes ("commits") the top candidate, resetting the engine to empty.

pub mod engine;
pub mod folding;
pub mod laws;
pub mod model;
