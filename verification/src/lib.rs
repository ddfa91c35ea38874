//! Maintains a bounded, recency-ordered, deduplicated list of filesystem
//! locations referenced by shell commands: a tokenizer for shell-like
//! command lines, a verb classifier with path expansion, and a
//! duplicate-free ordered record store with capacity-bounded write-back.

pub mod strutil;
pub mod classify;
pub mod records;
pub mod store;
pub mod tokenize;
