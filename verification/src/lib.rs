//! Functional commitments over a small Lisp-like language.
//!
//! The crate provides a content-addressed store of program terms, a
//! deterministic step-bounded evaluator over that store, a padded-trace
//! relation that certifies a bounded evaluation, and a commitment/opening
//! protocol built on the store's structural hashing.

pub mod field;
pub mod store;
pub mod eval;
pub mod trace;
pub mod fcomm;
pub mod paths;
