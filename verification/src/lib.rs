//! An in-process, in-memory document store: collections of schema-less
//! structured documents queried and mutated through a small declarative
//! operator language (`$eq`, `$gt`, `$and`, `$set`, `$inc`, ...).
//!
//! The crate centers on the query predicate evaluator and the update
//! executor: interpreters over a recursive, dynamically typed value model
//! with dotted-path resolution, type-aware comparisons (including array
//! semantics), and numeric-representation-preserving arithmetic.  The
//! collection store scans those interpreters over an insertion-ordered
//! sequence of documents.

pub mod collection;
pub mod errors;
pub mod eval;
pub mod update;
pub mod utils;
pub mod value;
