//! Errors reported by the document store.

use vstd::prelude::*;

verus! {

/// Every failure the evaluator, the update executor, or a collection
/// operation can report.
#[derive(Debug, Clone, Copy, PartialEq, Eq, Structural)]
pub enum Error {
    /// A document, query, or update argument is not an object where one is
    /// required.
    NotAnObject,
    /// An unsupported or misplaced operator token: an unknown comparison or
    /// update operator, an operator segment inside a multi-segment query
    /// path, or update keys that mix operator and literal keys.
    InvalidOperator,
    /// A comparison operand is an object where a scalar or array is
    /// required, or an update operator's value is not the shape its handler
    /// expects.
    InvalidValue,
    /// A comparison or arithmetic step between incompatible value kinds.
    InvalidType,
    /// An update path contains an operator token.
    OperatorNotAllowedInPath,
    /// A catalog lookup failed to find the named collection.
    CollectionNotFound,
}

} // verus!
