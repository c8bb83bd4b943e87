//! Name resolution (binding) for a clause-structured SQL query IR.
//!
//! Given an ordered schema of the tables joined in a query's FROM clause and
//! the session's current database, the rewriter replaces every column
//! reference in every clause of the IR with a fully disambiguated `Column`,
//! expands bare `*` projection items into the concrete column list, and fails
//! fast with a precise diagnostic on the first invalid reference.

pub mod error;
pub mod laws;
pub mod expr;
pub mod ir;
pub mod resolution;
pub mod rewriter;
pub mod schema;
