//! Execution core of a columnar query engine.
//!
//! A tree of physical operators (scan, filter, projection, hash join) over a
//! tabular data source produces a lazily-computed sequence of typed,
//! column-oriented row batches.  The data model (schemas, column vectors,
//! record batches), the expression evaluator, and the operators are verified:
//! each public function carries a contract describing its result over a
//! mathematical model of the data.

pub mod data_source;
pub mod data_type;
pub mod error;
pub mod expression;
pub mod laws;
pub mod physical_plan;
pub mod stream;
