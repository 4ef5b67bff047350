//! The projection operator: one child, a fixed output schema, and one
//! expression per output field.

use std::sync::Arc;

use vstd::prelude::*;

use crate::data_source::DataSource;
use crate::data_type::Schema;
use crate::expression::Expr;
use crate::physical_plan::Plan;

verus! {

/// Holds one child operator, the output schema, and expressions whose count
/// and order match that schema's fields.  Its stream evaluates every
/// expression against each successful child batch, in declared order, and
/// builds a new batch from the stored schema; failed items pass through
/// untouched.
pub struct ProjectionExec<D: DataSource> {
    pub input: Arc<Plan<D>>,
    pub schema: Schema,
    pub expr: Vec<Expr>,
}

impl<D: DataSource> ProjectionExec<D> {
    /// A projection of `input` through `expr` onto `schema`.
    pub fn new(input: Arc<Plan<D>>, schema: Schema, expr: Vec<Expr>) -> (r: ProjectionExec<D>)
        ensures
            *r.input == *input,
            r.schema == schema,
            r.expr == expr,
    {
        ProjectionExec { input, schema, expr }
    }
}

} // verus!
