//! The filter operator: one child and one boolean-valued predicate.

use std::sync::Arc;

use vstd::prelude::*;

use crate::data_source::DataSource;
use crate::expression::Expr;
use crate::physical_plan::Plan;

verus! {

/// Holds one child operator and a predicate expression.  Filtering never
/// changes column shape, so its schema is the child's schema unchanged;
/// its stream masks each successful child batch by the evaluated predicate
/// and passes failed items through untouched.
pub struct FilterExec<D: DataSource> {
    pub input: Arc<Plan<D>>,
    pub predicate: Expr,
}

impl<D: DataSource> FilterExec<D> {
    /// A filter of `input` by `predicate`.
    pub fn new(input: Arc<Plan<D>>, predicate: Expr) -> (r: FilterExec<D>)
        ensures
            *r.input == *input,
            r.predicate == predicate,
    {
        FilterExec { input, predicate }
    }
}

} // verus!
