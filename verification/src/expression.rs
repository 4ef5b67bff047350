//! Expressions: polymorphic computations over a record batch that produce
//! one column vector (a mask, a derived column, or an aggregate input).
//!
//! Evaluation is pure and side-effect free; on success the result always has
//! as many cells as the batch has rows.  The whole evaluator is specified by
//! [`eval_spec`], a recursive function over the batch model.

use vstd::prelude::*;

use crate::data_type::{
    batch_rows, batch_wf, result_models, val_dtype, vals_model, BatchModel, ColModel,
    ColumnVector, Datatype, FieldModel, RecordBatch, Val, Value, value_eq,
};
use crate::error::Error;

verus! {

/// Element-wise binary operators: comparison, boolean and arithmetic.
#[derive(Clone, Copy, Debug, PartialEq, Eq, Structural)]
pub enum BinaryOp {
    Eq,
    NotEq,
    Gt,
    And,
    Or,
    Add,
    Subtract,
}

/// The aggregate functions an aggregate expression can name.
#[derive(Clone, Copy, Debug, PartialEq, Eq, Structural)]
pub enum AggregateFunction {
    Sum,
    Count,
    Avg,
    Min,
    Max,
}

/// A physical expression, evaluated against a record batch.
#[derive(Debug)]
pub enum Expr {
    /// A column reference, looked up by name in the batch's schema.
    Column(String),
    /// A constant, broadcast to the batch's row count on evaluation.
    Literal(Value),
    /// An operator applied element-wise over two evaluated child columns.
    Binary { op: BinaryOp, l: Box<Expr>, r: Box<Expr> },
    /// An aggregate input; evaluating it outside an aggregation context is
    /// an `UnsupportedContext` error.
    Aggregate { func: AggregateFunction, input: Box<Expr> },
}

impl Clone for Expr {
    fn clone(&self) -> (res: Self)
        ensures
            res == *self,
        decreases *self,
    {
        match self {
            Expr::Column(name) => Expr::Column(name.clone()),
            Expr::Literal(v) => Expr::Literal(v.clone()),
            Expr::Binary { op, l, r } => Expr::Binary {
                op: *op,
                l: Box::new((**l).clone()),
                r: Box::new((**r).clone()),
            },
            Expr::Aggregate { func, input } => Expr::Aggregate {
                func: *func,
                input: Box::new((**input).clone()),
            },
        }
    }
}

/// The datatype of an operator's result for the given operand datatypes, or
/// `None` where the operator cannot accept them.  `Float64` operands are
/// refused: the core never interprets floating-point bit patterns.
pub open spec fn binary_result_dtype(op: BinaryOp, l: Datatype, r: Datatype) -> Option<Datatype> {
    match op {
        BinaryOp::And | BinaryOp::Or => if l == Datatype::Boolean && r == Datatype::Boolean {
            Some(Datatype::Boolean)
        } else {
            None
        },
        BinaryOp::Eq | BinaryOp::NotEq => if l == r && l != Datatype::Float64 {
            Some(Datatype::Boolean)
        } else {
            None
        },
        BinaryOp::Gt => if l == Datatype::Int64 && r == Datatype::Int64 {
            Some(Datatype::Boolean)
        } else {
            None
        },
        BinaryOp::Add | BinaryOp::Subtract => if l == Datatype::Int64 && r == Datatype::Int64 {
            Some(Datatype::Int64)
        } else {
            None
        },
    }
}

/// The boolean held by a boolean value (immaterial for other values).
pub open spec fn as_bool(v: Val) -> bool {
    match v {
        Val::Boolean(b) => b,
        _ => false,
    }
}

/// The integer held by an integer value (immaterial for other values).
pub open spec fn as_int(v: Val) -> i64 {
    match v {
        Val::Int64(x) => x,
        _ => 0,
    }
}

/// One element-wise application of a binary operator to two cells whose
/// datatypes the operator accepts.  Integer arithmetic wraps on overflow.
pub open spec fn apply_binary_val(op: BinaryOp, a: Val, b: Val) -> Val {
    match op {
        BinaryOp::And => Val::Boolean(as_bool(a) && as_bool(b)),
        BinaryOp::Or => Val::Boolean(as_bool(a) || as_bool(b)),
        BinaryOp::Eq => Val::Boolean(a == b),
        BinaryOp::NotEq => Val::Boolean(a != b),
        BinaryOp::Gt => Val::Boolean(as_int(a) > as_int(b)),
        BinaryOp::Add => Val::Int64(as_int(a).wrapping_add(as_int(b))),
        BinaryOp::Subtract => Val::Int64(as_int(a).wrapping_sub(as_int(b))),
    }
}

/// What applying a binary operator to two evaluated columns yields: a
/// `LengthMismatch` error for columns of unequal length, a `TypeMismatch`
/// error for datatypes the operator refuses, else the element-wise result.
pub open spec fn eval_binary_spec(op: BinaryOp, l: ColModel, r: ColModel) -> Result<
    ColModel,
    Error,
> {
    if l.vals.len() != r.vals.len() {
        Err(Error::LengthMismatch)
    } else {
        match binary_result_dtype(op, l.dtype, r.dtype) {
            None => Err(Error::TypeMismatch),
            Some(d) => Ok(
                ColModel {
                    dtype: d,
                    vals: Seq::new(
                        l.vals.len(),
                        |i: int| apply_binary_val(op, l.vals[i], r.vals[i]),
                    ),
                },
            ),
        }
    }
}

/// The position of the first field with the given name, if any.
pub open spec fn field_index(s: Seq<FieldModel>, name: Seq<char>) -> Option<int>
    decreases s.len(),
{
    if s.len() == 0 {
        None
    } else if s[0].name == name {
        Some(0)
    } else {
        match field_index(s.drop_first(), name) {
            None => None,
            Some(i) => Some(i + 1),
        }
    }
}

/// A match at `i`, with no match before it, is the first match.
proof fn lemma_field_index_first(s: Seq<FieldModel>, name: Seq<char>, i: int)
    requires
        0 <= i < s.len(),
        s[i].name == name,
        forall|j: int| 0 <= j < i ==> (#[trigger] s[j].name) != name,
    ensures
        field_index(s, name) == Some(i),
    decreases i,
{
    if i > 0 {
        lemma_field_index_first(s.drop_first(), name, i - 1);
    }
}

/// With no match anywhere there is no first match.
proof fn lemma_field_index_none(s: Seq<FieldModel>, name: Seq<char>)
    requires
        forall|j: int| 0 <= j < s.len() ==> (#[trigger] s[j].name) != name,
    ensures
        field_index(s, name) is None,
    decreases s.len(),
{
    if s.len() > 0 {
        lemma_field_index_none(s.drop_first(), name);
    }
}

/// The first match lies within the schema.
pub proof fn lemma_field_index_in_bounds(s: Seq<FieldModel>, name: Seq<char>)
    ensures
        field_index(s, name) matches Some(i) ==> 0 <= i < s.len(),
    decreases s.len(),
{
    if s.len() > 0 {
        lemma_field_index_in_bounds(s.drop_first(), name);
    }
}

/// What evaluating an expression against a batch yields.
///
/// A column reference resolves to the first schema field of that name, or an
/// `UnknownColumn` error; a literal broadcasts to the row count; a binary
/// expression evaluates its children left to right, propagating the first
/// error, and applies the operator element-wise; an aggregate expression is
/// an `UnsupportedContext` error outside an aggregation context.
pub open spec fn eval_spec(e: Expr, b: BatchModel) -> Result<ColModel, Error>
    decreases e,
{
    match e {
        Expr::Column(name) => match field_index(b.schema, name@) {
            None => Err(Error::UnknownColumn),
            Some(i) => Ok(b.columns[i]),
        },
        Expr::Literal(v) => Ok(
            ColModel { dtype: val_dtype(v@), vals: Seq::new(batch_rows(b), |i: int| v@) },
        ),
        Expr::Binary { op, l, r } => match eval_spec(*l, b) {
            Err(er) => Err(er),
            Ok(lc) => match eval_spec(*r, b) {
                Err(er) => Err(er),
                Ok(rc) => eval_binary_spec(op, lc, rc),
            },
        },
        Expr::Aggregate { func, input } => Err(Error::UnsupportedContext),
    }
}

/// The datatype of a cell value.
fn value_dtype(v: &Value) -> (d: Datatype)
    ensures
        d == val_dtype(v@),
{
    match v {
        Value::Boolean(_) => Datatype::Boolean,
        Value::Int64(_) => Datatype::Int64,
        Value::Float64(_) => Datatype::Float64,
        Value::String(_) => Datatype::String,
    }
}

/// Decides the result datatype of an operator for two operand datatypes.
fn binary_result_dtype_of(op: BinaryOp, l: Datatype, r: Datatype) -> (res: Option<Datatype>)
    ensures
        res == binary_result_dtype(op, l, r),
{
    match op {
        BinaryOp::And | BinaryOp::Or => {
            if l == Datatype::Boolean && r == Datatype::Boolean {
                Some(Datatype::Boolean)
            } else {
                None
            }
        },
        BinaryOp::Eq | BinaryOp::NotEq => {
            if l == r && l != Datatype::Float64 {
                Some(Datatype::Boolean)
            } else {
                None
            }
        },
        BinaryOp::Gt => {
            if l == Datatype::Int64 && r == Datatype::Int64 {
                Some(Datatype::Boolean)
            } else {
                None
            }
        },
        BinaryOp::Add | BinaryOp::Subtract => {
            if l == Datatype::Int64 && r == Datatype::Int64 {
                Some(Datatype::Int64)
            } else {
                None
            }
        },
    }
}

/// Applies a binary operator to two cells whose datatypes it accepts.
fn apply_binary_value(op: BinaryOp, a: &Value, b: &Value) -> (res: Value)
    requires
        binary_result_dtype(op, val_dtype(a@), val_dtype(b@)) is Some,
    ensures
        res@ == apply_binary_val(op, a@, b@),
        val_dtype(res@) == binary_result_dtype(op, val_dtype(a@), val_dtype(b@)).unwrap(),
{
    match op {
        BinaryOp::And => {
            let x = match a {
                Value::Boolean(x) => *x,
                _ => {
                    proof {
                        assert(false);
                    }
                    false
                },
            };
            let y = match b {
                Value::Boolean(y) => *y,
                _ => {
                    proof {
                        assert(false);
                    }
                    false
                },
            };
            Value::Boolean(x && y)
        },
        BinaryOp::Or => {
            let x = match a {
                Value::Boolean(x) => *x,
                _ => {
                    proof {
                        assert(false);
                    }
                    false
                },
            };
            let y = match b {
                Value::Boolean(y) => *y,
                _ => {
                    proof {
                        assert(false);
                    }
                    false
                },
            };
            Value::Boolean(x || y)
        },
        BinaryOp::Eq => Value::Boolean(value_eq(a, b)),
        BinaryOp::NotEq => Value::Boolean(!value_eq(a, b)),
        BinaryOp::Gt => {
            let x = match a {
                Value::Int64(x) => *x,
                _ => {
                    proof {
                        assert(false);
                    }
                    0
                },
            };
            let y = match b {
                Value::Int64(y) => *y,
                _ => {
                    proof {
                        assert(false);
                    }
                    0
                },
            };
            Value::Boolean(x > y)
        },
        BinaryOp::Add => {
            let x = match a {
                Value::Int64(x) => *x,
                _ => {
                    proof {
                        assert(false);
                    }
                    0
                },
            };
            let y = match b {
                Value::Int64(y) => *y,
                _ => {
                    proof {
                        assert(false);
                    }
                    0
                },
            };
            Value::Int64(x.wrapping_add(y))
        },
        BinaryOp::Subtract => {
            let x = match a {
                Value::Int64(x) => *x,
                _ => {
                    proof {
                        assert(false);
                    }
                    0
                },
            };
            let y = match b {
                Value::Int64(y) => *y,
                _ => {
                    proof {
                        assert(false);
                    }
                    0
                },
            };
            Value::Int64(x.wrapping_sub(y))
        },
    }
}

/// Applies a binary operator element-wise over two evaluated columns.
fn eval_binary(op: BinaryOp, l: &ColumnVector, r: &ColumnVector) -> (res: Result<
    ColumnVector,
    Error,
>)
    ensures
        result_models(res, eval_binary_spec(op, l@, r@)),
{
    let n = l.len();
    if r.len() != n {
        return Err(Error::LengthMismatch);
    }
    let d = match binary_result_dtype_of(op, l.get_type(), r.get_type()) {
        None => {
            return Err(Error::TypeMismatch);
        },
        Some(d) => d,
    };
    proof {
        crate::data_type::lemma_column_view_wf(l);
        crate::data_type::lemma_column_view_wf(r);
    }
    let mut vals: Vec<Value> = Vec::new();
    for i in 0..n
        invariant
            n == l@.vals.len(),
            n == r@.vals.len(),
            crate::data_type::col_wf(l@),
            crate::data_type::col_wf(r@),
            binary_result_dtype(op, l@.dtype, r@.dtype) == Some(d),
            vals@.len() == i,
            forall|j: int|
                0 <= j < i ==> (#[trigger] vals@[j]@) == apply_binary_val(op, l@.vals[j], r@.vals[j]),
            forall|j: int| 0 <= j < i ==> val_dtype(#[trigger] vals@[j]@) == d,
    {
        let a = l.get(i);
        let b = r.get(i);
        let v = apply_binary_value(op, &a, &b);
        vals.push(v);
    }
    let out = match ColumnVector::from_vals(d, &vals) {
        Ok(c) => c,
        Err(e) => {
            proof {
                assert(forall|j: int|
                    0 <= j < n ==> val_dtype(#[trigger] vals_model(vals@)[j]) == d);
                assert(false);
            }
            return Err(e);
        },
    };
    proof {
        assert(forall|j: int| 0 <= j < n ==> val_dtype(#[trigger] vals_model(vals@)[j]) == d);
        assert(out@.vals =~= eval_binary_spec(op, l@, r@).unwrap().vals);
    }
    Ok(out)
}

impl Expr {
    /// Evaluates this expression against a batch, yielding one column whose
    /// length equals the batch's row count, or the first error met.
    pub fn evaluate(&self, input: &RecordBatch) -> (r: Result<ColumnVector, Error>)
        ensures
            result_models(r, eval_spec(*self, input@)),
            r matches Ok(cv) ==> cv@.vals.len() == batch_rows(input@),
        decreases *self,
    {
        proof {
            use_type_invariant(&*input);
        }
        match self {
            Expr::Column(name) => {
                let schema = input.schema();
                let n = schema.len();
                for i in 0..n
                    invariant
                        *self == Expr::Column(*name),
                        n == input@.schema.len(),
                        batch_wf(input@),
                        schema@ == input@.schema,
                        forall|j: int| 0 <= j < i ==> (#[trigger] input@.schema[j].name) != name@,
                {
                    if schema.field_at(i).name == *name {
                        proof {
                            lemma_field_index_first(input@.schema, name@, i as int);
                        }
                        return Ok(input.field(i).clone());
                    }
                }
                proof {
                    lemma_field_index_none(input@.schema, name@);
                }
                Err(Error::UnknownColumn)
            },
            Expr::Literal(v) => {
                let rows = input.row_count();
                Ok(ColumnVector::repeat(v, rows))
            },
            Expr::Binary { op, l, r } => {
                let lc = match l.evaluate(input) {
                    Ok(c) => c,
                    Err(e) => {
                        return Err(e);
                    },
                };
                let rc = match r.evaluate(input) {
                    Ok(c) => c,
                    Err(e) => {
                        return Err(e);
                    },
                };
                eval_binary(*op, &lc, &rc)
            },
            Expr::Aggregate { func, input } => Err(Error::UnsupportedContext),
        }
    }
}

/// What evaluating a list of expressions in order yields: the evaluated
/// columns, or the first error met.
pub open spec fn eval_all(exprs: Seq<Expr>, b: BatchModel) -> Result<Seq<ColModel>, Error>
    decreases exprs.len(),
{
    if exprs.len() == 0 {
        Ok(Seq::empty())
    } else {
        match eval_all(exprs.drop_last(), b) {
            Err(er) => Err(er),
            Ok(rest) => match eval_spec(exprs.last(), b) {
                Err(er) => Err(er),
                Ok(c) => Ok(rest.push(c)),
            },
        }
    }
}

/// On a well-formed batch a successful evaluation has one cell per row.
pub proof fn lemma_eval_spec_len(e: Expr, b: BatchModel)
    requires
        batch_wf(b),
    ensures
        eval_spec(e, b) matches Ok(c) ==> c.vals.len() == batch_rows(b),
    decreases e,
{
    match e {
        Expr::Column(name) => {
            lemma_field_index_in_bounds(b.schema, name@);
        },
        Expr::Literal(v) => {},
        Expr::Binary { op, l, r } => {
            lemma_eval_spec_len(*l, b);
            lemma_eval_spec_len(*r, b);
        },
        Expr::Aggregate { func, input } => {},
    }
}

/// An error in a prefix of the expression list decides the whole list.
pub proof fn lemma_eval_all_prefix_err(exprs: Seq<Expr>, b: BatchModel, k: int)
    requires
        0 <= k <= exprs.len(),
        eval_all(exprs.take(k), b) is Err,
    ensures
        eval_all(exprs, b) == eval_all(exprs.take(k), b),
    decreases exprs.len() - k,
{
    if k < exprs.len() {
        assert(exprs.take(k + 1).drop_last() =~= exprs.take(k));
        lemma_eval_all_prefix_err(exprs, b, k + 1);
    } else {
        assert(exprs.take(k) =~= exprs);
    }
}

} // verus!
