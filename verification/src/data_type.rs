//! The columnar value model: datatypes, typed column vectors, schemas and
//! record batches, together with the mathematical model each one is specified
//! against.
//!
//! A column vector is modelled as a datatype tag plus a sequence of abstract
//! values ([`ColModel`]); a record batch as a schema sequence plus a column
//! sequence ([`BatchModel`]).  Every operation states its result over these
//! models.  `Float64` columns carry IEEE-754 bit patterns: the core stores
//! and moves them but never interprets them arithmetically.

use vstd::prelude::*;

use crate::error::Error;

verus! {

/// The logical type of one column.
#[derive(Clone, Copy, Debug, PartialEq, Eq, Structural)]
pub enum Datatype {
    Boolean,
    Int64,
    Float64,
    String,
}

/// The abstract (specification-level) value of one cell.
pub enum Val {
    Boolean(bool),
    Int64(i64),
    Float64(u64),
    String(Seq<char>),
}

/// The datatype an abstract value belongs to.
pub open spec fn val_dtype(v: Val) -> Datatype {
    match v {
        Val::Boolean(_) => Datatype::Boolean,
        Val::Int64(_) => Datatype::Int64,
        Val::Float64(_) => Datatype::Float64,
        Val::String(_) => Datatype::String,
    }
}

/// One concrete cell value, used for literals, join keys and row assembly.
/// A `Float64` value is an IEEE-754 bit pattern.
#[derive(Debug)]
pub enum Value {
    Boolean(bool),
    Int64(i64),
    Float64(u64),
    String(String),
}

impl View for Value {
    type V = Val;

    open spec fn view(&self) -> Val {
        match self {
            Value::Boolean(b) => Val::Boolean(*b),
            Value::Int64(x) => Val::Int64(*x),
            Value::Float64(x) => Val::Float64(*x),
            Value::String(s) => Val::String(s@),
        }
    }
}

impl Clone for Value {
    fn clone(&self) -> (res: Self)
        ensures
            res == *self,
    {
        match self {
            Value::Boolean(b) => Value::Boolean(*b),
            Value::Int64(x) => Value::Int64(*x),
            Value::Float64(x) => Value::Float64(*x),
            Value::String(s) => Value::String(s.clone()),
        }
    }
}

/// Decides whether two values are equal, respecting the datatype: numeric
/// and boolean values compare by value, strings by exact character equality,
/// and values of different datatypes are never equal.
pub fn value_eq(a: &Value, b: &Value) -> (r: bool)
    ensures
        r == (a@ == b@),
{
    match a {
        Value::Boolean(x) => match b {
            Value::Boolean(y) => *x == *y,
            _ => false,
        },
        Value::Int64(x) => match b {
            Value::Int64(y) => *x == *y,
            _ => false,
        },
        Value::Float64(x) => match b {
            Value::Float64(y) => *x == *y,
            _ => false,
        },
        Value::String(x) => match b {
            Value::String(y) => *x == *y,
            _ => false,
        },
    }
}

/// The model of a column vector: its datatype tag and its cell values.
pub struct ColModel {
    pub dtype: Datatype,
    pub vals: Seq<Val>,
}

/// A column model is well formed when every value matches the tag.
pub open spec fn col_wf(c: ColModel) -> bool {
    forall|i: int| 0 <= i < c.vals.len() ==> val_dtype(#[trigger] c.vals[i]) == c.dtype
}

/// The subsequence of `s` kept by a boolean mask of the same length,
/// preserving relative order.
pub open spec fn filtered<A>(s: Seq<A>, mask: Seq<bool>) -> Seq<A>
    decreases s.len(),
{
    if s.len() == 0 || mask.len() == 0 {
        Seq::empty()
    } else if mask.last() {
        filtered(s.drop_last(), mask.drop_last()).push(s.last())
    } else {
        filtered(s.drop_last(), mask.drop_last())
    }
}

/// How many entries of a mask are set.
pub open spec fn count_true(mask: Seq<bool>) -> nat
    decreases mask.len(),
{
    if mask.len() == 0 {
        0
    } else {
        count_true(mask.drop_last()) + if mask.last() {
            1nat
        } else {
            0nat
        }
    }
}

/// A mask keeps exactly as many elements as it has bits set.
pub proof fn lemma_filtered_len<A>(s: Seq<A>, mask: Seq<bool>)
    requires
        s.len() == mask.len(),
    ensures
        filtered(s, mask).len() == count_true(mask),
    decreases s.len(),
{
    if s.len() > 0 {
        lemma_filtered_len(s.drop_last(), mask.drop_last());
    }
}

/// An all-true mask keeps the sequence unchanged.
pub proof fn lemma_filtered_all_true<A>(s: Seq<A>, mask: Seq<bool>)
    requires
        s.len() == mask.len(),
        forall|i: int| 0 <= i < mask.len() ==> mask[i],
    ensures
        filtered(s, mask) == s,
    decreases s.len(),
{
    if s.len() > 0 {
        lemma_filtered_all_true(s.drop_last(), mask.drop_last());
        assert(filtered(s, mask) =~= s);
    } else {
        assert(filtered(s, mask) =~= s);
    }
}

/// Masking commutes with mapping a function over the elements.
pub proof fn lemma_filtered_map<A, B>(s: Seq<A>, mask: Seq<bool>, f: spec_fn(A) -> B)
    requires
        s.len() == mask.len(),
    ensures
        filtered(s.map_values(f), mask) == filtered(s, mask).map_values(f),
    decreases s.len(),
{
    if s.len() == 0 {
        assert(filtered(s.map_values(f), mask) =~= filtered(s, mask).map_values(f));
    } else {
        lemma_filtered_map(s.drop_last(), mask.drop_last(), f);
        assert(s.map_values(f).drop_last() =~= s.drop_last().map_values(f));
        assert(s.map_values(f).last() == f(s.last()));
        if mask.last() {
            assert(filtered(s, mask).map_values(f) =~= filtered(s.drop_last(), mask.drop_last()).map_values(
                f,
            ).push(f(s.last())));
        }
        assert(filtered(s.map_values(f), mask) =~= filtered(s, mask).map_values(f));
    }
}

/// Relates an executable `Result` to its specification-level counterpart:
/// same success or failure, with the success value equal up to the view.
pub open spec fn result_models<T: View>(r: Result<T, Error>, m: Result<T::V, Error>) -> bool {
    match (r, m) {
        (Ok(v), Ok(mv)) => v@ == mv,
        (Err(e), Err(me)) => e == me,
        _ => false,
    }
}

/// Copies a vector of copyable elements.
fn copy_vec<T: Copy>(v: &Vec<T>) -> (r: Vec<T>)
    ensures
        r@ == v@,
{
    let mut out: Vec<T> = Vec::new();
    let n = v.len();
    for i in 0..n
        invariant
            n == v@.len(),
            out@ == v@.take(i as int),
    {
        out.push(v[i]);
        proof {
            assert(out@ =~= v@.take(i + 1));
        }
    }
    proof {
        assert(v@.take(n as int) =~= v@);
    }
    out
}

/// Keeps the elements of a copyable vector selected by a mask.
fn filter_vec_copy<T: Copy>(v: &Vec<T>, mask: &[bool]) -> (r: Vec<T>)
    requires
        v@.len() == mask@.len(),
    ensures
        r@ == filtered(v@, mask@),
{
    let mut out: Vec<T> = Vec::new();
    let n = v.len();
    for i in 0..n
        invariant
            n == v@.len(),
            v@.len() == mask@.len(),
            out@ == filtered(v@.take(i as int), mask@.take(i as int)),
    {
        if mask[i] {
            out.push(v[i]);
        }
        proof {
            assert(v@.take(i + 1).drop_last() =~= v@.take(i as int));
            assert(mask@.take(i + 1).drop_last() =~= mask@.take(i as int));
            assert(v@.take(i + 1).last() == v@[i as int]);
            assert(mask@.take(i + 1).last() == mask@[i as int]);
        }
    }
    proof {
        assert(v@.take(n as int) =~= v@);
        assert(mask@.take(n as int) =~= mask@);
    }
    out
}

/// Keeps the elements of a string vector selected by a mask.
fn filter_vec_string(v: &Vec<String>, mask: &[bool]) -> (r: Vec<String>)
    requires
        v@.len() == mask@.len(),
    ensures
        r@ == filtered(v@, mask@),
{
    let mut out: Vec<String> = Vec::new();
    let n = v.len();
    for i in 0..n
        invariant
            n == v@.len(),
            v@.len() == mask@.len(),
            out@ == filtered(v@.take(i as int), mask@.take(i as int)),
    {
        if mask[i] {
            out.push(v[i].clone());
        }
        proof {
            assert(v@.take(i + 1).drop_last() =~= v@.take(i as int));
            assert(mask@.take(i + 1).drop_last() =~= mask@.take(i as int));
            assert(v@.take(i + 1).last() == v@[i as int]);
            assert(mask@.take(i + 1).last() == mask@[i as int]);
        }
    }
    proof {
        assert(v@.take(n as int) =~= v@);
        assert(mask@.take(n as int) =~= mask@);
    }
    out
}

/// A homogeneous, in-memory, typed column: the unit of storage and of
/// vectorized computation.  The variant tag is the column's datatype and
/// never changes after construction.
#[derive(Debug)]
pub enum ColumnVector {
    Boolean(Vec<bool>),
    Int64(Vec<i64>),
    Float64(Vec<u64>),
    String(Vec<String>),
}

impl View for ColumnVector {
    type V = ColModel;

    open spec fn view(&self) -> ColModel {
        match self {
            ColumnVector::Boolean(v) => ColModel {
                dtype: Datatype::Boolean,
                vals: v@.map_values(|x: bool| Val::Boolean(x)),
            },
            ColumnVector::Int64(v) => ColModel {
                dtype: Datatype::Int64,
                vals: v@.map_values(|x: i64| Val::Int64(x)),
            },
            ColumnVector::Float64(v) => ColModel {
                dtype: Datatype::Float64,
                vals: v@.map_values(|x: u64| Val::Float64(x)),
            },
            ColumnVector::String(v) => ColModel {
                dtype: Datatype::String,
                vals: v@.map_values(|x: String| Val::String(x@)),
            },
        }
    }
}

/// Every column vector's model is well formed: the values match the tag.
pub proof fn lemma_column_view_wf(c: &ColumnVector)
    ensures
        col_wf(c@),
{
}

impl Clone for ColumnVector {
    fn clone(&self) -> (res: Self)
        ensures
            res@ == self@,
    {
        match self {
            ColumnVector::Boolean(v) => ColumnVector::Boolean(copy_vec(v)),
            ColumnVector::Int64(v) => ColumnVector::Int64(copy_vec(v)),
            ColumnVector::Float64(v) => ColumnVector::Float64(copy_vec(v)),
            ColumnVector::String(v) => {
                let mut out: Vec<String> = Vec::new();
                let n = v.len();
                for i in 0..n
                    invariant
                        n == v@.len(),
                        out@.len() == i,
                        forall|j: int| 0 <= j < i ==> #[trigger] out@[j]@ == v@[j]@,
                {
                    out.push(v[i].clone());
                }
                let res = ColumnVector::String(out);
                proof {
                    assert(res@.vals =~= self@.vals);
                }
                res
            },
        }
    }
}

impl ColumnVector {
    /// The number of cells in the column.
    pub fn len(&self) -> (r: usize)
        ensures
            r == self@.vals.len(),
    {
        match self {
            ColumnVector::Boolean(v) => v.len(),
            ColumnVector::Int64(v) => v.len(),
            ColumnVector::Float64(v) => v.len(),
            ColumnVector::String(v) => v.len(),
        }
    }

    /// The datatype of the column, given by its variant tag.
    pub fn get_type(&self) -> (r: Datatype)
        ensures
            r == self@.dtype,
    {
        match self {
            ColumnVector::Boolean(_) => Datatype::Boolean,
            ColumnVector::Int64(_) => Datatype::Int64,
            ColumnVector::Float64(_) => Datatype::Float64,
            ColumnVector::String(_) => Datatype::String,
        }
    }

    /// The cell at position `i`.
    pub fn get(&self, i: usize) -> (r: Value)
        requires
            i < self@.vals.len(),
        ensures
            r@ == self@.vals[i as int],
    {
        match self {
            ColumnVector::Boolean(v) => Value::Boolean(v[i]),
            ColumnVector::Int64(v) => Value::Int64(v[i]),
            ColumnVector::Float64(v) => Value::Float64(v[i]),
            ColumnVector::String(v) => Value::String(v[i].clone()),
        }
    }

    /// A column of `n` copies of one value: the materialization of a literal.
    pub fn repeat(value: &Value, n: usize) -> (r: ColumnVector)
        ensures
            r@.dtype == val_dtype(value@),
            r@.vals == Seq::new(n as nat, |i: int| value@),
    {
        match value {
            Value::Boolean(b) => {
                let mut out: Vec<bool> = Vec::new();
                let mut k: usize = 0;
                while k < n
                    invariant
                        k <= n,
                        out@ == Seq::new(k as nat, |i: int| *b),
                    decreases n - k,
                {
                    out.push(*b);
                    k = k + 1;
                    proof {
                        assert(out@ =~= Seq::new(k as nat, |i: int| *b));
                    }
                }
                let r = ColumnVector::Boolean(out);
                proof {
                    assert(r@.vals =~= Seq::new(n as nat, |i: int| value@));
                }
                r
            },
            Value::Int64(x) => {
                let mut out: Vec<i64> = Vec::new();
                let mut k: usize = 0;
                while k < n
                    invariant
                        k <= n,
                        out@ == Seq::new(k as nat, |i: int| *x),
                    decreases n - k,
                {
                    out.push(*x);
                    k = k + 1;
                    proof {
                        assert(out@ =~= Seq::new(k as nat, |i: int| *x));
                    }
                }
                let r = ColumnVector::Int64(out);
                proof {
                    assert(r@.vals =~= Seq::new(n as nat, |i: int| value@));
                }
                r
            },
            Value::Float64(x) => {
                let mut out: Vec<u64> = Vec::new();
                let mut k: usize = 0;
                while k < n
                    invariant
                        k <= n,
                        out@ == Seq::new(k as nat, |i: int| *x),
                    decreases n - k,
                {
                    out.push(*x);
                    k = k + 1;
                    proof {
                        assert(out@ =~= Seq::new(k as nat, |i: int| *x));
                    }
                }
                let r = ColumnVector::Float64(out);
                proof {
                    assert(r@.vals =~= Seq::new(n as nat, |i: int| value@));
                }
                r
            },
            Value::String(s) => {
                let mut out: Vec<String> = Vec::new();
                let mut k: usize = 0;
                while k < n
                    invariant
                        k <= n,
                        out@.len() == k,
                        forall|j: int| 0 <= j < k ==> #[trigger] out@[j]@ == s@,
                    decreases n - k,
                {
                    out.push(s.clone());
                    k = k + 1;
                }
                let r = ColumnVector::String(out);
                proof {
                    assert(r@.vals =~= Seq::new(n as nat, |i: int| value@));
                }
                r
            },
        }
    }

    /// Assembles a column of datatype `dt` from cell values, failing with a
    /// `TypeMismatch` error when any value has another datatype.
    pub fn from_vals(dt: Datatype, vals: &Vec<Value>) -> (r: Result<ColumnVector, Error>)
        ensures
            result_models(r, from_vals_spec(dt, vals_model(vals@))),
    {
        let n = vals.len();
        if dt == Datatype::Boolean {
                let mut out: Vec<bool> = Vec::new();
                for i in 0..n
                    invariant
                        dt == Datatype::Boolean,
                        n == vals@.len(),
                        out@.len() == i,
                        forall|j: int| 0 <= j < i ==> vals@[j]@ == Val::Boolean(#[trigger] out@[j]),
                {
                    let v = &vals[i];
                    proof {
                        assert(v@ == vals@[i as int]@);
                    }
                    match v {
                        Value::Boolean(b) => out.push(*b),
                        _ => {
                            proof {
                                assert(vals_model(vals@)[i as int] == vals@[i as int]@);
                                assert(val_dtype(v@) != dt);
                            }
                            return Err(Error::TypeMismatch);
                        },
                    }
                }
                let r = ColumnVector::Boolean(out);
                proof {
                    assert forall|j: int| 0 <= j < n implies val_dtype(
                        #[trigger] vals_model(vals@)[j],
                    ) == dt by {
                        assert(vals_model(vals@)[j] == vals@[j]@);
                        assert(0 <= j < out@.len());
                        assert(vals@[j]@ == Val::Boolean(out@[j]));
                    }
                    assert(r@.vals =~= vals_model(vals@));
                }
                Ok(r)
        } else if dt == Datatype::Int64 {
                let mut out: Vec<i64> = Vec::new();
                for i in 0..n
                    invariant
                        dt == Datatype::Int64,
                        n == vals@.len(),
                        out@.len() == i,
                        forall|j: int| 0 <= j < i ==> vals@[j]@ == Val::Int64(#[trigger] out@[j]),
                {
                    let v = &vals[i];
                    proof {
                        assert(v@ == vals@[i as int]@);
                    }
                    match v {
                        Value::Int64(x) => out.push(*x),
                        _ => {
                            proof {
                                assert(vals_model(vals@)[i as int] == vals@[i as int]@);
                                assert(val_dtype(v@) != dt);
                            }
                            return Err(Error::TypeMismatch);
                        },
                    }
                }
                let r = ColumnVector::Int64(out);
                proof {
                    assert forall|j: int| 0 <= j < n implies val_dtype(
                        #[trigger] vals_model(vals@)[j],
                    ) == dt by {
                        assert(vals_model(vals@)[j] == vals@[j]@);
                        assert(0 <= j < out@.len());
                        assert(vals@[j]@ == Val::Int64(out@[j]));
                    }
                    assert(r@.vals =~= vals_model(vals@));
                }
                Ok(r)
        } else if dt == Datatype::Float64 {
                let mut out: Vec<u64> = Vec::new();
                for i in 0..n
                    invariant
                        dt == Datatype::Float64,
                        n == vals@.len(),
                        out@.len() == i,
                        forall|j: int| 0 <= j < i ==> vals@[j]@ == Val::Float64(#[trigger] out@[j]),
                {
                    let v = &vals[i];
                    proof {
                        assert(v@ == vals@[i as int]@);
                    }
                    match v {
                        Value::Float64(x) => out.push(*x),
                        _ => {
                            proof {
                                assert(vals_model(vals@)[i as int] == vals@[i as int]@);
                                assert(val_dtype(v@) != dt);
                            }
                            return Err(Error::TypeMismatch);
                        },
                    }
                }
                let r = ColumnVector::Float64(out);
                proof {
                    assert forall|j: int| 0 <= j < n implies val_dtype(
                        #[trigger] vals_model(vals@)[j],
                    ) == dt by {
                        assert(vals_model(vals@)[j] == vals@[j]@);
                        assert(0 <= j < out@.len());
                        assert(vals@[j]@ == Val::Float64(out@[j]));
                    }
                    assert(r@.vals =~= vals_model(vals@));
                }
                Ok(r)
        } else {
            proof {
                assert(dt == Datatype::String);
            }
                let mut out: Vec<String> = Vec::new();
                for i in 0..n
                    invariant
                        dt == Datatype::String,
                        n == vals@.len(),
                        out@.len() == i,
                        forall|j: int| 0 <= j < i ==> vals@[j]@ == Val::String((#[trigger] out@[j])@),
                {
                    let v = &vals[i];
                    proof {
                        assert(v@ == vals@[i as int]@);
                    }
                    match v {
                        Value::String(s) => out.push(s.clone()),
                        _ => {
                            proof {
                                assert(vals_model(vals@)[i as int] == vals@[i as int]@);
                                assert(val_dtype(v@) != dt);
                            }
                            return Err(Error::TypeMismatch);
                        },
                    }
                }
                let r = ColumnVector::String(out);
                proof {
                    assert forall|j: int| 0 <= j < n implies val_dtype(
                        #[trigger] vals_model(vals@)[j],
                    ) == dt by {
                        assert(vals_model(vals@)[j] == vals@[j]@);
                        assert(0 <= j < out@.len());
                        assert(vals@[j]@ == Val::String(out@[j]@));
                    }
                    assert(r@.vals =~= vals_model(vals@));
                }
                Ok(r)
        }
    }

    /// Keeps the cells selected by a boolean mask, preserving relative order
    /// and the column's variant.  A mask of the wrong length is a
    /// `LengthMismatch` error, never a crash.
    pub fn filter(&self, bool_mask: &[bool]) -> (r: Result<ColumnVector, Error>)
        ensures
            bool_mask@.len() != self@.vals.len() ==> r == Err::<ColumnVector, Error>(
                Error::LengthMismatch,
            ),
            bool_mask@.len() == self@.vals.len() ==> (r matches Ok(cv) && cv@.dtype == self@.dtype
                && cv@.vals == filtered(self@.vals, bool_mask@)),
    {
        if bool_mask.len() != self.len() {
            return Err(Error::LengthMismatch);
        }
        match self {
            ColumnVector::Boolean(v) => {
                let out = filter_vec_copy(v, bool_mask);
                proof {
                    lemma_filtered_map(v@, bool_mask@, |x: bool| Val::Boolean(x));
                }
                Ok(ColumnVector::Boolean(out))
            },
            ColumnVector::Int64(v) => {
                let out = filter_vec_copy(v, bool_mask);
                proof {
                    lemma_filtered_map(v@, bool_mask@, |x: i64| Val::Int64(x));
                }
                Ok(ColumnVector::Int64(out))
            },
            ColumnVector::Float64(v) => {
                let out = filter_vec_copy(v, bool_mask);
                proof {
                    lemma_filtered_map(v@, bool_mask@, |x: u64| Val::Float64(x));
                }
                Ok(ColumnVector::Float64(out))
            },
            ColumnVector::String(v) => {
                let out = filter_vec_string(v, bool_mask);
                proof {
                    lemma_filtered_map(v@, bool_mask@, |x: String| Val::String(x@));
                }
                let r = ColumnVector::String(out);
                proof {
                    assert(r@.vals =~= filtered(self@.vals, bool_mask@));
                }
                Ok(r)
            },
        }
    }
}

/// One named, typed column of a schema.  Immutable once constructed.
#[derive(Debug)]
pub struct Field {
    pub name: String,
    pub datatype: Datatype,
}

/// The model of a field: its name's characters and its datatype.
pub struct FieldModel {
    pub name: Seq<char>,
    pub datatype: Datatype,
}

impl View for Field {
    type V = FieldModel;

    open spec fn view(&self) -> FieldModel {
        FieldModel { name: self.name@, datatype: self.datatype }
    }
}

impl Clone for Field {
    fn clone(&self) -> (res: Self)
        ensures
            res == *self,
    {
        Field { name: self.name.clone(), datatype: self.datatype }
    }
}

impl Field {
    /// A new field with the given name and datatype.
    pub fn new(name: String, datatype: Datatype) -> (r: Field)
        ensures
            r@ == (FieldModel { name: name@, datatype }),
    {
        Field { name, datatype }
    }
}

/// An ordered sequence of fields; field order is semantically significant,
/// defining the column index to name mapping.
#[derive(Debug)]
pub struct Schema {
    pub fields: Vec<Field>,
}

/// The field models of a sequence of fields.
pub open spec fn fields_model(fs: Seq<Field>) -> Seq<FieldModel> {
    fs.map_values(|f: Field| f@)
}

impl View for Schema {
    type V = Seq<FieldModel>;

    open spec fn view(&self) -> Seq<FieldModel> {
        fields_model(self.fields@)
    }
}

impl Clone for Schema {
    fn clone(&self) -> (res: Self)
        ensures
            res@ == self@,
    {
        let mut out: Vec<Field> = Vec::new();
        let n = self.fields.len();
        for i in 0..n
            invariant
                n == self.fields@.len(),
                out@.len() == i,
                forall|j: int| 0 <= j < i ==> #[trigger] out@[j] == self.fields@[j],
        {
            out.push(self.fields[i].clone());
        }
        let res = Schema { fields: out };
        proof {
            assert(res@ =~= self@);
        }
        res
    }
}

/// The character sequences of a list of names.
pub open spec fn strings_model(names: Seq<String>) -> Seq<Seq<char>> {
    names.map_values(|s: String| s@)
}

/// Whether a list of names (as character sequences) contains a given name.
pub open spec fn names_contain(names: Seq<Seq<char>>, name: Seq<char>) -> bool {
    exists|i: int| 0 <= i < names.len() && names[i] == name
}

/// The fields of `s` whose name is among `names`, in the order of `s`:
/// selection preserves the schema's own field order, not the requested one.
pub open spec fn schema_selected(s: Seq<FieldModel>, names: Seq<Seq<char>>) -> Seq<FieldModel>
    decreases s.len(),
{
    if s.len() == 0 {
        Seq::empty()
    } else if names_contain(names, s.last().name) {
        schema_selected(s.drop_last(), names).push(s.last())
    } else {
        schema_selected(s.drop_last(), names)
    }
}

/// Decides whether one of the given names equals `name`.
fn name_list_contains(names: &Vec<String>, name: &String) -> (r: bool)
    ensures
        r == names_contain(strings_model(names@), name@),
{
    let n = names.len();
    for i in 0..n
        invariant
            n == names@.len(),
            forall|j: int| 0 <= j < i ==> #[trigger] strings_model(names@)[j] != name@,
    {
        if names[i] == *name {
            proof {
                assert(strings_model(names@)[i as int] == name@);
            }
            return true;
        }
        proof {
            assert(strings_model(names@)[i as int] == names@[i as int]@);
        }
    }
    false
}

impl Schema {
    /// A new schema over the given fields, in order.
    pub fn new(fields: Vec<Field>) -> (r: Schema)
        ensures
            r@ == fields_model(fields@),
    {
        Schema { fields }
    }

    /// The number of fields.
    pub fn len(&self) -> (r: usize)
        ensures
            r == self@.len(),
    {
        self.fields.len()
    }

    /// A reference to the field at position `i`.
    pub fn field_at(&self, i: usize) -> (r: &Field)
        requires
            i < self@.len(),
        ensures
            r@ == self@[i as int],
    {
        &self.fields[i]
    }

    /// A new schema keeping only the fields at the given positions, in the
    /// order given; positions may reorder and repeat.  A position outside the
    /// schema is an `UnknownColumn` error, never a crash.
    pub fn project(&self, keep_indices: &[usize]) -> (r: Result<Schema, Error>)
        ensures
            r is Ok <==> (forall|i: int|
                0 <= i < keep_indices@.len() ==> #[trigger] keep_indices@[i] < self@.len()),
            r matches Ok(s) ==> s@ == Seq::new(
                keep_indices@.len(),
                |i: int| self@[keep_indices@[i] as int],
            ),
            r is Err ==> r == Err::<Schema, Error>(Error::UnknownColumn),
    {
        let mut out: Vec<Field> = Vec::new();
        let n = keep_indices.len();
        for i in 0..n
            invariant
                n == keep_indices@.len(),
                out@.len() == i,
                forall|j: int| 0 <= j < i ==> #[trigger] keep_indices@[j] < self@.len(),
                forall|j: int|
                    0 <= j < i ==> #[trigger] out@[j]@ == self@[keep_indices@[j] as int],
        {
            let idx = keep_indices[i];
            if idx >= self.fields.len() {
                return Err(Error::UnknownColumn);
            }
            out.push(self.fields[idx].clone());
        }
        let r = Schema { fields: out };
        proof {
            assert(r@ =~= Seq::new(keep_indices@.len(), |i: int| self@[keep_indices@[i] as int]));
        }
        Ok(r)
    }

    /// A new schema containing the fields whose name is among `names`,
    /// preserving this schema's own field order (not the requested order).
    pub fn select(&self, names: Vec<String>) -> (r: Schema)
        ensures
            r@ == schema_selected(self@, strings_model(names@)),
    {
        let ghost nm = strings_model(names@);
        let mut out: Vec<Field> = Vec::new();
        let n = self.fields.len();
        for i in 0..n
            invariant
                n == self.fields@.len(),
                nm == strings_model(names@),
                fields_model(out@) == schema_selected(self@.take(i as int), nm),
        {
            let keep = name_list_contains(&names, &self.fields[i].name);
            proof {
                assert(self@[i as int].name == self.fields@[i as int].name@);
                assert(self@.take(i + 1).drop_last() =~= self@.take(i as int));
                assert(self@.take(i + 1).last() == self@[i as int]);
            }
            if keep {
                out.push(self.fields[i].clone());
                proof {
                    assert(fields_model(out@) =~= schema_selected(self@.take(i + 1), nm));
                }
            }
        }
        let r = Schema { fields: out };
        proof {
            assert(self@.take(n as int) =~= self@);
        }
        r
    }
}

/// The sequence of column models of a sequence of column vectors.
pub open spec fn cols_model(cs: Seq<ColumnVector>) -> Seq<ColModel> {
    cs.map_values(|c: ColumnVector| c@)
}

/// The model of a record batch: the schema's field models and the columns'
/// models.
pub struct BatchModel {
    pub schema: Seq<FieldModel>,
    pub columns: Seq<ColModel>,
}

/// The record batch invariants: as many columns as schema fields, at least
/// one column, and all columns of identical length.
pub open spec fn batch_wf(b: BatchModel) -> bool {
    &&& b.columns.len() == b.schema.len()
    &&& b.columns.len() >= 1
    &&& forall|i: int|
        0 <= i < b.columns.len() ==> (#[trigger] b.columns[i].vals.len())
            == b.columns[0].vals.len()
}

/// The number of rows of a well-formed batch: the shared column length.
pub open spec fn batch_rows(b: BatchModel) -> nat {
    b.columns[0].vals.len()
}

/// What constructing a batch from a schema and columns yields: the batch
/// when the invariants hold, a `LengthMismatch` error otherwise.
pub open spec fn batch_new_spec(schema: Seq<FieldModel>, columns: Seq<ColModel>) -> Result<
    BatchModel,
    Error,
> {
    let b = BatchModel { schema, columns };
    if batch_wf(b) {
        Ok(b)
    } else {
        Err(Error::LengthMismatch)
    }
}

/// The boolean entries of a mask column's values.
pub open spec fn mask_bits(vals: Seq<Val>) -> Seq<bool> {
    vals.map_values(
        |v: Val|
            match v {
                Val::Boolean(b) => b,
                _ => false,
            },
    )
}

/// What filtering a batch by a mask column yields: a `TypeMismatch` error
/// for a non-boolean mask, a `LengthMismatch` error for a mask of the wrong
/// length, else the batch with every column masked and the schema kept.
pub open spec fn batch_filter_spec(b: BatchModel, mask: ColModel) -> Result<BatchModel, Error> {
    if mask.dtype != Datatype::Boolean {
        Err(Error::TypeMismatch)
    } else if mask.vals.len() != batch_rows(b) {
        Err(Error::LengthMismatch)
    } else {
        Ok(
            BatchModel {
                schema: b.schema,
                columns: b.columns.map_values(
                    |c: ColModel| ColModel { dtype: c.dtype, vals: filtered(c.vals, mask_bits(mask.vals)) },
                ),
            },
        )
    }
}

/// What projecting a batch onto positions yields: an `UnknownColumn` error
/// for a position outside the schema, else a new batch built from the
/// projected schema and the corresponding columns.
pub open spec fn batch_project_spec(b: BatchModel, idx: Seq<usize>) -> Result<BatchModel, Error> {
    if forall|i: int| 0 <= i < idx.len() ==> #[trigger] idx[i] < b.schema.len() {
        batch_new_spec(
            Seq::new(idx.len(), |i: int| b.schema[idx[i] as int]),
            Seq::new(idx.len(), |i: int| b.columns[idx[i] as int]),
        )
    } else {
        Err(Error::UnknownColumn)
    }
}

/// A schema-consistent collection of equal-length column vectors: the unit
/// of data flow between operators.  Constructed once, immutable thereafter.
#[derive(Debug)]
pub struct RecordBatch {
    schema: Schema,
    fields: Vec<ColumnVector>,
}

impl View for RecordBatch {
    type V = BatchModel;

    closed spec fn view(&self) -> BatchModel {
        BatchModel { schema: self.schema@, columns: cols_model(self.fields@) }
    }
}

impl RecordBatch {
    /// The construction invariants hold of every record batch.
    #[verifier::type_invariant]
    pub open spec fn inv(self) -> bool {
        batch_wf(self.view())
    }

    /// Builds a batch from a schema and columns, checking the invariants:
    /// as many columns as fields, at least one column, all columns of equal
    /// length.  Any violation is a `LengthMismatch` error, never a crash.
    pub fn new(schema: Schema, fields: Vec<ColumnVector>) -> (r: Result<RecordBatch, Error>)
        ensures
            result_models(r, batch_new_spec(schema@, cols_model(fields@))),
    {
        if fields.len() != schema.fields.len() {
            return Err(Error::LengthMismatch);
        }
        if fields.len() == 0 {
            return Err(Error::LengthMismatch);
        }
        let row_count = fields[0].len();
        let n = fields.len();
        for i in 0..n
            invariant
                n == fields@.len(),
                n >= 1,
                row_count == fields@[0]@.vals.len(),
                forall|j: int| 0 <= j < i ==> (#[trigger] fields@[j]@.vals.len()) == row_count,
        {
            if fields[i].len() != row_count {
                proof {
                    assert(cols_model(fields@)[i as int] == fields@[i as int]@);
                    assert(cols_model(fields@)[0] == fields@[0]@);
                    assert(!batch_wf(BatchModel { schema: schema@, columns: cols_model(fields@) }));
                }
                return Err(Error::LengthMismatch);
            }
        }
        proof {
            assert(forall|j: int|
                0 <= j < n ==> (#[trigger] cols_model(fields@)[j].vals.len()) == fields@[j]@.vals.len());
            assert(batch_wf(BatchModel { schema: schema@, columns: cols_model(fields@) }));
        }
        Ok(RecordBatch { schema, fields })
    }

    /// The shared length of the columns.
    pub fn row_count(&self) -> (r: usize)
        ensures
            r == batch_rows(self@),
    {
        proof {
            use_type_invariant(&*self);
        }
        self.fields[0].len()
    }

    /// The number of columns (equal to the number of schema fields).
    pub fn num_columns(&self) -> (r: usize)
        ensures
            r == self@.columns.len(),
    {
        self.fields.len()
    }

    /// The batch's schema.
    pub fn schema(&self) -> (r: &Schema)
        ensures
            r@ == self@.schema,
    {
        &self.schema
    }

    /// A reference to the column at position `i`.
    pub fn field(&self, i: usize) -> (r: &ColumnVector)
        requires
            i < self@.columns.len(),
        ensures
            r@ == self@.columns[i as int],
    {
        &self.fields[i]
    }

    /// Keeps the rows selected by a boolean mask column: the schema is
    /// unchanged and every column is masked alike.  A non-boolean mask is a
    /// `TypeMismatch` error; a mask of the wrong length a `LengthMismatch`.
    pub fn filter(&self, mask_cv_param: &ColumnVector) -> (r: Result<RecordBatch, Error>)
        ensures
            result_models(r, batch_filter_spec(self@, mask_cv_param@)),
    {
        proof {
            use_type_invariant(&*self);
        }
        let bool_vec: &Vec<bool> = match mask_cv_param {
            ColumnVector::Boolean(b) => b,
            _ => {
                return Err(Error::TypeMismatch);
            },
        };
        if bool_vec.len() != self.row_count() {
            return Err(Error::LengthMismatch);
        }
        proof {
            assert(mask_bits(mask_cv_param@.vals) =~= bool_vec@);
        }
        let ghost spec_cols = batch_filter_spec(self@, mask_cv_param@).unwrap().columns;
        let mut new_fields: Vec<ColumnVector> = Vec::new();
        let n = self.fields.len();
        for i in 0..n
            invariant
                n == self.fields@.len(),
                n == self@.columns.len(),
                batch_wf(self@),
                bool_vec@.len() == batch_rows(self@),
                bool_vec@ == mask_bits(mask_cv_param@.vals),
                spec_cols == batch_filter_spec(self@, mask_cv_param@).unwrap().columns,
                spec_cols.len() == n,
                batch_filter_spec(self@, mask_cv_param@) is Ok,
                new_fields@.len() == i,
                forall|j: int| 0 <= j < i ==> (#[trigger] new_fields@[j]@) == spec_cols[j],
                forall|j: int|
                    0 <= j < i ==> (#[trigger] new_fields@[j]@).vals.len() == count_true(bool_vec@),
        {
            proof {
                assert(self@.columns[i as int] == self.fields@[i as int]@);
                assert(self@.columns[i as int].vals.len() == batch_rows(self@));
            }
            let fc = match self.fields[i].filter(bool_vec.as_slice()) {
                Ok(c) => c,
                Err(e) => {
                    proof {
                        assert(false);
                    }
                    return Err(e);
                },
            };
            proof {
                lemma_filtered_len(self@.columns[i as int].vals, bool_vec@);
                assert(spec_cols[i as int] == ColModel {
                    dtype: self@.columns[i as int].dtype,
                    vals: filtered(self@.columns[i as int].vals, mask_bits(mask_cv_param@.vals)),
                });
            }
            new_fields.push(fc);
        }
        proof {
            assert(cols_model(new_fields@) =~= spec_cols);
            assert(batch_rows(self@) == bool_vec@.len());
            if n > 0 {
                assert(cols_model(new_fields@)[0].vals.len() == count_true(bool_vec@));
            }
            assert(batch_wf(BatchModel { schema: self@.schema, columns: spec_cols }));
        }
        let out = RecordBatch { schema: self.schema.clone(), fields: new_fields };
        Ok(out)
    }

    /// A new batch whose schema and columns are the projections of this
    /// batch's onto the given positions, in the order given.
    pub fn project(&self, keep_indices: &[usize]) -> (r: Result<RecordBatch, Error>)
        ensures
            result_models(r, batch_project_spec(self@, keep_indices@)),
    {
        proof {
            use_type_invariant(&*self);
        }
        let new_schema = match self.schema.project(keep_indices) {
            Ok(s) => s,
            Err(e) => {
                return Err(e);
            },
        };
        let mut new_fields: Vec<ColumnVector> = Vec::new();
        let n = keep_indices.len();
        for i in 0..n
            invariant
                n == keep_indices@.len(),
                self.fields@.len() == self@.columns.len(),
                batch_wf(self@),
                forall|j: int| 0 <= j < n ==> #[trigger] keep_indices@[j] < self@.schema.len(),
                new_fields@.len() == i,
                forall|j: int|
                    0 <= j < i ==> (#[trigger] new_fields@[j]@) == self@.columns[keep_indices@[j] as int],
        {
            proof {
                assert(self@.columns[keep_indices@[i as int] as int] == self.fields@[keep_indices@[i as int] as int]@);
            }
            new_fields.push(self.fields[keep_indices[i]].clone());
        }
        proof {
            assert(cols_model(new_fields@) =~= Seq::new(
                keep_indices@.len(),
                |i: int| self@.columns[keep_indices@[i] as int],
            ));
        }
        RecordBatch::new(new_schema, new_fields)
    }
}

impl Clone for RecordBatch {
    fn clone(&self) -> (res: Self)
        ensures
            res@ == self@,
    {
        proof {
            use_type_invariant(&*self);
        }
        let mut out: Vec<ColumnVector> = Vec::new();
        let n = self.fields.len();
        for i in 0..n
            invariant
                n == self.fields@.len(),
                out@.len() == i,
                forall|j: int| 0 <= j < i ==> #[trigger] out@[j]@ == self.fields@[j]@,
        {
            out.push(self.fields[i].clone());
        }
        proof {
            assert(cols_model(out@) =~= self@.columns);
        }
        let res = RecordBatch { schema: self.schema.clone(), fields: out };
        res
    }
}

/// The abstract values of a sequence of cell values.
pub open spec fn vals_model(vs: Seq<Value>) -> Seq<Val> {
    vs.map_values(|v: Value| v@)
}

/// What assembling a column of datatype `dt` from cell values yields: the
/// column when every value has that datatype, a `TypeMismatch` error
/// otherwise.
pub open spec fn from_vals_spec(dt: Datatype, vs: Seq<Val>) -> Result<ColModel, Error> {
    if forall|i: int| 0 <= i < vs.len() ==> val_dtype(#[trigger] vs[i]) == dt {
        Ok(ColModel { dtype: dt, vals: vs })
    } else {
        Err(Error::TypeMismatch)
    }
}

/// One item of a record batch stream: a batch, or a failed computation.
pub type StreamItem = Result<RecordBatch, Error>;

/// The model of a stream item.
pub open spec fn item_model(it: StreamItem) -> Result<BatchModel, Error> {
    match it {
        Ok(b) => Ok(b@),
        Err(e) => Err(e),
    }
}

/// The models of a sequence of stream items.
pub open spec fn items_model(items: Seq<StreamItem>) -> Seq<Result<BatchModel, Error>> {
    items.map_values(|it: StreamItem| item_model(it))
}

/// Copies one stream item.
pub fn clone_item(it: &StreamItem) -> (r: StreamItem)
    ensures
        item_model(r) == item_model(*it),
{
    match it {
        Ok(b) => Ok(b.clone()),
        Err(e) => Err(*e),
    }
}

} // verus!
