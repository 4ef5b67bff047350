//! The hash join operator: a classic build/probe equi-join.
//!
//! The build (left) side is fully drained into an in-memory table keyed by
//! the evaluated join key before probing starts, which bounds memory by the
//! build side's row count; the probe (right) side is streamed batch by
//! batch.  Duplicate keys are legal: every matching build row pairs with
//! every key-equal probe row, so an inner join's cardinality is the number
//! of key-equal row pairs.  A left-outer join tracks matched build rows in
//! a bitmap and flushes the unmatched ones once, after probing completes; a
//! right-outer join emits unmatched probe rows inline.  Key comparison
//! respects the datatype; keys holding floating-point bit patterns compare
//! by exact bit pattern, never numerically.

use std::sync::Arc;

use vstd::prelude::*;

use crate::data_source::DataSource;
use crate::data_type::{
    batch_new_spec, batch_rows, from_vals_spec, vals_model, BatchModel, ColModel, ColumnVector,
    Datatype, FieldModel, Field, RecordBatch, Schema, StreamItem, Val, Value, batch_wf,
    item_model, result_models, value_eq,
};
use crate::error::Error;
use crate::expression::{eval_spec, lemma_eval_spec_len, Expr};
use crate::physical_plan::{JoinType, Plan};
use crate::stream::BatchStream;

verus! {

/// The location of one build-side row: which batch, and which row in it.
#[derive(Clone, Copy, Debug, PartialEq, Eq, Structural)]
pub struct BuildLoc {
    pub batch: usize,
    pub row: usize,
}

/// One output row of the join: an optional build-side row and an optional
/// probe-side row; a missing side is emitted as missing markers.
#[derive(Clone, Copy, Debug, PartialEq, Eq, Structural)]
pub struct OutPair {
    pub left: Option<BuildLoc>,
    pub right: Option<usize>,
}

/// The models of a sequence of record batches.
pub open spec fn batches_model(bs: Seq<RecordBatch>) -> Seq<BatchModel> {
    bs.map_values(|b: RecordBatch| b@)
}

/// The models of a matched bitmap.
pub open spec fn matched_model(m: Seq<Vec<bool>>) -> Seq<Seq<bool>> {
    m.map_values(|v: Vec<bool>| v@)
}

/// The model of the build table: key value and row location per entry, in
/// insertion order.
pub open spec fn table_model(entries: Seq<(Value, BuildLoc)>) -> Seq<(Val, BuildLoc)> {
    entries.map_values(|e: (Value, BuildLoc)| (e.0@, e.1))
}

/// Whether a location is one of the table's entries.
pub open spec fn loc_in_table(tm: Seq<(Val, BuildLoc)>, loc: BuildLoc) -> bool {
    exists|t: int| 0 <= t < tm.len() && (#[trigger] tm[t]).1 == loc
}

/// The locations of all build rows whose key equals `k`, in insertion
/// order: the multimap semantics of the build table.
pub open spec fn lookup_spec(tm: Seq<(Val, BuildLoc)>, k: Val) -> Seq<BuildLoc>
    decreases tm.len(),
{
    if tm.len() == 0 {
        Seq::empty()
    } else if tm.last().0 == k {
        lookup_spec(tm.drop_last(), k).push(tm.last().1)
    } else {
        lookup_spec(tm.drop_last(), k)
    }
}

/// Every looked-up location is a table entry.
pub proof fn lemma_lookup_in_table(tm: Seq<(Val, BuildLoc)>, k: Val)
    ensures
        forall|j: int|
            0 <= j < lookup_spec(tm, k).len() ==> loc_in_table(tm, #[trigger] lookup_spec(tm, k)[j]),
    decreases tm.len(),
{
    if tm.len() > 0 {
        lemma_lookup_in_table(tm.drop_last(), k);
        assert forall|j: int|
            0 <= j < lookup_spec(tm, k).len() implies loc_in_table(
            tm,
            #[trigger] lookup_spec(tm, k)[j],
        ) by {
            if j < lookup_spec(tm.drop_last(), k).len() {
                assert(loc_in_table(tm.drop_last(), lookup_spec(tm.drop_last(), k)[j]));
                let t = choose|t: int|
                    0 <= t < tm.drop_last().len() && (#[trigger] tm.drop_last()[t]).1
                        == lookup_spec(tm.drop_last(), k)[j];
                assert(tm[t].1 == lookup_spec(tm, k)[j]);
            } else {
                assert(tm[tm.len() - 1].1 == lookup_spec(tm, k)[j]);
            }
        }
    }
}

/// The build table: every build row keyed by its evaluated join key, in
/// build order.  Lookup is by key equality over the entry list, keeping the
/// multimap semantics (all rows with a duplicate key are retained).
pub struct JoinTable {
    pub entries: Vec<(Value, BuildLoc)>,
}

impl JoinTable {
    /// All locations whose key equals `key`, in insertion order.
    pub fn lookup(&self, key: &Value) -> (r: Vec<BuildLoc>)
        ensures
            r@ == lookup_spec(table_model(self.entries@), key@),
            forall|j: int|
                0 <= j < r@.len() ==> loc_in_table(table_model(self.entries@), #[trigger] r@[j]),
    {
        let ghost tm = table_model(self.entries@);
        let mut out: Vec<BuildLoc> = Vec::new();
        let n = self.entries.len();
        for i in 0..n
            invariant
                n == self.entries@.len(),
                tm == table_model(self.entries@),
                out@ == lookup_spec(tm.take(i as int), key@),
        {
            proof {
                assert(tm[i as int] == (self.entries@[i as int].0@, self.entries@[i as int].1));
                assert(tm.take(i + 1).drop_last() =~= tm.take(i as int));
                assert(tm.take(i + 1).last() == tm[i as int]);
            }
            if value_eq(&self.entries[i].0, key) {
                out.push(self.entries[i].1);
            }
        }
        proof {
            assert(tm.take(n as int) =~= tm);
            lemma_lookup_in_table(tm, key@);
        }
        out
    }
}

/// What building the table over the drained build batches yields: for each
/// batch, the join-key expression is evaluated and every row is inserted
/// under its key, batch by batch and row by row; the first evaluation error
/// aborts the whole build.
pub open spec fn build_table_spec(bs: Seq<BatchModel>, on_left: Expr) -> Result<
    Seq<(Val, BuildLoc)>,
    Error,
>
    decreases bs.len(),
{
    if bs.len() == 0 {
        Ok(Seq::empty())
    } else {
        match build_table_spec(bs.drop_last(), on_left) {
            Err(e) => Err(e),
            Ok(rest) => match eval_spec(on_left, bs.last()) {
                Err(e) => Err(e),
                Ok(keys) => Ok(
                    rest + Seq::new(
                        keys.vals.len(),
                        |r: int|
                            (
                                keys.vals[r],
                                BuildLoc { batch: (bs.len() - 1) as usize, row: r as usize },
                            ),
                    ),
                ),
            },
        }
    }
}

/// An error in a prefix of the build batches decides the whole build.
proof fn lemma_build_prefix_err(bs: Seq<BatchModel>, on_left: Expr, k: int)
    requires
        0 <= k <= bs.len(),
        build_table_spec(bs.take(k), on_left) is Err,
    ensures
        build_table_spec(bs, on_left) == build_table_spec(bs.take(k), on_left),
    decreases bs.len() - k,
{
    if k < bs.len() {
        assert(bs.take(k + 1).drop_last() =~= bs.take(k));
        lemma_build_prefix_err(bs, on_left, k + 1);
    } else {
        assert(bs.take(k) =~= bs);
    }
}

/// Every location of a successfully built table points at an existing row
/// of a well-formed build batch.
pub proof fn lemma_build_table_bounds(bs: Seq<BatchModel>, on_left: Expr)
    requires
        forall|bi: int| 0 <= bi < bs.len() ==> batch_wf(#[trigger] bs[bi]),
        bs.len() <= usize::MAX,
        forall|bi: int| 0 <= bi < bs.len() ==> batch_rows(#[trigger] bs[bi]) <= usize::MAX,
        build_table_spec(bs, on_left) is Ok,
    ensures
        forall|t: int|
            0 <= t < build_table_spec(bs, on_left).unwrap().len() ==> {
                let loc = (#[trigger] build_table_spec(bs, on_left).unwrap()[t]).1;
                loc.batch < bs.len() && loc.row < batch_rows(bs[loc.batch as int])
            },
    decreases bs.len(),
{
    if bs.len() > 0 {
        assert(forall|bi: int|
            0 <= bi < bs.drop_last().len() ==> batch_wf(#[trigger] bs.drop_last()[bi]));
        lemma_build_table_bounds(bs.drop_last(), on_left);
        let keys = eval_spec(on_left, bs.last()).unwrap();
        lemma_eval_spec_len(on_left, bs.last());
        let whole = build_table_spec(bs, on_left).unwrap();
        let rest = build_table_spec(bs.drop_last(), on_left).unwrap();
        let news = Seq::new(
            keys.vals.len(),
            |r: int| (keys.vals[r], BuildLoc { batch: (bs.len() - 1) as usize, row: r as usize }),
        );
        assert(whole == rest + news);
        assert forall|t: int|
            0 <= t < whole.len() implies {
            let loc = (#[trigger] whole[t]).1;
            loc.batch < bs.len() && loc.row < batch_rows(bs[loc.batch as int])
        } by {
            if t < rest.len() {
                assert(whole[t] == rest[t]);
                assert(bs.drop_last()[rest[t].1.batch as int] == bs[rest[t].1.batch as int]);
            } else {
                assert(whole[t] == news[t - rest.len()]);
                assert(keys.vals.len() == batch_rows(bs.last()));
                assert(whole[t].1.batch == ((bs.len() - 1) as usize) as int);
                assert(whole[t].1.row == ((t - rest.len()) as usize) as int);
            }
        }
    }
}

/// Builds the join table: evaluates the join key over every build batch and
/// inserts each row under its key.  Any evaluation error aborts the build.
pub fn build_table(build: &Vec<RecordBatch>, on_left: &Expr) -> (r: Result<JoinTable, Error>)
    ensures
        r matches Ok(t) ==> build_table_spec(batches_model(build@), *on_left) == Ok::<
            Seq<(Val, BuildLoc)>,
            Error,
        >(table_model(t.entries@)),
        r matches Err(e) ==> build_table_spec(batches_model(build@), *on_left) == Err::<
            Seq<(Val, BuildLoc)>,
            Error,
        >(e),
{
    let ghost bs = batches_model(build@);
    let mut entries: Vec<(Value, BuildLoc)> = Vec::new();
    let nb = build.len();
    proof {
        assert(bs.take(0) =~= Seq::<BatchModel>::empty());
        assert(table_model(entries@) =~= Seq::<(Val, BuildLoc)>::empty());
    }
    for bi in 0..nb
        invariant
            nb == build@.len(),
            bs == batches_model(build@),
            build_table_spec(bs.take(bi as int), *on_left) == Ok::<Seq<(Val, BuildLoc)>, Error>(
                table_model(entries@),
            ),
    {
        proof {
            assert(bs.take(bi + 1).drop_last() =~= bs.take(bi as int));
            assert(bs.take(bi + 1).last() == bs[bi as int]);
            assert(bs[bi as int] == build@[bi as int]@);
        }
        let keys = match on_left.evaluate(&build[bi]) {
            Ok(c) => c,
            Err(e) => {
                proof {
                    lemma_build_prefix_err(bs, *on_left, bi + 1);
                }
                return Err(e);
            },
        };
        let rows = keys.len();
        let ghost before = table_model(entries@);
        for r in 0..rows
            invariant
                rows == keys@.vals.len(),
                bi < build@.len(),
                entries@.len() >= r,
                table_model(entries@) == before + Seq::new(
                    r as nat,
                    |j: int| (keys@.vals[j], BuildLoc { batch: bi, row: j as usize }),
                ),
        {
            let key = keys.get(r);
            let ghost pre = table_model(entries@);
            entries.push((key, BuildLoc { batch: bi, row: r }));
            proof {
                assert(table_model(entries@) =~= pre.push((key@, BuildLoc { batch: bi, row: r })));
                assert(table_model(entries@) =~= before + Seq::new(
                    (r + 1) as nat,
                    |j: int| (keys@.vals[j], BuildLoc { batch: bi, row: j as usize }),
                ));
            }
        }
        proof {
            assert(table_model(entries@) =~= build_table_spec(bs.take(bi + 1), *on_left).unwrap());
        }
    }
    proof {
        assert(bs.take(nb as int) =~= bs);
    }
    Ok(JoinTable { entries })
}

/// The missing marker per datatype: the null/empty representation used for
/// the absent side of an outer-join row.
pub open spec fn missing_val(dt: Datatype) -> Val {
    match dt {
        Datatype::Boolean => Val::Boolean(false),
        Datatype::Int64 => Val::Int64(0),
        Datatype::Float64 => Val::Float64(0),
        Datatype::String => Val::String(Seq::empty()),
    }
}

/// The missing marker per datatype.
pub fn missing_value(dt: Datatype) -> (r: Value)
    ensures
        r@ == missing_val(dt),
{
    match dt {
        Datatype::Boolean => Value::Boolean(false),
        Datatype::Int64 => Value::Int64(0),
        Datatype::Float64 => Value::Float64(0),
        Datatype::String => Value::String(String::new()),
    }
}

/// The output pairs of one probe row: one pair per key-equal build row, or,
/// for a right-outer join, a single build-less pair when none matches.
pub open spec fn row_pairs(tm: Seq<(Val, BuildLoc)>, k: Val, r: int, jt: JoinType) -> Seq<OutPair> {
    let locs = lookup_spec(tm, k);
    if locs.len() == 0 && jt == JoinType::Right {
        seq![OutPair { left: None, right: Some(r as usize) }]
    } else {
        Seq::new(locs.len(), |j: int| OutPair { left: Some(locs[j]), right: Some(r as usize) })
    }
}

/// The output pairs of one whole probe batch, row by row.
pub open spec fn probe_pairs(tm: Seq<(Val, BuildLoc)>, keys: Seq<Val>, jt: JoinType) -> Seq<OutPair>
    decreases keys.len(),
{
    if keys.len() == 0 {
        Seq::empty()
    } else {
        probe_pairs(tm, keys.drop_last(), jt) + row_pairs(tm, keys.last(), keys.len() - 1, jt)
    }
}

/// The bitmap after marking every build row that some pair references.
pub open spec fn mark_pairs(matched: Seq<Seq<bool>>, pairs: Seq<OutPair>) -> Seq<Seq<bool>>
    decreases pairs.len(),
{
    if pairs.len() == 0 {
        matched
    } else {
        let m2 = mark_pairs(matched, pairs.drop_last());
        match pairs.last().left {
            Some(loc) => m2.update(
                loc.batch as int,
                m2[loc.batch as int].update(loc.row as int, true),
            ),
            None => m2,
        }
    }
}

/// The pairs flushing the unmatched rows of one build batch, in row order.
pub open spec fn unmatched_in(m: Seq<bool>, bi: int) -> Seq<OutPair>
    decreases m.len(),
{
    if m.len() == 0 {
        Seq::empty()
    } else {
        let rest = unmatched_in(m.drop_last(), bi);
        if !m.last() {
            rest.push(
                OutPair {
                    left: Some(BuildLoc { batch: bi as usize, row: (m.len() - 1) as usize }),
                    right: None,
                },
            )
        } else {
            rest
        }
    }
}

/// The pairs flushing every unmatched build row, batch by batch.
pub open spec fn unmatched_pairs(matched: Seq<Seq<bool>>) -> Seq<OutPair>
    decreases matched.len(),
{
    if matched.len() == 0 {
        Seq::empty()
    } else {
        unmatched_pairs(matched.drop_last()) + unmatched_in(
            matched.last(),
            matched.len() - 1,
        )
    }
}

/// The gathered values of output column `c` (of datatype `dt`) over the
/// pairs: the build cell, the probe cell, or the missing marker.
pub open spec fn gather_spec(
    bs: Seq<BatchModel>,
    pb: Option<BatchModel>,
    pairs: Seq<OutPair>,
    lw: int,
    c: int,
    dt: Datatype,
) -> Seq<Val> {
    Seq::new(
        pairs.len(),
        |p: int|
            if c < lw {
                match pairs[p].left {
                    Some(loc) => bs[loc.batch as int].columns[c].vals[loc.row as int],
                    None => missing_val(dt),
                }
            } else {
                match (pb, pairs[p].right) {
                    (Some(probe), Some(r)) => probe.columns[c - lw].vals[r as int],
                    _ => missing_val(dt),
                }
            },
    )
}

/// The first `c` output columns assembled from the pairs, or the first
/// `TypeMismatch` error where a gathered cell disagrees with the schema.
pub open spec fn cols_upto(
    bs: Seq<BatchModel>,
    pb: Option<BatchModel>,
    pairs: Seq<OutPair>,
    schema: Seq<FieldModel>,
    lw: int,
    c: int,
) -> Result<Seq<ColModel>, Error>
    decreases c,
{
    if c <= 0 {
        Ok(Seq::empty())
    } else {
        match cols_upto(bs, pb, pairs, schema, lw, c - 1) {
            Err(e) => Err(e),
            Ok(rest) => match from_vals_spec(
                schema[c - 1].datatype,
                gather_spec(bs, pb, pairs, lw, c - 1, schema[c - 1].datatype),
            ) {
                Err(e) => Err(e),
                Ok(cm) => Ok(rest.push(cm)),
            },
        }
    }
}

/// An error in a column prefix decides the whole assembly.
proof fn lemma_cols_upto_err(
    bs: Seq<BatchModel>,
    pb: Option<BatchModel>,
    pairs: Seq<OutPair>,
    schema: Seq<FieldModel>,
    lw: int,
    k: int,
    total: int,
)
    requires
        0 <= k <= total,
        cols_upto(bs, pb, pairs, schema, lw, k) is Err,
    ensures
        cols_upto(bs, pb, pairs, schema, lw, total) == cols_upto(bs, pb, pairs, schema, lw, k),
    decreases total - k,
{
    if k < total {
        lemma_cols_upto_err(bs, pb, pairs, schema, lw, k + 1, total);
    }
}

/// What assembling one output batch from the pairs yields: every output
/// column gathered and checked against the schema (first error wins), then
/// the batch construction itself.
pub open spec fn assemble_spec(
    bs: Seq<BatchModel>,
    pb: Option<BatchModel>,
    pairs: Seq<OutPair>,
    schema: Seq<FieldModel>,
    lw: int,
) -> Result<BatchModel, Error> {
    match cols_upto(bs, pb, pairs, schema, lw, schema.len() as int) {
        Err(e) => Err(e),
        Ok(cols) => batch_new_spec(schema, cols),
    }
}

/// Gathers output column `c` of the output schema over the pairs.
fn gather_col(
    build: &Vec<RecordBatch>,
    probe: Option<&RecordBatch>,
    pairs: &Vec<OutPair>,
    lw: usize,
    c: usize,
    dt: Datatype,
) -> (r: Vec<Value>)
    requires
        forall|p: int|
            0 <= p < pairs@.len() ==> {
                let pair = #[trigger] pairs@[p];
                &&& (pair.left matches Some(loc) ==> loc.batch < build@.len() && loc.row
                    < batch_rows(build@[loc.batch as int]@))
                &&& (pair.right matches Some(rr) ==> probe matches Some(pb) && rr < batch_rows(
                    pb@,
                ))
            },
        c < lw ==> forall|bi: int|
            0 <= bi < build@.len() ==> (#[trigger] build@[bi]@).columns.len() == lw,
        c >= lw ==> (probe matches Some(pb) ==> c - lw < pb@.columns.len()),
    ensures
        vals_model(r@) == gather_spec(
            batches_model(build@),
            match probe {
                Some(pb) => Some(pb@),
                None => None,
            },
            pairs@,
            lw as int,
            c as int,
            dt,
        ),
{
    let ghost bs = batches_model(build@);
    let ghost pbm = match probe {
        Some(pb) => Some(pb@),
        None => None,
    };
    let mut out: Vec<Value> = Vec::new();
    let n = pairs.len();
    for p in 0..n
        invariant
            n == pairs@.len(),
            bs == batches_model(build@),
            pbm == (match probe {
                Some(pb) => Some(pb@),
                None => None::<BatchModel>,
            }),
            forall|q: int|
                0 <= q < pairs@.len() ==> {
                    let pair = #[trigger] pairs@[q];
                    &&& (pair.left matches Some(loc) ==> loc.batch < build@.len() && loc.row
                        < batch_rows(build@[loc.batch as int]@))
                    &&& (pair.right matches Some(rr) ==> probe matches Some(pb) && rr < batch_rows(
                        pb@,
                    ))
                },
            c < lw ==> forall|bi: int|
                0 <= bi < build@.len() ==> (#[trigger] build@[bi]@).columns.len() == lw,
            c >= lw ==> (probe matches Some(pb) ==> c - lw < pb@.columns.len()),
            out@.len() == p,
            forall|q: int|
                0 <= q < p ==> (#[trigger] out@[q]@) == gather_spec(
                    bs,
                    pbm,
                    pairs@,
                    lw as int,
                    c as int,
                    dt,
                )[q],
    {
        let pair = pairs[p];
        let v: Value = if c < lw {
            match pair.left {
                Some(loc) => {
                    let b = &build[loc.batch];
                    proof {
                        use_type_invariant(b);
                        assert(bs[loc.batch as int] == b@);
                    }
                    b.field(c).get(loc.row)
                },
                None => missing_value(dt),
            }
        } else {
            match pair.right {
                Some(rr) => {
                    let pb = match probe {
                        Some(pb) => pb,
                        None => {
                            proof {
                                assert(false);
                            }
                            return out;
                        },
                    };
                    proof {
                        use_type_invariant(pb);
                    }
                    pb.field(c - lw).get(rr)
                },
                None => missing_value(dt),
            }
        };
        out.push(v);
    }
    proof {
        assert(vals_model(out@) =~= gather_spec(bs, pbm, pairs@, lw as int, c as int, dt));
    }
    out
}

/// Assembles one output batch from the pairs: every schema column gathered
/// from the build side, the probe side, or missing markers, then built into
/// a batch.  A gathered cell of the wrong datatype is a `TypeMismatch`.
fn assemble(
    build: &Vec<RecordBatch>,
    probe: Option<&RecordBatch>,
    pairs: &Vec<OutPair>,
    schema: &Schema,
    lw: usize,
) -> (r: StreamItem)
    requires
        lw <= schema@.len(),
        forall|p: int|
            0 <= p < pairs@.len() ==> {
                let pair = #[trigger] pairs@[p];
                &&& (pair.left matches Some(loc) ==> loc.batch < build@.len() && loc.row
                    < batch_rows(build@[loc.batch as int]@))
                &&& (pair.right matches Some(rr) ==> probe matches Some(pb) && rr < batch_rows(
                    pb@,
                ))
            },
        forall|bi: int|
            0 <= bi < build@.len() ==> (#[trigger] build@[bi]@).columns.len() == lw,
        probe matches Some(pb) ==> pb@.columns.len() == schema@.len() - lw,
    ensures
        item_model(r) == assemble_spec(
            batches_model(build@),
            match probe {
                Some(pb) => Some(pb@),
                None => None,
            },
            pairs@,
            schema@,
            lw as int,
        ),
{
    let ghost bs = batches_model(build@);
    let ghost pbm = match probe {
        Some(pb) => Some(pb@),
        None => None::<BatchModel>,
    };
    let total = schema.len();
    let mut cols: Vec<ColumnVector> = Vec::new();
    for c in 0..total
        invariant
            total == schema@.len(),
            lw <= schema@.len(),
            bs == batches_model(build@),
            pbm == (match probe {
                Some(pb) => Some(pb@),
                None => None::<BatchModel>,
            }),
            forall|p: int|
                0 <= p < pairs@.len() ==> {
                    let pair = #[trigger] pairs@[p];
                    &&& (pair.left matches Some(loc) ==> loc.batch < build@.len() && loc.row
                        < batch_rows(build@[loc.batch as int]@))
                    &&& (pair.right matches Some(rr) ==> probe matches Some(pb) && rr < batch_rows(
                        pb@,
                    ))
                },
            forall|bi: int|
                0 <= bi < build@.len() ==> (#[trigger] build@[bi]@).columns.len() == lw,
            probe matches Some(pb) ==> pb@.columns.len() == schema@.len() - lw,
            cols@.len() == c,
            cols_upto(bs, pbm, pairs@, schema@, lw as int, c as int) matches Ok(cs) && cs
                == crate::data_type::cols_model(cols@),
    {
        let dt = schema.field_at(c).datatype;
        let vals = gather_col(build, probe, pairs, lw, c, dt);
        match ColumnVector::from_vals(dt, &vals) {
            Ok(cv) => {
                cols.push(cv);
                proof {
                    assert(crate::data_type::cols_model(cols@) =~= cols_upto(
                        bs,
                        pbm,
                        pairs@,
                        schema@,
                        lw as int,
                        c as int,
                    ).unwrap().push(cv@));
                }
            },
            Err(e) => {
                proof {
                    lemma_cols_upto_err(
                        bs,
                        pbm,
                        pairs@,
                        schema@,
                        lw as int,
                        c + 1,
                        schema@.len() as int,
                    );
                }
                return Err(e);
            },
        }
    }
    match RecordBatch::new(schema.clone(), cols) {
        Ok(b) => Ok(b),
        Err(e) => Err(e),
    }
}

/// What probing one batch yields: the key column is evaluated (an error
/// becomes the item, untouched state), the batch's column count is checked
/// against the probe side's width, every probe row is paired with its
/// key-equal build rows, the referenced build rows are marked, and one
/// output batch is assembled.
pub open spec fn probe_step_spec(
    bs: Seq<BatchModel>,
    tm: Seq<(Val, BuildLoc)>,
    on_right: Expr,
    jt: JoinType,
    schema: Seq<FieldModel>,
    lw: int,
    matched: Seq<Seq<bool>>,
    pb: BatchModel,
) -> (Result<BatchModel, Error>, Seq<Seq<bool>>) {
    match eval_spec(on_right, pb) {
        Err(e) => (Err(e), matched),
        Ok(keys) => if pb.columns.len() + lw != schema.len() {
            (Err(Error::LengthMismatch), matched)
        } else {
            let pairs = probe_pairs(tm, keys.vals, jt);
            (assemble_spec(bs, Some(pb), pairs, schema, lw), mark_pairs(matched, pairs))
        },
    }
}

/// What the join stream still yields: one item per remaining probe item
/// (errors pass through untouched), and, for a left-outer join, one final
/// flush batch of the build rows left unmatched after all probing.
pub open spec fn join_items(
    bs: Seq<BatchModel>,
    tm: Seq<(Val, BuildLoc)>,
    on_right: Expr,
    jt: JoinType,
    schema: Seq<FieldModel>,
    lw: int,
    matched: Seq<Seq<bool>>,
    probe: Seq<Result<BatchModel, Error>>,
    done: bool,
) -> Seq<Result<BatchModel, Error>>
    decreases probe.len(),
{
    if done {
        Seq::empty()
    } else if probe.len() == 0 {
        if jt == JoinType::Left {
            seq![assemble_spec(bs, None, unmatched_pairs(matched), schema, lw)]
        } else {
            Seq::empty()
        }
    } else {
        match probe[0] {
            Err(e) => seq![Err(e)] + join_items(
                bs,
                tm,
                on_right,
                jt,
                schema,
                lw,
                matched,
                probe.drop_first(),
                false,
            ),
            Ok(pb) => {
                let stepped = probe_step_spec(bs, tm, on_right, jt, schema, lw, matched, pb);
                seq![stepped.0] + join_items(
                    bs,
                    tm,
                    on_right,
                    jt,
                    schema,
                    lw,
                    stepped.1,
                    probe.drop_first(),
                    false,
                )
            },
        }
    }
}

/// The set of payloads of an all-successful item sequence.
pub open spec fn ok_payloads(items: Seq<Result<BatchModel, Error>>) -> Seq<BatchModel> {
    items.map_values(
        |it: Result<BatchModel, Error>|
            match it {
                Ok(b) => b,
                Err(_) => BatchModel { schema: Seq::empty(), columns: Seq::empty() },
            },
    )
}

/// The all-false matched bitmap over the build batches.
pub open spec fn init_matched(bs: Seq<BatchModel>) -> Seq<Seq<bool>> {
    Seq::new(bs.len(), |bi: int| Seq::new(batch_rows(bs[bi]), |r: int| false))
}

/// The state of a running hash join: the materialized build side and its
/// table, the streamed probe side, the matched bitmap, and whether the
/// final flush has been delivered.
pub struct JoinStream {
    pub build: Vec<RecordBatch>,
    pub table: JoinTable,
    pub probe: Box<BatchStream>,
    pub on_right: Expr,
    pub join_type: JoinType,
    pub schema: Schema,
    pub left_width: usize,
    pub matched: Vec<Vec<bool>>,
    pub done: bool,
}

impl JoinStream {
    /// Structural soundness: the probe stream is sound, the bitmap mirrors
    /// the build batches, every build batch has the build side's width, and
    /// every table entry points at an existing build row.
    pub open spec fn join_wf(self) -> bool
        decreases self,
    {
        &&& self.probe.wf()
        &&& self.left_width <= self.schema@.len()
        &&& self.matched@.len() == self.build@.len()
        &&& forall|bi: int|
            0 <= bi < self.build@.len() ==> (#[trigger] self.matched@[bi]@).len() == batch_rows(
                self.build@[bi]@,
            )
        &&& forall|bi: int|
            0 <= bi < self.build@.len() ==> (#[trigger] self.build@[bi]@).columns.len()
                == self.left_width
        &&& forall|t: int|
            0 <= t < table_model(self.table.entries@).len() ==> {
                let loc = (#[trigger] table_model(self.table.entries@)[t]).1;
                loc.batch < self.build@.len() && loc.row < batch_rows(
                    self.build@[loc.batch as int]@,
                )
            }
    }

    /// The items this join stream still yields.
    pub open spec fn join_remaining(self) -> Seq<Result<BatchModel, Error>>
        decreases self,
    {
        join_items(
            batches_model(self.build@),
            table_model(self.table.entries@),
            self.on_right,
            self.join_type,
            self.schema@,
            self.left_width as int,
            matched_model(self.matched@),
            self.probe.remaining(),
            self.done,
        )
    }
}


impl JoinStream {
    /// Probes one batch: evaluates the key column, pairs every probe row
    /// with its key-equal build rows, marks the referenced build rows, and
    /// assembles one output batch.  An evaluation error becomes the item,
    /// leaving the state untouched.
    pub(crate) fn probe_batch(&mut self, pb: &RecordBatch) -> (r: StreamItem)
        requires
            old(self).join_wf(),
        ensures
            final(self).join_wf(),
            final(self).build == old(self).build,
            final(self).table == old(self).table,
            final(self).probe == old(self).probe,
            final(self).on_right == old(self).on_right,
            final(self).join_type == old(self).join_type,
            final(self).schema == old(self).schema,
            final(self).left_width == old(self).left_width,
            final(self).done == old(self).done,
            ({
                let stepped = probe_step_spec(
                    batches_model(old(self).build@),
                    table_model(old(self).table.entries@),
                    old(self).on_right,
                    old(self).join_type,
                    old(self).schema@,
                    old(self).left_width as int,
                    matched_model(old(self).matched@),
                    pb@,
                );
                item_model(r) == stepped.0 && matched_model(final(self).matched@) == stepped.1
            }),
    {
        proof {
            use_type_invariant(&*pb);
        }
        let ghost bs = batches_model(self.build@);
        let ghost tm = table_model(self.table.entries@);
        let ghost m0 = matched_model(self.matched@);
        let keys = match self.on_right.evaluate(pb) {
            Ok(c) => c,
            Err(e) => {
                return Err(e);
            },
        };
        if pb.num_columns() != self.schema.len() - self.left_width {
            return Err(Error::LengthMismatch);
        }
        let rows = keys.len();
        let ghost jt = self.join_type;
        let mut pairs: Vec<OutPair> = Vec::new();
        for r in 0..rows
            invariant
                rows == keys@.vals.len(),
                rows == batch_rows(pb@),
                bs == batches_model(self.build@),
                tm == table_model(self.table.entries@),
                jt == self.join_type,
                self.join_wf(),
                pairs@ == probe_pairs(tm, keys@.vals.take(r as int), jt),
                forall|p: int|
                    0 <= p < pairs@.len() ==> {
                        let pair = #[trigger] pairs@[p];
                        &&& (pair.left matches Some(loc) ==> loc.batch < self.build@.len()
                            && loc.row < batch_rows(self.build@[loc.batch as int]@))
                        &&& (pair.right matches Some(rr) ==> rr < rows)
                    },
        {
            proof {
                assert(keys@.vals.take(r + 1).drop_last() =~= keys@.vals.take(r as int));
                assert(keys@.vals.take(r + 1).last() == keys@.vals[r as int]);
            }
            let key = keys.get(r);
            let locs = self.table.lookup(&key);
            let ghost prev = pairs@;
            if locs.len() == 0 {
                if self.join_type == JoinType::Right {
                    pairs.push(OutPair { left: None, right: Some(r) });
                }
            } else {
                let m = locs.len();
                for k in 0..m
                    invariant
                        m == locs@.len(),
                        r < rows,
                        bs == batches_model(self.build@),
                        tm == table_model(self.table.entries@),
                        jt == self.join_type,
                        self.join_wf(),
                        locs@ == lookup_spec(tm, keys@.vals[r as int]),
                        forall|j: int| 0 <= j < locs@.len() ==> loc_in_table(tm, #[trigger] locs@[j]),
                        pairs@ == prev + Seq::new(
                            k as nat,
                            |j: int| OutPair { left: Some(locs@[j]), right: Some(r as usize) },
                        ),
                        forall|p: int|
                            0 <= p < prev.len() ==> {
                                let pair = #[trigger] prev[p];
                                &&& (pair.left matches Some(loc) ==> loc.batch < self.build@.len()
                                    && loc.row < batch_rows(self.build@[loc.batch as int]@))
                                &&& (pair.right matches Some(rr) ==> rr < rows)
                            },
                {
                    pairs.push(OutPair { left: Some(locs[k]), right: Some(r) });
                    proof {
                        assert(pairs@ =~= prev + Seq::new(
                            (k + 1) as nat,
                            |j: int| OutPair { left: Some(locs@[j]), right: Some(r as usize) },
                        ));
                        assert(loc_in_table(tm, locs@[k as int]));
                    }
                }
            }
            proof {
                assert(pairs@ =~= probe_pairs(tm, keys@.vals.take(r + 1), jt));
            }
        }
        proof {
            assert(keys@.vals.take(rows as int) =~= keys@.vals);
        }
        let np = pairs.len();
        let ghost allpairs = pairs@;
        for p in 0..np
            invariant
                np == pairs@.len(),
                allpairs == pairs@,
                bs == batches_model(self.build@),
                tm == table_model(self.table.entries@),
                self.build@.len() == old(self).build@.len(),
                self.build == old(self).build,
                self.table == old(self).table,
                self.probe == old(self).probe,
                self.on_right == old(self).on_right,
                self.join_type == old(self).join_type,
                self.schema == old(self).schema,
                self.left_width == old(self).left_width,
                self.done == old(self).done,
                self.join_wf(),
                forall|q: int|
                    0 <= q < pairs@.len() ==> {
                        let pair = #[trigger] pairs@[q];
                        &&& (pair.left matches Some(loc) ==> loc.batch < self.build@.len()
                            && loc.row < batch_rows(self.build@[loc.batch as int]@))
                        &&& (pair.right matches Some(rr) ==> rr < batch_rows(pb@))
                    },
                matched_model(self.matched@) == mark_pairs(m0, pairs@.take(p as int)),
        {
            proof {
                assert(pairs@.take(p + 1).drop_last() =~= pairs@.take(p as int));
                assert(pairs@.take(p + 1).last() == pairs@[p as int]);
            }
            let pair = pairs[p];
            match pair.left {
                Some(loc) => {
                    let ghost before = matched_model(self.matched@);
                    self.matched[loc.batch][loc.row] = true;
                    proof {
                        assert(matched_model(self.matched@) =~= before.update(
                            loc.batch as int,
                            before[loc.batch as int].update(loc.row as int, true),
                        ));
                        assert(matched_model(self.matched@) =~= mark_pairs(
                            m0,
                            pairs@.take(p + 1),
                        ));
                    }
                },
                None => {},
            }
        }
        proof {
            assert(pairs@.take(np as int) =~= pairs@);
        }
        let item = assemble(&self.build, Some(pb), &pairs, &self.schema, self.left_width);
        item
    }

    /// The flush pairs: every unmatched build row, batch by batch and row
    /// by row, each with a missing probe side.
    fn flush_pairs(&self) -> (r: Vec<OutPair>)
        requires
            self.join_wf(),
        ensures
            r@ == unmatched_pairs(matched_model(self.matched@)),
            forall|p: int|
                0 <= p < r@.len() ==> {
                    let pair = #[trigger] r@[p];
                    &&& (pair.left matches Some(loc) ==> loc.batch < self.build@.len() && loc.row
                        < batch_rows(self.build@[loc.batch as int]@))
                    &&& pair.right is None
                },
    {
        let ghost mm = matched_model(self.matched@);
        let mut out: Vec<OutPair> = Vec::new();
        let nb = self.matched.len();
        for bi in 0..nb
            invariant
                nb == self.matched@.len(),
                mm == matched_model(self.matched@),
                self.join_wf(),
                out@ == unmatched_pairs(mm.take(bi as int)),
                forall|p: int|
                    0 <= p < out@.len() ==> {
                        let pair = #[trigger] out@[p];
                        &&& (pair.left matches Some(loc) ==> loc.batch < self.build@.len()
                            && loc.row < batch_rows(self.build@[loc.batch as int]@))
                        &&& pair.right is None
                    },
        {
            proof {
                assert(mm.take(bi + 1).drop_last() =~= mm.take(bi as int));
                assert(mm.take(bi + 1).last() == mm[bi as int]);
                assert(mm[bi as int] == self.matched@[bi as int]@);
            }
            let rows = self.matched[bi].len();
            let ghost before = out@;
            for r in 0..rows
                invariant
                    bi < self.matched@.len(),
                    rows == self.matched@[bi as int]@.len(),
                    mm == matched_model(self.matched@),
                    mm[bi as int] == self.matched@[bi as int]@,
                    self.join_wf(),
                    out@ == before + unmatched_in(mm[bi as int].take(r as int), bi as int),
                    forall|p: int|
                        0 <= p < out@.len() ==> {
                            let pair = #[trigger] out@[p];
                            &&& (pair.left matches Some(loc) ==> loc.batch < self.build@.len()
                                && loc.row < batch_rows(self.build@[loc.batch as int]@))
                            &&& pair.right is None
                        },
            {
                proof {
                    assert(mm[bi as int].take(r + 1).drop_last() =~= mm[bi as int].take(r as int));
                    assert(mm[bi as int].take(r + 1).last() == mm[bi as int][r as int]);
                }
                if !self.matched[bi][r] {
                    out.push(
                        OutPair { left: Some(BuildLoc { batch: bi, row: r }), right: None },
                    );
                    proof {
                        assert(out@ =~= before + unmatched_in(mm[bi as int].take(r + 1), bi as int));
                    }
                }
            }
            proof {
                assert(mm[bi as int].take(rows as int) =~= mm[bi as int]);
                assert(out@ =~= unmatched_pairs(mm.take(bi + 1)));
            }
        }
        proof {
            assert(mm.take(nb as int) =~= mm);
        }
        out
    }

    /// Delivers the flush batch of a left-outer join: one output batch of
    /// the build rows left unmatched, with missing probe columns.
    pub(crate) fn flush_item(&self) -> (r: StreamItem)
        requires
            self.join_wf(),
        ensures
            item_model(r) == assemble_spec(
                batches_model(self.build@),
                None,
                unmatched_pairs(matched_model(self.matched@)),
                self.schema@,
                self.left_width as int,
            ),
    {
        let pairs = self.flush_pairs();
        assemble(&self.build, None, &pairs, &self.schema, self.left_width)
    }
}

/// The error aborting a build-side drain, if any, scanning the items from
/// the front: the first failed item's error, or a `LengthMismatch` at the
/// first batch whose column count differs from the build side's width.
pub open spec fn build_problem(items: Seq<Result<BatchModel, Error>>, lw: int) -> Option<Error>
    decreases items.len(),
{
    if items.len() == 0 {
        None
    } else {
        match items[0] {
            Err(e) => Some(e),
            Ok(b) => if b.columns.len() != lw {
                Some(Error::LengthMismatch)
            } else {
                build_problem(items.drop_first(), lw)
            },
        }
    }
}

/// Drains a build-side stream to completion.  Every item must be a batch of
/// exactly `lw` columns: the drain succeeds exactly when the stream has no
/// failed item and no batch of another width, and otherwise aborts with the
/// first offending item's error, so a build-side error aborts the whole
/// join with that error.
pub fn drain_build(st: &mut BatchStream, lw: usize) -> (r: Result<Vec<RecordBatch>, Error>)
    requires
        old(st).wf(),
    ensures
        final(st).wf(),
        r is Ok <==> build_problem(old(st).remaining(), lw as int) is None,
        r matches Err(e) ==> build_problem(old(st).remaining(), lw as int) == Some(e),
        r matches Ok(v) ==> {
            &&& forall|k: int| 0 <= k < old(st).remaining().len() ==> (#[trigger] old(
                st,
            ).remaining()[k]) is Ok
            &&& batches_model(v@) == ok_payloads(old(st).remaining())
            &&& forall|bi: int|
                0 <= bi < v@.len() ==> (#[trigger] v@[bi]@).columns.len() == lw && batch_wf(
                    v@[bi]@,
                ) && batch_rows(v@[bi]@) <= usize::MAX
            &&& v@.len() <= usize::MAX
        },
{
    let ghost orig = st.remaining();
    proof {
        assert(orig.skip(0) =~= orig);
    }
    let mut out: Vec<RecordBatch> = Vec::new();
    let mut finished = false;
    while !finished
        invariant
            orig == old(st).remaining(),
            st.wf(),
            out@.len() <= orig.len(),
            st.remaining() == orig.skip(out@.len() as int),
            build_problem(orig, lw as int) == build_problem(
                orig.skip(out@.len() as int),
                lw as int,
            ),
            forall|k: int| 0 <= k < out@.len() ==> (#[trigger] orig[k]) is Ok,
            forall|k: int| 0 <= k < out@.len() ==> (#[trigger] out@[k]@) == orig[k].unwrap(),
            forall|bi: int|
                0 <= bi < out@.len() ==> (#[trigger] out@[bi]@).columns.len() == lw && batch_wf(
                    out@[bi]@,
                ) && batch_rows(out@[bi]@) <= usize::MAX,
            finished ==> st.remaining().len() == 0 && out@.len() == orig.len(),
        decreases st.remaining().len() + (if finished { 0int } else { 1int }),
    {
        match st.next() {
            None => {
                proof {
                    assert(orig.skip(out@.len() as int).len() == 0);
                }
                finished = true;
            },
            Some(it) => {
                proof {
                    assert(orig.skip(out@.len() as int)[0] == orig[out@.len() as int]);
                    assert(orig.skip(out@.len() as int).drop_first() =~= orig.skip(
                        out@.len() as int + 1,
                    ));
                }
                match it {
                    Ok(b) => {
                        proof {
                            use_type_invariant(&b);
                        }
                        if b.num_columns() != lw {
                            proof {
                                assert(build_problem(orig.skip(out@.len() as int), lw as int)
                                    == Some(Error::LengthMismatch));
                            }
                            return Err(Error::LengthMismatch);
                        }
                        let rows_bound = b.row_count();
                        out.push(b);
                    },
                    Err(e) => {
                        proof {
                            assert(build_problem(orig.skip(out@.len() as int), lw as int) == Some(
                                e,
                            ));
                        }
                        return Err(e);
                    },
                }
            },
        }
    }
    let len_bound = out.len();
    proof {
        assert(batches_model(out@) =~= ok_payloads(orig));
        assert(out@.len() == len_bound);
        assert(build_problem(orig.skip(out@.len() as int), lw as int) is None);
    }
    Ok(out)
}

/// The all-false matched bitmap mirroring the build batches' row counts.
pub fn init_matched_vec(build: &Vec<RecordBatch>) -> (r: Vec<Vec<bool>>)
    ensures
        matched_model(r@) == init_matched(batches_model(build@)),
{
    let mut out: Vec<Vec<bool>> = Vec::new();
    let nb = build.len();
    for bi in 0..nb
        invariant
            nb == build@.len(),
            out@.len() == bi,
            forall|j: int|
                0 <= j < bi ==> (#[trigger] out@[j]@) == Seq::new(
                    batch_rows(build@[j]@),
                    |r: int| false,
                ),
    {
        let rows = build[bi].row_count();
        let mut inner: Vec<bool> = Vec::new();
        let mut k: usize = 0;
        while k < rows
            invariant
                k <= rows,
                inner@ == Seq::new(k as nat, |r: int| false),
            decreases rows - k,
        {
            inner.push(false);
            k = k + 1;
            proof {
                assert(inner@ =~= Seq::new(k as nat, |r: int| false));
            }
        }
        out.push(inner);
    }
    proof {
        assert(matched_model(out@) =~= init_matched(batches_model(build@)));
    }
    out
}

/// Whether a schema is free of duplicate field names.
pub open spec fn no_dup_names(s: Seq<FieldModel>) -> bool {
    forall|i: int, j: int| 0 <= i < j < s.len() ==> (#[trigger] s[i]).name != (#[trigger] s[j]).name
}

/// The hash join operator: a left and a right child, one join-key
/// expression per side, a join type, and the combined output schema (left
/// fields followed by right fields).
pub struct HashJoinExec<D: DataSource> {
    pub schema: Schema,
    pub left: Arc<Plan<D>>,
    pub right: Arc<Plan<D>>,
    pub on_left: Expr,
    pub on_right: Expr,
    pub join_type: JoinType,
    pub left_width: usize,
}

impl<D: DataSource> HashJoinExec<D> {
    /// Builds a hash join node.  The output schema concatenates the fields
    /// of both children's schemas; a name collision is rejected with
    /// `DuplicateColumnName` at construction.
    pub fn new(
        left: Arc<Plan<D>>,
        right: Arc<Plan<D>>,
        on_left: Expr,
        on_right: Expr,
        join_type: JoinType,
    ) -> (r: Result<HashJoinExec<D>, Error>)
        ensures
            r is Ok <==> no_dup_names(
                crate::physical_plan::plan_schema(*left) + crate::physical_plan::plan_schema(
                    *right,
                ),
            ),
            r matches Ok(j) ==> {
                &&& j.schema@ == crate::physical_plan::plan_schema(*left)
                    + crate::physical_plan::plan_schema(*right)
                &&& j.left_width == crate::physical_plan::plan_schema(*left).len()
                &&& j.left == left
                &&& j.right == right
                &&& j.on_left == on_left
                &&& j.on_right == on_right
                &&& j.join_type == join_type
            },
            r is Err ==> r == Err::<HashJoinExec<D>, Error>(Error::DuplicateColumnName),
    {
        let ls = left.schema();
        let rs = right.schema();
        let ghost combined = ls@ + rs@;
        let left_width = ls.len();
        let mut fields: Vec<Field> = Vec::new();
        let nl = ls.len();
        for i in 0..nl
            invariant
                nl == ls@.len(),
                fields@.len() == i,
                forall|j: int| 0 <= j < i ==> (#[trigger] fields@[j]@) == ls@[j],
        {
            fields.push(ls.field_at(i).clone());
        }
        let nr = rs.len();
        for i in 0..nr
            invariant
                nr == rs@.len(),
                nl == ls@.len(),
                fields@.len() == nl + i,
                forall|j: int| 0 <= j < nl ==> (#[trigger] fields@[j]@) == ls@[j],
                forall|j: int| nl <= j < nl + i ==> (#[trigger] fields@[j]@) == rs@[j - nl],
        {
            fields.push(rs.field_at(i).clone());
        }
        proof {
            assert(crate::data_type::fields_model(fields@) =~= combined);
        }
        let n = fields.len();
        for i in 0..n
            invariant
                n == fields@.len(),
                crate::data_type::fields_model(fields@) == combined,
                combined == crate::physical_plan::plan_schema(*left)
                    + crate::physical_plan::plan_schema(*right),
                forall|a: int, b: int|
                    0 <= a < b < fields@.len() && a < i ==> (#[trigger] fields@[a]@).name
                        != (#[trigger] fields@[b]@).name,
        {
            let mut j = i + 1;
            while j < n
                invariant
                    i < j <= n,
                    n == fields@.len(),
                    crate::data_type::fields_model(fields@) == combined,
                    combined == crate::physical_plan::plan_schema(*left)
                        + crate::physical_plan::plan_schema(*right),
                    forall|b: int|
                        i < b < j ==> (#[trigger] fields@[b]@).name != fields@[i as int]@.name,
                decreases n - j,
            {
                if fields[i].name == fields[j].name {
                    proof {
                        assert(combined[i as int] == fields@[i as int]@);
                        assert(combined[j as int] == fields@[j as int]@);
                        assert(combined[i as int].name == combined[j as int].name);
                        assert(!no_dup_names(combined));
                    }
                    return Err(Error::DuplicateColumnName);
                }
                j = j + 1;
            }
        }
        proof {
            assert(forall|a: int, b: int|
                0 <= a < b < combined.len() ==> (#[trigger] combined[a]).name
                    != (#[trigger] combined[b]).name);
        }
        Ok(
            HashJoinExec {
                schema: Schema::new(fields),
                left,
                right,
                on_left,
                on_right,
                join_type,
                left_width,
            },
        )
    }
}

} // verus!
