//! The physical operator tree: scan, filter, projection and hash join nodes
//! over a data source, each exposing a schema and an executable batch
//! stream.
//!
//! `execute` on a node returns a fresh lazy stream; the predicate
//! [`plan_yields`] pins down exactly which item sequence any successful
//! execution of a plan delivers, so two executions of one plan yield the
//! same items from the beginning.

pub mod filter;
pub mod join;
pub mod project;
pub mod scan;

use std::sync::Arc;

use vstd::prelude::*;

use crate::data_source::{names_subset, scan_items, scan_schema, DataSource};
use crate::data_type::{batch_rows, strings_model, BatchModel, FieldModel, Schema};
use crate::error::Error;
use crate::expression::Expr;
use crate::stream::BatchStream;
use crate::physical_plan::filter::FilterExec;
use crate::physical_plan::join::{
    build_table_spec, init_matched, join_items, ok_payloads, HashJoinExec, JoinStream, JoinTable,
};
use crate::physical_plan::project::ProjectionExec;
use crate::physical_plan::scan::ScanExec;

verus! {

/// The join types a hash join supports.
#[derive(Clone, Copy, Debug, PartialEq, Eq, Structural)]
pub enum JoinType {
    Inner,
    Left,
    Right,
}

/// A node of the physical operator tree.  Child nodes are held by shared,
/// reference-counted, read-only ownership, so one sub-plan may be referenced
/// by more than one parent.
pub enum Plan<D: DataSource> {
    Scan(ScanExec<D>),
    Filter(FilterExec<D>),
    Projection(ProjectionExec<D>),
    HashJoin(HashJoinExec<D>),
}

/// The schema of the batches a plan produces.
pub open spec fn plan_schema<D: DataSource>(p: Plan<D>) -> Seq<FieldModel>
    decreases p,
{
    match p {
        Plan::Scan(s) => scan_schema(s.source.source_schema(), strings_model(s.projection@)),
        Plan::Filter(f) => plan_schema(*f.input),
        Plan::Projection(pr) => pr.schema@,
        Plan::HashJoin(j) => j.schema@,
    }
}

/// The item sequence a successful execution of a plan yields.
///
/// A scan requires every projected name to exist and yields the source's
/// items restricted to the projection; a filter and a projection transform
/// their child's items one for one; a hash join requires the whole build
/// (left) side to drain without error into the build table and yields one
/// output item per probe item, plus, for a left-outer join, one final batch
/// of unmatched build rows.
pub open spec fn plan_yields<D: DataSource>(
    p: Plan<D>,
    items: Seq<Result<BatchModel, Error>>,
) -> bool
    decreases p,
{
    match p {
        Plan::Scan(s) => {
            &&& names_subset(strings_model(s.projection@), s.source.source_schema())
            &&& items == scan_items(
                s.source.source_items(),
                s.source.source_schema(),
                strings_model(s.projection@),
            )
        },
        Plan::Filter(f) => exists|ci: Seq<Result<BatchModel, Error>>|
            #![trigger filter_yields_with(f, ci, items)]
            {
                &&& plan_yields(*f.input, ci)
                &&& filter_yields_with(f, ci, items)
            },
        Plan::Projection(pr) => exists|ci: Seq<Result<BatchModel, Error>>|
            #![trigger project_yields_with(pr, ci, items)]
            {
                &&& plan_yields(*pr.input, ci)
                &&& project_yields_with(pr, ci, items)
            },
        Plan::HashJoin(j) => exists|li: Seq<Result<BatchModel, Error>>, ri: Seq<
            Result<BatchModel, Error>,
        >|
            #![trigger join_yields_with(j, li, ri, items)]
            {
                &&& plan_yields(*j.left, li)
                &&& plan_yields(*j.right, ri)
                &&& join_yields_with(j, li, ri, items)
            },
    }
}

/// The filter's yield relation for a given child item sequence: one masked
/// item per child item.
pub open spec fn filter_yields_with<D: DataSource>(
    f: FilterExec<D>,
    ci: Seq<Result<BatchModel, Error>>,
    items: Seq<Result<BatchModel, Error>>,
) -> bool {
    items == crate::stream::filter_items(f.predicate, ci)
}

/// The projection's yield relation for a given child item sequence: one
/// projected item per child item.
pub open spec fn project_yields_with<D: DataSource>(
    pr: ProjectionExec<D>,
    ci: Seq<Result<BatchModel, Error>>,
    items: Seq<Result<BatchModel, Error>>,
) -> bool {
    items == crate::stream::project_items(pr.schema@, pr.expr@, ci)
}

/// The hash join's yield relation for given build-side and probe-side item
/// sequences: the build side drains without error into batches of the build
/// width, the table builds successfully, and the items are the join of the
/// two sides.
pub open spec fn join_yields_with<D: DataSource>(
    j: HashJoinExec<D>,
    li: Seq<Result<BatchModel, Error>>,
    ri: Seq<Result<BatchModel, Error>>,
    items: Seq<Result<BatchModel, Error>>,
) -> bool {
    &&& forall|k: int| 0 <= k < li.len() ==> (#[trigger] li[k]) is Ok
    &&& forall|k: int|
        0 <= k < li.len() ==> (#[trigger] ok_payloads(li)[k]).columns.len() == j.left_width
    &&& build_table_spec(ok_payloads(li), j.on_left) is Ok
    &&& items == join_items(
        ok_payloads(li),
        build_table_spec(ok_payloads(li), j.on_left).unwrap(),
        j.on_right,
        j.join_type,
        j.schema@,
        j.left_width as int,
        init_matched(ok_payloads(li)),
        ri,
        false,
    )
}

impl<D: DataSource> Plan<D> {
    /// The schema of the batches this plan produces.
    pub fn schema(&self) -> (r: Schema)
        ensures
            r@ == plan_schema(*self),
        decreases *self,
    {
        match self {
            Plan::Scan(s) => s.schema(),
            Plan::Filter(f) => f.input.schema(),
            Plan::Projection(pr) => pr.schema.clone(),
            Plan::HashJoin(j) => j.schema.clone(),
        }
    }

    /// The direct children of this node, leaf nodes having none.
    pub fn children(&self) -> (r: Vec<&Plan<D>>)
        ensures
            match self {
                Plan::Scan(_) => r@.len() == 0,
                Plan::Filter(f) => r@.len() == 1 && *r@[0] == *f.input,
                Plan::Projection(pr) => r@.len() == 1 && *r@[0] == *pr.input,
                Plan::HashJoin(j) => r@.len() == 2 && *r@[0] == *j.left && *r@[1] == *j.right,
            },
    {
        match self {
            Plan::Scan(_) => Vec::new(),
            Plan::Filter(f) => {
                let mut v: Vec<&Plan<D>> = Vec::new();
                v.push(&*f.input);
                v
            },
            Plan::Projection(pr) => {
                let mut v: Vec<&Plan<D>> = Vec::new();
                v.push(&*pr.input);
                v
            },
            Plan::HashJoin(j) => {
                let mut v: Vec<&Plan<D>> = Vec::new();
                v.push(&*j.left);
                v.push(&*j.right);
                v
            },
        }
    }

    /// Executes this plan, returning a fresh lazy stream.  Each call starts
    /// over: any successful execution yields exactly the items `plan_yields`
    /// describes, from the beginning.
    pub fn execute(&self) -> (r: Result<BatchStream, Error>)
        ensures
            r matches Ok(st) ==> st.wf() && plan_yields(*self, st.remaining()),
            *self matches Plan::Scan(s) && !names_subset(
                strings_model(s.projection@),
                s.source.source_schema(),
            ) ==> r == Err::<BatchStream, Error>(Error::UnknownColumn),
            *self matches Plan::HashJoin(j) && j.left_width > j.schema@.len() ==> r == Err::<
                BatchStream,
                Error,
            >(Error::LengthMismatch),
        decreases *self,
    {
        match self {
            Plan::Scan(s) => s.source.scan(&s.projection),
            Plan::Filter(f) => {
                let child = match f.input.execute() {
                    Ok(st) => st,
                    Err(e) => {
                        return Err(e);
                    },
                };
                let ghost crem = child.remaining();
                let st = BatchStream::Filter {
                    child: Box::new(child),
                    predicate: f.predicate.clone(),
                };
                proof {
                    assert(st.wf());
                    assert(plan_yields(*f.input, crem));
                    assert(st.remaining() == crate::stream::filter_items(f.predicate, crem));
                    assert(filter_yields_with(*f, crem, st.remaining()));
                    assert(plan_yields(*self, st.remaining()));
                }
                Ok(st)
            },
            Plan::Projection(pr) => {
                let child = match pr.input.execute() {
                    Ok(st) => st,
                    Err(e) => {
                        return Err(e);
                    },
                };
                let mut exprs: Vec<Expr> = Vec::new();
                let n = pr.expr.len();
                for k in 0..n
                    invariant
                        n == pr.expr@.len(),
                        exprs@.len() == k,
                        forall|j: int| 0 <= j < k ==> #[trigger] exprs@[j] == pr.expr@[j],
                {
                    exprs.push(pr.expr[k].clone());
                }
                proof {
                    assert(exprs@ =~= pr.expr@);
                }
                let ghost crem = child.remaining();
                let st = BatchStream::Projection {
                    child: Box::new(child),
                    schema: pr.schema.clone(),
                    exprs,
                };
                proof {
                    assert(st.wf());
                    assert(plan_yields(*pr.input, crem));
                    assert(st.remaining() == crate::stream::project_items(pr.schema@, pr.expr@, crem));
                    assert(project_yields_with(*pr, crem, st.remaining()));
                    assert(plan_yields(*self, st.remaining()));
                }
                Ok(st)
            },
            Plan::HashJoin(j) => {
                if j.left_width > j.schema.len() {
                    return Err(Error::LengthMismatch);
                }
                let mut ls = match j.left.execute() {
                    Ok(st) => st,
                    Err(e) => {
                        return Err(e);
                    },
                };
                let ghost li = ls.remaining();
                let build = match join::drain_build(&mut ls, j.left_width) {
                    Ok(v) => v,
                    Err(e) => {
                        return Err(e);
                    },
                };
                let table = match join::build_table(&build, &j.on_left) {
                    Ok(t) => t,
                    Err(e) => {
                        return Err(e);
                    },
                };
                let probe = match j.right.execute() {
                    Ok(st) => st,
                    Err(e) => {
                        return Err(e);
                    },
                };
                let ghost ri = probe.remaining();
                let matched = join::init_matched_vec(&build);
                proof {
                    join::lemma_build_table_bounds(join::batches_model(build@), j.on_left);
                }
                let js = JoinStream {
                    build,
                    table,
                    probe: Box::new(probe),
                    on_right: j.on_right.clone(),
                    join_type: j.join_type,
                    schema: j.schema.clone(),
                    left_width: j.left_width,
                    matched,
                    done: false,
                };
                let st = BatchStream::Join(js);
                proof {
                    let jsg = st->Join_0;
                    assert(jsg.join_wf()) by {
                        assert(jsg.probe.wf());
                        assert(jsg.left_width <= jsg.schema@.len());
                        assert(join::matched_model(jsg.matched@) == join::init_matched(
                            join::batches_model(jsg.build@),
                        ));
                        assert forall|bi: int| 0 <= bi < jsg.build@.len() implies (
                        #[trigger] jsg.matched@[bi]@).len() == batch_rows(jsg.build@[bi]@) by {
                            assert(join::matched_model(jsg.matched@)[bi] == jsg.matched@[bi]@);
                            assert(join::batches_model(jsg.build@)[bi] == jsg.build@[bi]@);
                        }
                        assert forall|bi: int| 0 <= bi < jsg.build@.len() implies (
                        #[trigger] jsg.build@[bi]@).columns.len() == jsg.left_width by {}
                        join::lemma_build_table_bounds(
                            join::batches_model(jsg.build@),
                            j.on_left,
                        );
                        assert forall|t: int|
                            0 <= t < join::table_model(jsg.table.entries@).len() implies {
                            let loc = (#[trigger] join::table_model(jsg.table.entries@)[t]).1;
                            loc.batch < jsg.build@.len() && loc.row < batch_rows(
                                jsg.build@[loc.batch as int]@,
                            )
                        } by {
                            let bsm = join::batches_model(jsg.build@);
                            let tm = join::table_model(jsg.table.entries@);
                            assert(join::build_table_spec(bsm, j.on_left).unwrap() == tm);
                            let loc = (join::build_table_spec(bsm, j.on_left).unwrap()[t]).1;
                            assert(loc.batch < bsm.len());
                            assert(loc.row < batch_rows(bsm[loc.batch as int]));
                            assert(bsm[loc.batch as int] == jsg.build@[loc.batch as int]@);
                        }
                    }
                    assert(st.wf());
                    let items = st.remaining();
                    let bs = join::batches_model(st->Join_0.build@);
                    assert(bs == join::ok_payloads(li));
                    assert(forall|k: int|
                        0 <= k < li.len() ==> (#[trigger] join::ok_payloads(li)[k]).columns.len()
                            == j.left_width);
                    assert(join::build_table_spec(bs, j.on_left) == Ok::<
                        Seq<(crate::data_type::Val, join::BuildLoc)>,
                        Error,
                    >(join::table_model(st->Join_0.table.entries@)));
                    assert(join::matched_model(st->Join_0.matched@) == join::init_matched(bs));
                    assert(st->Join_0.probe.remaining() == ri);
                    assert(items == st->Join_0.join_remaining());
                    assert(st->Join_0.on_right == j.on_right);
                    assert(st->Join_0.join_type == j.join_type);
                    assert(st->Join_0.schema@ == j.schema@);
                    assert(st->Join_0.left_width == j.left_width);
                    assert(st->Join_0.done == false);
                    assert(items == join::join_items(
                        bs,
                        join::table_model(st->Join_0.table.entries@),
                        j.on_right,
                        j.join_type,
                        j.schema@,
                        j.left_width as int,
                        join::matched_model(st->Join_0.matched@),
                        ri,
                        false,
                    ));
                    assert(items == join::join_items(
                        join::ok_payloads(li),
                        join::build_table_spec(join::ok_payloads(li), j.on_left).unwrap(),
                        j.on_right,
                        j.join_type,
                        j.schema@,
                        j.left_width as int,
                        join::init_matched(join::ok_payloads(li)),
                        ri,
                        false,
                    ));
                    assert(forall|k: int| 0 <= k < li.len() ==> (#[trigger] li[k]) is Ok);
                    assert(join::build_table_spec(join::ok_payloads(li), j.on_left) is Ok);
                    assert(plan_yields(*j.left, li));
                    assert(plan_yields(*j.right, ri));
                    assert(join_yields_with(*j, li, ri, items));
                    assert(*self == Plan::HashJoin(*j));
                    assert(plan_yields(*self, items));
                }
                Ok(st)
            },
        }
    }
}

} // verus!
