//! Engine-wide laws, stated and proved over the same models the operators'
//! contracts use.

use vstd::prelude::*;

use crate::data_source::{
    scan_item, scan_items, scan_schema, selected_indices, selection_mask, DataSource,
};
use crate::data_type::{
    batch_filter_spec, batch_rows, batch_wf, count_true, filtered, lemma_filtered_all_true,
    lemma_filtered_len, mask_bits, names_contain, schema_selected, BatchModel, ColModel, Datatype,
    FieldModel,
};
use crate::error::Error;
use crate::expression::Expr;
use crate::physical_plan::join::{join_items, probe_step_spec, BuildLoc, OutPair};
use crate::physical_plan::{plan_schema, plan_yields, Plan};
use crate::stream::{filter_item, filter_items, project_item, project_items};
use crate::data_type::Val;
use crate::physical_plan::JoinType;

verus! {

/// Filtering a well-formed batch by a boolean mask of its row count succeeds
/// and keeps exactly as many rows as the mask has bits set.
pub proof fn lemma_batch_filter_row_count(b: BatchModel, mask: ColModel)
    requires
        batch_wf(b),
        mask.dtype == Datatype::Boolean,
        mask.vals.len() == batch_rows(b),
    ensures
        batch_filter_spec(b, mask) is Ok,
        batch_rows(batch_filter_spec(b, mask).unwrap()) == count_true(mask_bits(mask.vals)),
{
    let out = batch_filter_spec(b, mask).unwrap();
    assert(out.columns[0] == ColModel {
        dtype: b.columns[0].dtype,
        vals: filtered(b.columns[0].vals, mask_bits(mask.vals)),
    });
    lemma_filtered_len(b.columns[0].vals, mask_bits(mask.vals));
}

/// Filtering a well-formed batch by an all-true mask returns the batch
/// value-equal: same schema, same columns, same cells.
pub proof fn lemma_batch_filter_all_true(b: BatchModel, mask: ColModel)
    requires
        batch_wf(b),
        mask.dtype == Datatype::Boolean,
        mask.vals.len() == batch_rows(b),
        forall|i: int| 0 <= i < mask.vals.len() ==> mask_bits(mask.vals)[i],
    ensures
        batch_filter_spec(b, mask) is Ok,
        batch_filter_spec(b, mask).unwrap() == b,
{
    let out = batch_filter_spec(b, mask).unwrap();
    assert forall|j: int| 0 <= j < b.columns.len() implies (#[trigger] out.columns[j])
        == b.columns[j] by {
        lemma_filtered_all_true(b.columns[j].vals, mask_bits(mask.vals));
        assert(out.columns[j] == ColModel {
            dtype: b.columns[j].dtype,
            vals: filtered(b.columns[j].vals, mask_bits(mask.vals)),
        });
    }
    assert(out.columns =~= b.columns);
}

/// Selection by name keeps the schema's own field order: the selected
/// schema is exactly the original masked by name membership, so it is a
/// subsequence of the original, in the original's order.
pub proof fn lemma_selected_is_masked(s: Seq<FieldModel>, names: Seq<Seq<char>>)
    ensures
        schema_selected(s, names) == filtered(s, selection_mask(s, names)),
    decreases s.len(),
{
    if s.len() > 0 {
        lemma_selected_is_masked(s.drop_last(), names);
        assert(selection_mask(s, names).drop_last() =~= selection_mask(s.drop_last(), names));
        assert(selection_mask(s, names).last() == names_contain(names, s.last().name));
        assert(schema_selected(s, names) =~= filtered(s, selection_mask(s, names)));
    } else {
        assert(schema_selected(s, names) =~= filtered(s, selection_mask(s, names)));
    }
}

/// The positions `0..n`, in order.
pub open spec fn identity_positions(n: nat) -> Seq<usize> {
    Seq::new(n, |i: int| i as usize)
}

/// Gathering a sequence at the positions kept by a mask over the identity
/// positions is the same as masking the sequence itself, and every kept
/// position lies within the sequence.
proof fn lemma_filtered_positions<A>(s: Seq<A>, mask: Seq<bool>)
    requires
        mask.len() == s.len(),
        s.len() <= usize::MAX,
    ensures
        forall|j: int|
            0 <= j < filtered(identity_positions(s.len()), mask).len() ==> (#[trigger] filtered(
                identity_positions(s.len()),
                mask,
            )[j]) < s.len(),
        Seq::new(
            filtered(identity_positions(s.len()), mask).len(),
            |j: int| s[filtered(identity_positions(s.len()), mask)[j] as int],
        ) == filtered(s, mask),
    decreases s.len(),
{
    let positions = identity_positions(s.len());
    if s.len() > 0 {
        lemma_filtered_positions(s.drop_last(), mask.drop_last());
        let sub = identity_positions(s.drop_last().len());
        assert(positions.drop_last() =~= sub);
        let kept = filtered(positions, mask);
        let kept_sub = filtered(sub, mask.drop_last());
        assert forall|j: int| 0 <= j < kept.len() implies (#[trigger] kept[j]) < s.len() by {
            if j < kept_sub.len() {
                assert(kept[j] == kept_sub[j]);
            }
        }
        lemma_filtered_len(s, mask);
        assert(positions.len() == mask.len());
        lemma_filtered_len(positions, mask);
        assert(filtered(positions, mask).len() == count_true(mask));
        assert(filtered(s, mask).len() == count_true(mask));
        assert(kept.len() == filtered(s, mask).len());
        assert forall|j: int| 0 <= j < kept.len() implies s[kept[j] as int] == filtered(
            s,
            mask,
        )[j] by {
            if j < kept_sub.len() {
                assert(kept[j] == kept_sub[j]);
                assert(kept_sub[j] < s.drop_last().len());
                assert(s[kept_sub[j] as int] == s.drop_last()[kept_sub[j] as int]);
                assert(Seq::new(
                    kept_sub.len(),
                    |q: int| s.drop_last()[kept_sub[q] as int],
                )[j] == s.drop_last()[kept_sub[j] as int]);
                assert(filtered(s, mask)[j] == filtered(s.drop_last(), mask.drop_last())[j]);
            } else {
                assert(mask.last());
                assert(kept[j] == positions.last());
                assert(filtered(s, mask)[j] == s.last());
            }
        }
        assert(Seq::new(kept.len(), |j: int| s[kept[j] as int]) =~= filtered(s, mask));
    } else {
        assert(Seq::new(
            filtered(positions, mask).len(),
            |j: int| s[filtered(positions, mask)[j] as int],
        ) =~= filtered(s, mask));
    }
}

/// A filter passes an upstream error item through untouched: it never
/// evaluates the predicate on a failed item.
pub proof fn lemma_filter_error_passthrough(
    predicate: Expr,
    items: Seq<Result<BatchModel, Error>>,
    i: int,
)
    requires
        0 <= i < items.len(),
        items[i] is Err,
    ensures
        filter_items(predicate, items)[i] == items[i],
{
    assert(filter_items(predicate, items)[i] == filter_item(predicate, items[i]));
}

/// A projection passes an upstream error item through untouched: it never
/// evaluates its expressions on a failed item.
pub proof fn lemma_projection_error_passthrough(
    schema: Seq<FieldModel>,
    exprs: Seq<Expr>,
    items: Seq<Result<BatchModel, Error>>,
    i: int,
)
    requires
        0 <= i < items.len(),
        items[i] is Err,
    ensures
        project_items(schema, exprs, items)[i] == items[i],
{
    assert(project_items(schema, exprs, items)[i] == project_item(schema, exprs, items[i]));
}

/// Re-running a plan is deterministic: any two successful executions of one
/// plan yield the same item sequence, from the beginning.  Together with
/// `Plan::execute`, which returns a fresh stream satisfying `plan_yields`
/// on every call, this says an operator is restartable even though each
/// stream is single-pass.
pub proof fn lemma_plan_yields_unique<D: DataSource>(
    p: &Plan<D>,
    items1: Seq<Result<BatchModel, Error>>,
    items2: Seq<Result<BatchModel, Error>>,
)
    requires
        plan_yields(*p, items1),
        plan_yields(*p, items2),
    ensures
        items1 == items2,
    decreases *p,
{
    match p {
        Plan::Scan(s) => {},
        Plan::Filter(f) => {
            let ci1 = choose|ci: Seq<Result<BatchModel, Error>>|
                #![trigger crate::physical_plan::filter_yields_with(*f, ci, items1)]
                plan_yields(*f.input, ci) && crate::physical_plan::filter_yields_with(
                    *f,
                    ci,
                    items1,
                );
            let ci2 = choose|ci: Seq<Result<BatchModel, Error>>|
                #![trigger crate::physical_plan::filter_yields_with(*f, ci, items2)]
                plan_yields(*f.input, ci) && crate::physical_plan::filter_yields_with(
                    *f,
                    ci,
                    items2,
                );
            lemma_plan_yields_unique(&*f.input, ci1, ci2);
        },
        Plan::Projection(pr) => {
            let ci1 = choose|ci: Seq<Result<BatchModel, Error>>|
                #![trigger crate::physical_plan::project_yields_with(*pr, ci, items1)]
                plan_yields(*pr.input, ci) && crate::physical_plan::project_yields_with(
                    *pr,
                    ci,
                    items1,
                );
            let ci2 = choose|ci: Seq<Result<BatchModel, Error>>|
                #![trigger crate::physical_plan::project_yields_with(*pr, ci, items2)]
                plan_yields(*pr.input, ci) && crate::physical_plan::project_yields_with(
                    *pr,
                    ci,
                    items2,
                );
            lemma_plan_yields_unique(&*pr.input, ci1, ci2);
        },
        Plan::HashJoin(j) => {
            let (li1, ri1) = choose|li: Seq<Result<BatchModel, Error>>, ri: Seq<
                Result<BatchModel, Error>,
            >|
                #![trigger crate::physical_plan::join_yields_with(*j, li, ri, items1)]
                plan_yields(*j.left, li) && plan_yields(*j.right, ri)
                    && crate::physical_plan::join_yields_with(*j, li, ri, items1);
            let (li2, ri2) = choose|li: Seq<Result<BatchModel, Error>>, ri: Seq<
                Result<BatchModel, Error>,
            >|
                #![trigger crate::physical_plan::join_yields_with(*j, li, ri, items2)]
                plan_yields(*j.left, li) && plan_yields(*j.right, ri)
                    && crate::physical_plan::join_yields_with(*j, li, ri, items2);
            lemma_plan_yields_unique(&*j.left, li1, li2);
            lemma_plan_yields_unique(&*j.right, ri1, ri2);
        },
    }
}


/// Whether every successful item of a sequence carries the given schema.
pub open spec fn items_carry_schema(
    items: Seq<Result<BatchModel, Error>>,
    schema: Seq<FieldModel>,
) -> bool {
    forall|i: int|
        0 <= i < items.len() ==> ((#[trigger] items[i]) matches Ok(b) ==> b.schema == schema)
}

/// Whether every data source under a plan hands out batches carrying its
/// own reported schema (with a schema of machine-representable width).
pub open spec fn plan_sources_conform<D: DataSource>(p: Plan<D>) -> bool
    decreases p,
{
    match p {
        Plan::Scan(s) => items_carry_schema(s.source.source_items(), s.source.source_schema())
            && s.source.source_schema().len() <= usize::MAX,
        Plan::Filter(f) => plan_sources_conform(*f.input),
        Plan::Projection(pr) => plan_sources_conform(*pr.input),
        Plan::HashJoin(j) => plan_sources_conform(*j.left) && plan_sources_conform(*j.right),
    }
}

/// A scan of a conforming source yields batches carrying the scan's schema.
proof fn lemma_scan_carries_schema(
    items: Seq<Result<BatchModel, Error>>,
    schema: Seq<FieldModel>,
    names: Seq<Seq<char>>,
)
    requires
        items_carry_schema(items, schema),
        schema.len() <= usize::MAX,
    ensures
        items_carry_schema(scan_items(items, schema, names), scan_schema(schema, names)),
{
    let out = scan_items(items, schema, names);
    assert forall|i: int|
        0 <= i < out.len() implies ((#[trigger] out[i]) matches Ok(b) ==> b.schema == scan_schema(
        schema,
        names,
    )) by {
        assert(out[i] == scan_item(schema, names, items[i]));
        if names.len() > 0 && items[i] is Ok && out[i] is Ok {
            let b = items[i].unwrap();
            let idx = selected_indices(schema, names);
            let mask = selection_mask(schema, names);
            assert(identity_positions(schema.len()) =~= Seq::new(
                schema.len(),
                |q: int| q as usize,
            ));
            assert(idx == filtered(identity_positions(schema.len()), mask));
            lemma_filtered_positions(schema, mask);
            lemma_selected_is_masked(schema, names);
            assert(out[i].unwrap().schema =~= Seq::new(
                idx.len(),
                |q: int| schema[idx[q] as int],
            ));
            assert(Seq::new(idx.len(), |q: int| schema[idx[q] as int]) =~= filtered(
                schema,
                mask,
            ));
        }
    }
}

/// Every successful batch a running join still yields carries the join's
/// output schema.
proof fn lemma_join_items_carry(
    bs: Seq<BatchModel>,
    tm: Seq<(Val, BuildLoc)>,
    on_right: Expr,
    jt: JoinType,
    schema: Seq<FieldModel>,
    lw: int,
    matched: Seq<Seq<bool>>,
    probe: Seq<Result<BatchModel, Error>>,
    done: bool,
)
    ensures
        items_carry_schema(join_items(bs, tm, on_right, jt, schema, lw, matched, probe, done), schema),
    decreases probe.len(),
{
    if !done && probe.len() > 0 {
        match probe[0] {
            Err(e) => {
                lemma_join_items_carry(
                    bs, tm, on_right, jt, schema, lw, matched, probe.drop_first(), false,
                );
            },
            Ok(pb) => {
                let stepped = probe_step_spec(bs, tm, on_right, jt, schema, lw, matched, pb);
                lemma_join_items_carry(
                    bs, tm, on_right, jt, schema, lw, stepped.1, probe.drop_first(), false,
                );
            },
        }
    }
}

/// Schema propagation: over conforming sources, every successful batch a
/// plan yields carries exactly the plan's schema — a filter keeps its
/// child's schema, a projection and a join stamp their stored schema, and a
/// scan restricts the source's schema to the projection.
pub proof fn lemma_schema_propagation<D: DataSource>(
    p: &Plan<D>,
    items: Seq<Result<BatchModel, Error>>,
)
    requires
        plan_yields(*p, items),
        plan_sources_conform(*p),
    ensures
        items_carry_schema(items, plan_schema(*p)),
    decreases *p,
{
    match p {
        Plan::Scan(s) => {
            lemma_scan_carries_schema(
                s.source.source_items(),
                s.source.source_schema(),
                crate::data_type::strings_model(s.projection@),
            );
        },
        Plan::Filter(f) => {
            let ci = choose|ci: Seq<Result<BatchModel, Error>>|
                #![trigger crate::physical_plan::filter_yields_with(*f, ci, items)]
                plan_yields(*f.input, ci) && crate::physical_plan::filter_yields_with(
                    *f,
                    ci,
                    items,
                );
            lemma_schema_propagation(&*f.input, ci);
            assert forall|i: int|
                0 <= i < items.len() implies ((#[trigger] items[i]) matches Ok(b) ==> b.schema
                == plan_schema(*p)) by {
                assert(items[i] == filter_item(f.predicate, ci[i]));
            }
        },
        Plan::Projection(pr) => {
            let ci = choose|ci: Seq<Result<BatchModel, Error>>|
                #![trigger crate::physical_plan::project_yields_with(*pr, ci, items)]
                plan_yields(*pr.input, ci) && crate::physical_plan::project_yields_with(
                    *pr,
                    ci,
                    items,
                );
            assert forall|i: int|
                0 <= i < items.len() implies ((#[trigger] items[i]) matches Ok(b) ==> b.schema
                == plan_schema(*p)) by {
                assert(items[i] == project_item(pr.schema@, pr.expr@, ci[i]));
            }
        },
        Plan::HashJoin(j) => {
            let (li, ri) = choose|li: Seq<Result<BatchModel, Error>>, ri: Seq<
                Result<BatchModel, Error>,
            >|
                #![trigger crate::physical_plan::join_yields_with(*j, li, ri, items)]
                plan_yields(*j.left, li) && plan_yields(*j.right, ri)
                    && crate::physical_plan::join_yields_with(*j, li, ri, items);
            lemma_join_items_carry(
                crate::physical_plan::join::ok_payloads(li),
                crate::physical_plan::join::build_table_spec(
                    crate::physical_plan::join::ok_payloads(li),
                    j.on_left,
                ).unwrap(),
                j.on_right,
                j.join_type,
                j.schema@,
                j.left_width as int,
                crate::physical_plan::join::init_matched(
                    crate::physical_plan::join::ok_payloads(li),
                ),
                ri,
                false,
            );
        },
    }
}

} // verus!
