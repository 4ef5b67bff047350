//! Lazy record batch streams: forward-only, single-consumption sequences of
//! batch-or-error items, pulled one item at a time.
//!
//! A stream value mirrors the operator that produced it; [`BatchStream::next`]
//! performs exactly the work for one output item, pulling from the child
//! stream as needed.  The spec function [`BatchStream::remaining`] gives the
//! exact sequence of items a stream will yield, and `next` is proved to
//! deliver precisely that sequence.

use vstd::prelude::*;

use crate::data_type::{
    batch_filter_spec, batch_new_spec, item_model, items_model, BatchModel, ColumnVector,
    FieldModel, RecordBatch, Schema, StreamItem, clone_item,
};
use crate::error::Error;
use crate::expression::{eval_all, eval_spec, Expr, lemma_eval_all_prefix_err};
use crate::physical_plan::join::JoinStream;
use crate::physical_plan::JoinType;

verus! {

/// What a filter does to one stream item: an error passes through untouched;
/// a batch is masked by the evaluated predicate, any evaluation or filter
/// error becoming a failed item.
pub open spec fn filter_item(predicate: Expr, it: Result<BatchModel, Error>) -> Result<
    BatchModel,
    Error,
> {
    match it {
        Err(e) => Err(e),
        Ok(b) => match eval_spec(predicate, b) {
            Err(e) => Err(e),
            Ok(mask) => batch_filter_spec(b, mask),
        },
    }
}

/// A filter applied to every item of a sequence.
pub open spec fn filter_items(predicate: Expr, items: Seq<Result<BatchModel, Error>>) -> Seq<
    Result<BatchModel, Error>,
> {
    items.map_values(|it: Result<BatchModel, Error>| filter_item(predicate, it))
}

/// What a projection does to one stream item: an error passes through
/// untouched; for a batch, every expression is evaluated in order (first
/// error wins) and a new batch is built from the stored schema.
pub open spec fn project_item(
    schema: Seq<FieldModel>,
    exprs: Seq<Expr>,
    it: Result<BatchModel, Error>,
) -> Result<BatchModel, Error> {
    match it {
        Err(e) => Err(e),
        Ok(b) => match eval_all(exprs, b) {
            Err(e) => Err(e),
            Ok(cols) => batch_new_spec(schema, cols),
        },
    }
}

/// A projection applied to every item of a sequence.
pub open spec fn project_items(
    schema: Seq<FieldModel>,
    exprs: Seq<Expr>,
    items: Seq<Result<BatchModel, Error>>,
) -> Seq<Result<BatchModel, Error>> {
    items.map_values(|it: Result<BatchModel, Error>| project_item(schema, exprs, it))
}

/// A lazy stream of record batches, shaped after the operator that produced
/// it.  Single-pass: items are surrendered in order and never replayed.
pub enum BatchStream {
    /// Items handed over by a data source, consumed left to right.
    Scan { items: Vec<StreamItem>, pos: usize },
    /// A child stream filtered by a predicate, one item per child item.
    Filter { child: Box<BatchStream>, predicate: Expr },
    /// A child stream transformed expression-wise onto a fixed schema.
    Projection { child: Box<BatchStream>, schema: Schema, exprs: Vec<Expr> },
    /// A running hash join: a materialized build side probed by a streamed
    /// right side.
    Join(JoinStream),
}

impl BatchStream {
    /// Structural soundness of the stream state.
    pub open spec fn wf(self) -> bool
        decreases self,
    {
        match self {
            BatchStream::Scan { items, pos } => pos <= items.len(),
            BatchStream::Filter { child, predicate } => child.wf(),
            BatchStream::Projection { child, schema, exprs } => child.wf(),
            BatchStream::Join(js) => js.join_wf(),
        }
    }

    /// The exact sequence of items this stream will still yield.
    pub open spec fn remaining(self) -> Seq<Result<BatchModel, Error>>
        decreases self,
    {
        match self {
            BatchStream::Scan { items, pos } => items_model(items@).skip(pos as int),
            BatchStream::Filter { child, predicate } => filter_items(
                predicate,
                child.remaining(),
            ),
            BatchStream::Projection { child, schema, exprs } => project_items(
                schema@,
                exprs@,
                child.remaining(),
            ),
            BatchStream::Join(js) => js.join_remaining(),
        }
    }

    /// Pulls the next item.  Returns `None` exactly when the stream is
    /// exhausted; otherwise yields the head of `remaining` and leaves the
    /// rest.
    pub fn next(&mut self) -> (r: Option<StreamItem>)
        requires
            old(self).wf(),
        ensures
            final(self).wf(),
            r is None ==> old(self).remaining() == Seq::<Result<BatchModel, Error>>::empty()
                && final(self).remaining() == Seq::<Result<BatchModel, Error>>::empty(),
            r matches Some(it) ==> old(self).remaining().len() > 0 && item_model(it) == old(
                self,
            ).remaining()[0] && final(self).remaining() == old(self).remaining().drop_first(),
        decreases *old(self),
    {
        match self {
            BatchStream::Scan { items, pos } => {
                if *pos == items.len() {
                    proof {
                        assert(items_model(items@).skip(*pos as int) =~= Seq::<
                            Result<BatchModel, Error>,
                        >::empty());
                    }
                    None
                } else {
                    let it = clone_item(&items[*pos]);
                    *pos = *pos + 1;
                    proof {
                        assert(items_model(items@)[*pos - 1] == item_model(items@[*pos - 1]));
                        assert(items_model(items@).skip(*pos as int) =~= items_model(
                            items@,
                        ).skip(*pos - 1).drop_first());
                    }
                    Some(it)
                }
            },
            BatchStream::Filter { child, predicate } => {
                let ghost crem = child.remaining();
                let pulled = child.next();
                match pulled {
                    None => {
                        proof {
                            assert(filter_items(*predicate, crem) =~= Seq::<
                                Result<BatchModel, Error>,
                            >::empty());
                        }
                        None
                    },
                    Some(it) => {
                        proof {
                            assert(filter_items(*predicate, crem)[0] == filter_item(
                                *predicate,
                                crem[0],
                            ));
                            assert(filter_items(*predicate, crem.drop_first()) =~= filter_items(
                                *predicate,
                                crem,
                            ).drop_first());
                        }
                        match it {
                            Err(e) => Some(Err(e)),
                            Ok(batch) => {
                                let mask = match predicate.evaluate(&batch) {
                                    Ok(m) => m,
                                    Err(e) => {
                                        return Some(Err(e));
                                    },
                                };
                                match batch.filter(&mask) {
                                    Ok(fb) => Some(Ok(fb)),
                                    Err(e) => Some(Err(e)),
                                }
                            },
                        }
                    },
                }
            },
            BatchStream::Projection { child, schema, exprs } => {
                let ghost crem = child.remaining();
                let pulled = child.next();
                match pulled {
                    None => {
                        proof {
                            assert(project_items(schema@, exprs@, crem) =~= Seq::<
                                Result<BatchModel, Error>,
                            >::empty());
                        }
                        None
                    },
                    Some(it) => {
                        proof {
                            assert(project_items(schema@, exprs@, crem)[0] == project_item(
                                schema@,
                                exprs@,
                                crem[0],
                            ));
                            assert(project_items(schema@, exprs@, crem.drop_first())
                                =~= project_items(schema@, exprs@, crem).drop_first());
                        }
                        match it {
                            Err(e) => Some(Err(e)),
                            Ok(batch) => Some(Self::project_batch(schema, exprs, &batch)),
                        }
                    },
                }
            },
            BatchStream::Join(js) => {
                let ghost ojs = *js;
                proof {
                    assert(*old(self) == BatchStream::Join(ojs));
                    assert(old(self).remaining() == ojs.join_remaining());
                    assert(old(self).wf() == ojs.join_wf());
                }
                if js.done {
                    proof {
                        assert(ojs.join_remaining() =~= Seq::<Result<BatchModel, Error>>::empty());
                    }
                    return None;
                }
                let ghost prem = js.probe.remaining();
                proof {
                    assert(ojs.join_wf());
                    assert(js.probe == ojs.probe);
                    assert(ojs.probe.wf());
                }
                let pulled = js.probe.next();
                proof {
                    assert(js.join_wf());
                }
                match pulled {
                    None => {
                        js.done = true;
                        proof {
                            assert(js.join_wf());
                        }
                        if js.join_type == JoinType::Left {
                            let item = js.flush_item();
                            proof {
                                assert(old(self).remaining().drop_first() =~= Seq::<
                                    Result<BatchModel, Error>,
                                >::empty());
                            }
                            Some(item)
                        } else {
                            None
                        }
                    },
                    Some(it) => {
                        proof {
                            assert(prem.len() > 0);
                        }
                        match it {
                            Err(e) => {
                                proof {
                                    assert(prem[0] == Err::<BatchModel, Error>(e));
                                    assert((seq![Err::<BatchModel, Error>(e)]
                                        + js.join_remaining()).drop_first()
                                        =~= js.join_remaining());
                                }
                                Some(Err(e))
                            },
                            Ok(pb) => {
                                let ghost head = pb@;
                                let item = js.probe_batch(&pb);
                                proof {
                                    assert(js.join_wf());
                                }
                                proof {
                                    assert(prem[0] == Ok::<BatchModel, Error>(head));
                                    assert((seq![crate::physical_plan::join::probe_step_spec(
                                        crate::physical_plan::join::batches_model(ojs.build@),
                                        crate::physical_plan::join::table_model(
                                            ojs.table.entries@,
                                        ),
                                        ojs.on_right,
                                        ojs.join_type,
                                        ojs.schema@,
                                        ojs.left_width as int,
                                        crate::physical_plan::join::matched_model(ojs.matched@),
                                        head,
                                    ).0] + js.join_remaining()).drop_first()
                                        =~= js.join_remaining());
                                }
                                Some(item)
                            },
                        }
                    },
                }
            },
        }
    }

    /// Evaluates every expression against one batch, in order, and builds
    /// the projected batch; the first error met is the item.
    fn project_batch(schema: &Schema, exprs: &Vec<Expr>, batch: &RecordBatch) -> (r: StreamItem)
        ensures
            item_model(r) == project_item(schema@, exprs@, Ok(batch@)),
    {
        let n = exprs.len();
        let mut cols: Vec<ColumnVector> = Vec::new();
        for k in 0..n
            invariant
                n == exprs@.len(),
                cols@.len() == k,
                eval_all(exprs@.take(k as int), batch@) matches Ok(cs) && cs
                    == crate::data_type::cols_model(cols@),
        {
            proof {
                assert(exprs@.take(k + 1).drop_last() =~= exprs@.take(k as int));
                assert(exprs@.take(k + 1).last() == exprs@[k as int]);
            }
            match exprs[k].evaluate(batch) {
                Ok(c) => {
                    cols.push(c);
                    proof {
                        assert(crate::data_type::cols_model(cols@) =~= eval_all(
                            exprs@.take(k as int),
                            batch@,
                        ).unwrap().push(c@));
                    }
                },
                Err(e) => {
                    proof {
                        lemma_eval_all_prefix_err(exprs@, batch@, k + 1);
                    }
                    return Err(e);
                },
            }
        }
        proof {
            assert(exprs@.take(n as int) =~= exprs@);
        }
        match RecordBatch::new(schema.clone(), cols) {
            Ok(b) => Ok(b),
            Err(e) => Err(e),
        }
    }
}

} // verus!
