use std::sync::Arc;

use columnar_engine::data_source::MemorySource;
use columnar_engine::data_type::{ColumnVector, Datatype, Field, RecordBatch, Schema, Value};
use columnar_engine::error::Error;
use columnar_engine::expression::{BinaryOp, Expr};
use columnar_engine::physical_plan::filter::FilterExec;
use columnar_engine::physical_plan::join::HashJoinExec;
use columnar_engine::physical_plan::project::ProjectionExec;
use columnar_engine::physical_plan::scan::ScanExec;
use columnar_engine::physical_plan::{JoinType, Plan};

fn field(name: &str, dt: Datatype) -> Field {
    Field::new(name.to_string(), dt)
}

fn schema_ab() -> Schema {
    Schema::new(vec![field("a", Datatype::Int64), field("b", Datatype::String)])
}

fn batch_ab(ids: Vec<i64>, names: Vec<&str>) -> RecordBatch {
    let cols = vec![
        ColumnVector::Int64(ids),
        ColumnVector::String(names.into_iter().map(|s| s.to_string()).collect()),
    ];
    RecordBatch::new(schema_ab(), cols).unwrap()
}

fn int_col(cv: &ColumnVector) -> Vec<i64> {
    match cv {
        ColumnVector::Int64(v) => v.clone(),
        _ => panic!("expected an Int64 column"),
    }
}

fn str_col(cv: &ColumnVector) -> Vec<String> {
    match cv {
        ColumnVector::String(v) => v.clone(),
        _ => panic!("expected a String column"),
    }
}

// Row filtering keeps exactly as many rows as the mask has bits set, and an
// all-true mask returns a value-equal batch.
#[test]
fn filter_row_count_matches_mask() {
    let b = batch_ab(vec![1, 2, 3, 4], vec!["w", "x", "y", "z"]);
    let mask = ColumnVector::Boolean(vec![true, false, true, false]);
    let out = b.filter(&mask).unwrap();
    assert_eq!(out.row_count(), 2);
    assert_eq!(int_col(out.field(0)), vec![1, 3]);
    assert_eq!(str_col(out.field(1)), vec!["w".to_string(), "y".to_string()]);
}

#[test]
fn filter_all_true_is_identity() {
    let b = batch_ab(vec![7, 8], vec!["p", "q"]);
    let mask = ColumnVector::Boolean(vec![true, true]);
    let out = b.filter(&mask).unwrap();
    assert_eq!(out.row_count(), 2);
    assert_eq!(int_col(out.field(0)), int_col(b.field(0)));
    assert_eq!(str_col(out.field(1)), str_col(b.field(1)));
}

#[test]
fn filter_wrong_mask_length_is_error() {
    let b = batch_ab(vec![1, 2], vec!["x", "y"]);
    let mask = ColumnVector::Boolean(vec![true]);
    assert_eq!(b.filter(&mask).unwrap_err(), Error::LengthMismatch);
}

#[test]
fn filter_non_boolean_mask_is_error() {
    let b = batch_ab(vec![1, 2], vec!["x", "y"]);
    let mask = ColumnVector::Int64(vec![1, 0]);
    assert_eq!(b.filter(&mask).unwrap_err(), Error::TypeMismatch);
}

#[test]
fn column_filter_preserves_float_bits() {
    let bits = vec![1.5f64.to_bits(), 2.5f64.to_bits(), 3.5f64.to_bits()];
    let cv = ColumnVector::Float64(bits.clone());
    let out = cv.filter(&[true, false, true]).unwrap();
    match out {
        ColumnVector::Float64(v) => assert_eq!(v, vec![bits[0], bits[2]]),
        _ => panic!("variant changed"),
    }
}

// Schema projection keeps the fields at the given positions, in the order
// given, allowing reordering and duplication.
#[test]
fn schema_project_positions() {
    let s = Schema::new(vec![
        field("a", Datatype::Int64),
        field("b", Datatype::String),
        field("c", Datatype::Boolean),
    ]);
    let p = s.project(&[2, 0, 0]).unwrap();
    assert_eq!(p.len(), 3);
    assert_eq!(p.field_at(0).name, "c");
    assert_eq!(p.field_at(1).name, "a");
    assert_eq!(p.field_at(2).name, "a");
}

#[test]
fn schema_project_out_of_bounds_is_error() {
    let s = schema_ab();
    assert_eq!(s.project(&[0, 5]).unwrap_err(), Error::UnknownColumn);
}

// Selection preserves the schema's own field order, not the requested one.
#[test]
fn select_preserves_schema_order() {
    let s = Schema::new(vec![
        field("a", Datatype::Int64),
        field("b", Datatype::String),
        field("c", Datatype::Boolean),
    ]);
    let sel = s.select(vec!["b".to_string(), "a".to_string()]);
    assert_eq!(sel.len(), 2);
    assert_eq!(sel.field_at(0).name, "a");
    assert_eq!(sel.field_at(1).name, "b");
}

// Batch construction fails, without panicking, on a column-count mismatch,
// on unequal column lengths, and on zero columns.
#[test]
fn batch_new_column_count_mismatch() {
    let r = RecordBatch::new(schema_ab(), vec![ColumnVector::Int64(vec![1])]);
    assert_eq!(r.unwrap_err(), Error::LengthMismatch);
}

#[test]
fn batch_new_unequal_lengths() {
    let cols = vec![
        ColumnVector::Int64(vec![1, 2]),
        ColumnVector::String(vec!["x".to_string()]),
    ];
    assert_eq!(RecordBatch::new(schema_ab(), cols).unwrap_err(), Error::LengthMismatch);
}

#[test]
fn batch_new_zero_columns() {
    let r = RecordBatch::new(Schema::new(vec![]), vec![]);
    assert_eq!(r.unwrap_err(), Error::LengthMismatch);
}

// Expression evaluation.
#[test]
fn literal_broadcasts_to_row_count() {
    let b = batch_ab(vec![1, 2, 3], vec!["x", "y", "z"]);
    let e = Expr::Literal(Value::Int64(9));
    let out = e.evaluate(&b).unwrap();
    assert_eq!(int_col(&out), vec![9, 9, 9]);
}

#[test]
fn unknown_column_reference_is_error() {
    let b = batch_ab(vec![1], vec!["x"]);
    let e = Expr::Column("missing".to_string());
    assert_eq!(e.evaluate(&b).unwrap_err(), Error::UnknownColumn);
}

#[test]
fn binary_add_is_elementwise() {
    let b = batch_ab(vec![1, 2, 3], vec!["x", "y", "z"]);
    let e = Expr::Binary {
        op: BinaryOp::Add,
        l: Box::new(Expr::Column("a".to_string())),
        r: Box::new(Expr::Literal(Value::Int64(10))),
    };
    assert_eq!(int_col(&e.evaluate(&b).unwrap()), vec![11, 12, 13]);
}

#[test]
fn binary_type_mismatch_is_error() {
    let b = batch_ab(vec![1, 2], vec!["x", "y"]);
    let e = Expr::Binary {
        op: BinaryOp::And,
        l: Box::new(Expr::Column("a".to_string())),
        r: Box::new(Expr::Column("a".to_string())),
    };
    assert_eq!(e.evaluate(&b).unwrap_err(), Error::TypeMismatch);
}

#[test]
fn standalone_aggregate_is_unsupported_context() {
    let b = batch_ab(vec![1], vec!["x"]);
    let e = Expr::Aggregate {
        func: columnar_engine::expression::AggregateFunction::Sum,
        input: Box::new(Expr::Column("a".to_string())),
    };
    assert_eq!(e.evaluate(&b).unwrap_err(), Error::UnsupportedContext);
}

fn scan_all(source: MemorySource) -> Plan<MemorySource> {
    Plan::Scan(ScanExec::new(source, vec![]))
}

fn drain(plan: &Plan<MemorySource>) -> Vec<Result<RecordBatch, Error>> {
    let mut st = plan.execute().unwrap();
    let mut out = Vec::new();
    while let Some(item) = st.next() {
        out.push(item);
    }
    out
}

// A filter applied over a stream masks successful batches and passes an
// upstream error item through bit for bit, never evaluating on it.
#[test]
fn filter_passes_error_items_through() {
    let src = MemorySource::new(
        schema_ab(),
        vec![Ok(batch_ab(vec![1, 2], vec!["x", "y"])), Err(Error::SourceError)],
    );
    let pred = Expr::Binary {
        op: BinaryOp::Gt,
        l: Box::new(Expr::Column("a".to_string())),
        r: Box::new(Expr::Literal(Value::Int64(1))),
    };
    let plan = Plan::Filter(FilterExec::new(Arc::new(scan_all(src)), pred));
    let items = drain(&plan);
    assert_eq!(items.len(), 2);
    let first = items[0].as_ref().unwrap();
    assert_eq!(int_col(first.field(0)), vec![2]);
    assert_eq!(items[1].as_ref().unwrap_err(), &Error::SourceError);
}

#[test]
fn projection_passes_error_items_through() {
    let src = MemorySource::new(
        schema_ab(),
        vec![Err(Error::SourceError), Ok(batch_ab(vec![3], vec!["z"]))],
    );
    let out_schema = Schema::new(vec![field("a", Datatype::Int64)]);
    let plan = Plan::Projection(ProjectionExec::new(
        Arc::new(scan_all(src)),
        out_schema,
        vec![Expr::Column("a".to_string())],
    ));
    let items = drain(&plan);
    assert_eq!(items.len(), 2);
    assert_eq!(items[0].as_ref().unwrap_err(), &Error::SourceError);
    let second = items[1].as_ref().unwrap();
    assert_eq!(second.num_columns(), 1);
    assert_eq!(int_col(second.field(0)), vec![3]);
}

// Re-running execute on one scan yields two independent streams, each
// starting from the data source's beginning.
#[test]
fn scan_execute_is_restartable() {
    let src = MemorySource::new(
        schema_ab(),
        vec![
            Ok(batch_ab(vec![1], vec!["x"])),
            Ok(batch_ab(vec![2], vec!["y"])),
        ],
    );
    let plan = scan_all(src);
    let items1 = drain(&plan);
    let items2 = drain(&plan);
    assert_eq!(items1.len(), 2);
    assert_eq!(items2.len(), 2);
    for (a, b) in items1.iter().zip(items2.iter()) {
        let (a, b) = (a.as_ref().unwrap(), b.as_ref().unwrap());
        assert_eq!(int_col(a.field(0)), int_col(b.field(0)));
        assert_eq!(str_col(a.field(1)), str_col(b.field(1)));
    }
}

#[test]
fn scan_projection_restricts_and_orders_columns() {
    let src = MemorySource::new(
        schema_ab(),
        vec![Ok(batch_ab(vec![4, 5], vec!["m", "n"]))],
    );
    let plan = Plan::Scan(ScanExec::new(src, vec!["b".to_string()]));
    let schema = plan.schema();
    assert_eq!(schema.len(), 1);
    assert_eq!(schema.field_at(0).name, "b");
    let items = drain(&plan);
    let b0 = items[0].as_ref().unwrap();
    assert_eq!(b0.num_columns(), 1);
    assert_eq!(str_col(b0.field(0)), vec!["m".to_string(), "n".to_string()]);
}

#[test]
fn scan_unknown_projection_name_fails() {
    let src = MemorySource::new(schema_ab(), vec![]);
    let plan = Plan::Scan(ScanExec::new(src, vec!["nope".to_string()]));
    match plan.execute() {
        Err(e) => assert_eq!(e, Error::UnknownColumn),
        Ok(_) => panic!("scan accepted an unknown column"),
    }
}

fn left_side(rows: Vec<(i64, &str)>) -> Plan<MemorySource> {
    let schema = Schema::new(vec![field("id", Datatype::Int64), field("tag", Datatype::String)]);
    let cols = vec![
        ColumnVector::Int64(rows.iter().map(|r| r.0).collect()),
        ColumnVector::String(rows.iter().map(|r| r.1.to_string()).collect()),
    ];
    let batch = RecordBatch::new(schema.clone(), cols).unwrap();
    scan_all(MemorySource::new(schema, vec![Ok(batch)]))
}

fn right_side(rows: Vec<(i64, &str)>) -> Plan<MemorySource> {
    let schema = Schema::new(vec![field("rid", Datatype::Int64), field("val", Datatype::String)]);
    let cols = vec![
        ColumnVector::Int64(rows.iter().map(|r| r.0).collect()),
        ColumnVector::String(rows.iter().map(|r| r.1.to_string()).collect()),
    ];
    let batch = RecordBatch::new(schema.clone(), cols).unwrap();
    scan_all(MemorySource::new(schema, vec![Ok(batch)]))
}

fn join_plan(
    left: Plan<MemorySource>,
    right: Plan<MemorySource>,
    join_type: JoinType,
) -> Plan<MemorySource> {
    let j = HashJoinExec::new(
        Arc::new(left),
        Arc::new(right),
        Expr::Column("id".to_string()),
        Expr::Column("rid".to_string()),
        join_type,
    )
    .unwrap();
    Plan::HashJoin(j)
}

// Inner join cardinality: two key-equal left rows against one right row
// give exactly two output rows.
#[test]
fn inner_join_duplicate_keys_cardinality() {
    let plan = join_plan(
        left_side(vec![(1, "x"), (1, "y")]),
        right_side(vec![(1, "p")]),
        JoinType::Inner,
    );
    let items = drain(&plan);
    let total: usize = items.iter().map(|it| it.as_ref().unwrap().row_count()).sum();
    assert_eq!(total, 2);
    let b = items[0].as_ref().unwrap();
    assert_eq!(int_col(b.field(0)), vec![1, 1]);
    assert_eq!(str_col(b.field(1)), vec!["x".to_string(), "y".to_string()]);
    assert_eq!(str_col(b.field(3)), vec!["p".to_string(), "p".to_string()]);
}

// A left-outer join emits each unmatched left row exactly once, with the
// right-side columns set to the missing marker.
#[test]
fn left_join_unmatched_rows_once_with_missing_marker() {
    let plan = join_plan(
        left_side(vec![(1, "x"), (2, "y")]),
        right_side(vec![(1, "p")]),
        JoinType::Left,
    );
    let items = drain(&plan);
    let mut ids = Vec::new();
    let mut tags = Vec::new();
    let mut vals = Vec::new();
    for it in &items {
        let b = it.as_ref().unwrap();
        ids.extend(int_col(b.field(0)));
        tags.extend(str_col(b.field(1)));
        vals.extend(str_col(b.field(3)));
    }
    assert_eq!(ids, vec![1, 2]);
    assert_eq!(tags, vec!["x".to_string(), "y".to_string()]);
    assert_eq!(vals, vec!["p".to_string(), "".to_string()]);
}

#[test]
fn right_join_unmatched_probe_rows_inline() {
    let plan = join_plan(
        left_side(vec![(1, "x")]),
        right_side(vec![(1, "p"), (9, "q")]),
        JoinType::Right,
    );
    let items = drain(&plan);
    let b = items[0].as_ref().unwrap();
    assert_eq!(int_col(b.field(0)), vec![1, 0]);
    assert_eq!(str_col(b.field(1)), vec!["x".to_string(), "".to_string()]);
    assert_eq!(int_col(b.field(2)), vec![1, 9]);
    assert_eq!(str_col(b.field(3)), vec!["p".to_string(), "q".to_string()]);
}

#[test]
fn join_duplicate_column_names_rejected() {
    let r = HashJoinExec::new(
        Arc::new(left_side(vec![(1, "x")])),
        Arc::new(left_side(vec![(1, "x")])),
        Expr::Column("id".to_string()),
        Expr::Column("id".to_string()),
        JoinType::Inner,
    );
    match r {
        Err(e) => assert_eq!(e, Error::DuplicateColumnName),
        Ok(_) => panic!("join accepted colliding names"),
    }
}

#[test]
fn join_build_side_error_aborts_execute() {
    let schema = Schema::new(vec![field("id", Datatype::Int64), field("tag", Datatype::String)]);
    let left = scan_all(MemorySource::new(schema, vec![Err(Error::SourceError)]));
    let plan = join_plan(left, right_side(vec![(1, "p")]), JoinType::Inner);
    match plan.execute() {
        Err(e) => assert_eq!(e, Error::SourceError),
        Ok(_) => panic!("join ignored a build-side error"),
    }
}

#[test]
fn children_report_the_tree_shape() {
    let plan = join_plan(
        left_side(vec![(1, "x")]),
        right_side(vec![(1, "p")]),
        JoinType::Inner,
    );
    assert_eq!(plan.children().len(), 2);
    let src = MemorySource::new(schema_ab(), vec![]);
    assert_eq!(scan_all(src).children().len(), 0);
}

#[test]
fn error_kinds_have_descriptions() {
    assert_eq!(Error::LengthMismatch.describe(), "length mismatch");
    assert_eq!(Error::UnknownColumn.describe(), "unknown column");
    assert_ne!(Error::TypeMismatch.describe(), Error::SourceError.describe());
}

#[test]
fn binary_subtract_wraps_on_overflow() {
    let b = batch_ab(vec![i64::MAX], vec!["x"]);
    let e = Expr::Binary {
        op: BinaryOp::Add,
        l: Box::new(Expr::Column("a".to_string())),
        r: Box::new(Expr::Literal(Value::Int64(1))),
    };
    assert_eq!(int_col(&e.evaluate(&b).unwrap()), vec![i64::MIN]);
    let s = Expr::Binary {
        op: BinaryOp::Subtract,
        l: Box::new(Expr::Literal(Value::Int64(i64::MIN))),
        r: Box::new(Expr::Literal(Value::Int64(1))),
    };
    assert_eq!(int_col(&s.evaluate(&b).unwrap()), vec![i64::MAX]);
}

#[test]
fn binary_comparison_and_boolean_ops() {
    let b = batch_ab(vec![1, 5, 3], vec!["x", "y", "z"]);
    let gt = Expr::Binary {
        op: BinaryOp::Gt,
        l: Box::new(Expr::Column("a".to_string())),
        r: Box::new(Expr::Literal(Value::Int64(2))),
    };
    let eq = Expr::Binary {
        op: BinaryOp::Eq,
        l: Box::new(Expr::Column("b".to_string())),
        r: Box::new(Expr::Literal(Value::String("y".to_string()))),
    };
    let both = Expr::Binary { op: BinaryOp::And, l: Box::new(gt), r: Box::new(eq) };
    match both.evaluate(&b).unwrap() {
        ColumnVector::Boolean(v) => assert_eq!(v, vec![false, true, false]),
        _ => panic!("expected a Boolean column"),
    }
}

#[test]
fn string_keys_join_by_exact_equality() {
    let ls = Schema::new(vec![field("k", Datatype::String), field("n", Datatype::Int64)]);
    let lb = RecordBatch::new(
        ls.clone(),
        vec![
            ColumnVector::String(vec!["ab".to_string(), "cd".to_string()]),
            ColumnVector::Int64(vec![1, 2]),
        ],
    )
    .unwrap();
    let rs = Schema::new(vec![field("rk", Datatype::String), field("m", Datatype::Int64)]);
    let rb = RecordBatch::new(
        rs.clone(),
        vec![
            ColumnVector::String(vec!["cd".to_string()]),
            ColumnVector::Int64(vec![9]),
        ],
    )
    .unwrap();
    let j = HashJoinExec::new(
        Arc::new(scan_all(MemorySource::new(ls, vec![Ok(lb)]))),
        Arc::new(scan_all(MemorySource::new(rs, vec![Ok(rb)]))),
        Expr::Column("k".to_string()),
        Expr::Column("rk".to_string()),
        JoinType::Inner,
    )
    .unwrap();
    let items = drain(&Plan::HashJoin(j));
    let b = items[0].as_ref().unwrap();
    assert_eq!(b.row_count(), 1);
    assert_eq!(str_col(b.field(0)), vec!["cd".to_string()]);
    assert_eq!(int_col(b.field(1)), vec![2]);
    assert_eq!(int_col(b.field(3)), vec![9]);
}

#[test]
fn select_with_no_names_is_empty_schema() {
    let s = schema_ab();
    let sel = s.select(vec![]);
    assert_eq!(sel.len(), 0);
}

#[test]
fn batch_project_subsets_columns() {
    let b = batch_ab(vec![1, 2], vec!["x", "y"]);
    let p = b.project(&[1]).unwrap();
    assert_eq!(p.num_columns(), 1);
    assert_eq!(str_col(p.field(0)), vec!["x".to_string(), "y".to_string()]);
    assert_eq!(p.schema().field_at(0).name, "b");
}

#[test]
fn join_build_width_mismatch_aborts_with_length_error() {
    // The source reports two fields but hands out one-column batches, so
    // the build drain meets a batch narrower than the build side's width.
    let wide = Schema::new(vec![field("id", Datatype::Int64), field("tag", Datatype::String)]);
    let narrow = Schema::new(vec![field("id", Datatype::Int64)]);
    let skinny = RecordBatch::new(narrow, vec![ColumnVector::Int64(vec![1])]).unwrap();
    let left = scan_all(MemorySource::new(wide, vec![Ok(skinny)]));
    let plan = join_plan(left, right_side(vec![(1, "p")]), JoinType::Inner);
    match plan.execute() {
        Err(e) => assert_eq!(e, Error::LengthMismatch),
        Ok(_) => panic!("join accepted a build batch of the wrong width"),
    }
}
