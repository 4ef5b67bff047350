//! The data source capability: the one interface concrete storage backends
//! implement, plus an in-memory implementation.
//!
//! A source reports a stable schema and, for a requested column projection,
//! hands over a fresh stream of batches already restricted to — and ordered
//! according to — the schema-preserving order of the selected columns.

use vstd::prelude::*;

use crate::data_type::{
    batch_project_spec, clone_item, filtered, items_model, names_contain, strings_model,
    BatchModel, FieldModel, Schema, StreamItem,
};
use crate::error::Error;
use crate::stream::BatchStream;

verus! {

/// Whether a schema has a field of the given name.
pub open spec fn schema_has_name(schema: Seq<FieldModel>, name: Seq<char>) -> bool {
    exists|j: int| 0 <= j < schema.len() && schema[j].name == name
}

/// Whether every requested name occurs in the schema.
pub open spec fn names_subset(names: Seq<Seq<char>>, schema: Seq<FieldModel>) -> bool {
    forall|i: int| 0 <= i < names.len() ==> schema_has_name(schema, #[trigger] names[i])
}

/// The mask selecting the schema positions whose field name is requested.
pub open spec fn selection_mask(schema: Seq<FieldModel>, names: Seq<Seq<char>>) -> Seq<bool> {
    Seq::new(schema.len(), |i: int| names_contain(names, schema[i].name))
}

/// The schema positions of the selected fields, in schema order.
pub open spec fn selected_indices(schema: Seq<FieldModel>, names: Seq<Seq<char>>) -> Seq<usize> {
    filtered(Seq::new(schema.len(), |i: int| i as usize), selection_mask(schema, names))
}

/// What a scan does to one source item for a projection: with no names
/// requested the item passes unchanged (all columns); otherwise an error
/// passes through and a batch is projected onto the selected positions.
pub open spec fn scan_item(
    schema: Seq<FieldModel>,
    names: Seq<Seq<char>>,
    it: Result<BatchModel, Error>,
) -> Result<BatchModel, Error> {
    if names.len() == 0 {
        it
    } else {
        match it {
            Err(e) => Err(e),
            Ok(b) => batch_project_spec(b, selected_indices(schema, names)),
        }
    }
}

/// A scan applied to every source item.
pub open spec fn scan_items(
    items: Seq<Result<BatchModel, Error>>,
    schema: Seq<FieldModel>,
    names: Seq<Seq<char>>,
) -> Seq<Result<BatchModel, Error>> {
    items.map_values(|it: Result<BatchModel, Error>| scan_item(schema, names, it))
}

/// The schema a scan produces for a projection: the source's own schema
/// when no names are requested (all columns), else the selected fields in
/// the source's field order.
pub open spec fn scan_schema(schema: Seq<FieldModel>, names: Seq<Seq<char>>) -> Seq<FieldModel> {
    if names.len() == 0 {
        schema
    } else {
        crate::data_type::schema_selected(schema, names)
    }
}

/// The capability a concrete storage backend implements: a stable schema,
/// and a fresh batch stream per scan, restricted to the requested columns.
pub trait DataSource: Sized {
    /// The model of the schema this source reports.
    spec fn source_schema(&self) -> Seq<FieldModel>;

    /// The model of the item sequence one full scan of this source yields,
    /// before any projection.
    spec fn source_items(&self) -> Seq<Result<BatchModel, Error>>;

    /// The source's schema; stable across calls on one instance.
    fn schema(&self) -> (s: Schema)
        ensures
            s@ == self.source_schema(),
    ;

    /// A fresh stream over the source's items, restricted to the requested
    /// column names (an empty request means all columns).  A name not in the
    /// schema is an `UnknownColumn` error.
    fn scan(&self, projection: &Vec<String>) -> (r: Result<BatchStream, Error>)
        ensures
            !names_subset(strings_model(projection@), self.source_schema()) ==> r == Err::<
                BatchStream,
                Error,
            >(Error::UnknownColumn),
            r matches Ok(st) ==> st.wf() && st.remaining() == scan_items(
                self.source_items(),
                self.source_schema(),
                strings_model(projection@),
            ),
    ;
}

/// An in-memory data source: a schema and a fixed item sequence.  Each scan
/// starts over from the first item.
pub struct MemorySource {
    schema: Schema,
    items: Vec<StreamItem>,
}

impl MemorySource {
    /// A source over the given schema and items.
    pub fn new(schema: Schema, items: Vec<StreamItem>) -> (r: MemorySource)
        ensures
            r.source_schema() == schema@,
            r.source_items() == items_model(items@),
    {
        MemorySource { schema, items }
    }
}

/// Decides whether every requested name occurs in the schema.
fn check_subset(schema: &Schema, projection: &Vec<String>) -> (r: bool)
    ensures
        r == names_subset(strings_model(projection@), schema@),
{
    let n = projection.len();
    for i in 0..n
        invariant
            n == projection@.len(),
            forall|j: int|
                0 <= j < i ==> schema_has_name(schema@, #[trigger] strings_model(projection@)[j]),
    {
        let mut found = false;
        let m = schema.len();
        for k in 0..m
            invariant
                m == schema@.len(),
                i < projection@.len(),
                found ==> schema_has_name(schema@, strings_model(projection@)[i as int]),
                !found ==> forall|j: int|
                    0 <= j < k ==> (#[trigger] schema@[j].name) != strings_model(
                        projection@,
                    )[i as int],
        {
            proof {
                assert(strings_model(projection@)[i as int] == projection@[i as int]@);
            }
            if !found && schema.field_at(k).name == projection[i] {
                proof {
                    assert(schema@[k as int].name == strings_model(projection@)[i as int]);
                }
                found = true;
            }
        }
        if !found {
            proof {
                assert(!schema_has_name(schema@, strings_model(projection@)[i as int]));
            }
            return false;
        }
    }
    true
}

/// The schema positions of the fields whose name is requested, in schema
/// order.
fn selection_positions(schema: &Schema, projection: &Vec<String>) -> (r: Vec<usize>)
    ensures
        r@ == selected_indices(schema@, strings_model(projection@)),
{
    let ghost names = strings_model(projection@);
    let ghost positions = Seq::new(schema@.len(), |i: int| i as usize);
    let mut out: Vec<usize> = Vec::new();
    let n = schema.len();
    for i in 0..n
        invariant
            n == schema@.len(),
            names == strings_model(projection@),
            positions == Seq::new(schema@.len(), |i: int| i as usize),
            out@ == filtered(positions.take(i as int), selection_mask(schema@, names).take(i as int)),
    {
        let keep = contains_name(projection, &schema.field_at(i).name);
        proof {
            assert(selection_mask(schema@, names)[i as int] == names_contain(
                names,
                schema@[i as int].name,
            ));
            assert(positions.take(i + 1).drop_last() =~= positions.take(i as int));
            assert(selection_mask(schema@, names).take(i + 1).drop_last() =~= selection_mask(
                schema@,
                names,
            ).take(i as int));
            assert(positions.take(i + 1).last() == positions[i as int]);
            assert(selection_mask(schema@, names).take(i + 1).last() == selection_mask(
                schema@,
                names,
            )[i as int]);
        }
        if keep {
            out.push(i);
        }
    }
    proof {
        assert(positions.take(n as int) =~= positions);
        assert(selection_mask(schema@, names).take(n as int) =~= selection_mask(schema@, names));
    }
    out
}

/// Decides whether one of the given names equals `name`.
fn contains_name(names: &Vec<String>, name: &String) -> (r: bool)
    ensures
        r == names_contain(strings_model(names@), name@),
{
    let n = names.len();
    for i in 0..n
        invariant
            n == names@.len(),
            forall|j: int| 0 <= j < i ==> #[trigger] strings_model(names@)[j] != name@,
    {
        if names[i] == *name {
            proof {
                assert(strings_model(names@)[i as int] == name@);
            }
            return true;
        }
        proof {
            assert(strings_model(names@)[i as int] == names@[i as int]@);
        }
    }
    false
}

impl DataSource for MemorySource {
    closed spec fn source_schema(&self) -> Seq<FieldModel> {
        self.schema@
    }

    closed spec fn source_items(&self) -> Seq<Result<BatchModel, Error>> {
        items_model(self.items@)
    }

    fn schema(&self) -> (s: Schema) {
        self.schema.clone()
    }

    fn scan(&self, projection: &Vec<String>) -> (r: Result<BatchStream, Error>)
        ensures
            names_subset(strings_model(projection@), self.source_schema()) ==> r is Ok,
    {
        let ghost names = strings_model(projection@);
        if !check_subset(&self.schema, projection) {
            return Err(Error::UnknownColumn);
        }
        let mut out: Vec<StreamItem> = Vec::new();
        let n = self.items.len();
        if projection.len() == 0 {
            for i in 0..n
                invariant
                    n == self.items@.len(),
                    out@.len() == i,
                    forall|j: int|
                        0 <= j < i ==> crate::data_type::item_model(#[trigger] out@[j])
                            == crate::data_type::item_model(self.items@[j]),
            {
                out.push(clone_item(&self.items[i]));
            }
            proof {
                assert(items_model(out@) =~= scan_items(
                    items_model(self.items@),
                    self.schema@,
                    names,
                ));
            }
            return Ok(BatchStream::Scan { items: out, pos: 0 });
        }
        let idx = selection_positions(&self.schema, projection);
        for i in 0..n
            invariant
                n == self.items@.len(),
                names == strings_model(projection@),
                names.len() > 0,
                idx@ == selected_indices(self.schema@, names),
                out@.len() == i,
                forall|j: int|
                    0 <= j < i ==> crate::data_type::item_model(#[trigger] out@[j]) == scan_item(
                        self.schema@,
                        names,
                        crate::data_type::item_model(self.items@[j]),
                    ),
        {
            let item: StreamItem = match &self.items[i] {
                Err(e) => Err(*e),
                Ok(b) => {
                    match b.project(idx.as_slice()) {
                        Ok(pb) => Ok(pb),
                        Err(e) => Err(e),
                    }
                },
            };
            out.push(item);
        }
        proof {
            assert(items_model(out@) =~= scan_items(items_model(self.items@), self.schema@, names));
        }
        Ok(BatchStream::Scan { items: out, pos: 0 })
    }
}

} // verus!
