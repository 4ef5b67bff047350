//! The leaf operator: a scan over a data source with a column projection.

use vstd::prelude::*;

use crate::data_source::{scan_schema, DataSource};
use crate::data_type::{strings_model, Schema};

verus! {

/// Holds a data source and a column-name projection list; executing it
/// delegates to the source's own scan, forwarding the stream unchanged.
/// An empty projection means all columns.
pub struct ScanExec<D: DataSource> {
    pub source: D,
    pub projection: Vec<String>,
}

impl<D: DataSource> ScanExec<D> {
    /// A scan of `source` restricted to the named columns.
    pub fn new(source: D, projection: Vec<String>) -> (r: ScanExec<D>)
        ensures
            r.source == source,
            r.projection == projection,
    {
        ScanExec { source, projection }
    }

    /// The schema of the scanned batches: the source's schema restricted to
    /// the projection, in the source's own field order.
    pub fn schema(&self) -> (r: Schema)
        ensures
            r@ == scan_schema(self.source.source_schema(), strings_model(self.projection@)),
    {
        if self.projection.len() == 0 {
            self.source.schema()
        } else {
            let mut names: Vec<String> = Vec::new();
            let n = self.projection.len();
            for i in 0..n
                invariant
                    n == self.projection@.len(),
                    names@.len() == i,
                    forall|j: int| 0 <= j < i ==> #[trigger] names@[j]@ == self.projection@[j]@,
            {
                names.push(self.projection[i].clone());
            }
            proof {
                assert(strings_model(names@) =~= strings_model(self.projection@));
            }
            self.source.schema().select(names)
        }
    }
}

} // verus!
