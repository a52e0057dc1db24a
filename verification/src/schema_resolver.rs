//! Looking up the schemas of tables.
use vstd::prelude::*;
use crate::schema::{TableModel, TableSchema};

verus! {

/// What a name is, mathematically.
pub type NameModel = Seq<char>;

/// A read-only view of the schemas of tables, as the translation of SQL needs it.
pub trait SchemaResolver {
    /// The schema of the table of that name.
    spec fn described(&self, name: NameModel) -> Option<TableModel>;

    fn describe_table(&self, name: &str) -> (r: Option<TableSchema>)
        ensures
            r.deep_view() == self.described(name@),
    ;
}

} // verus!
