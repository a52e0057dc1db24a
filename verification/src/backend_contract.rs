//! What a backend promises of its transactions.
use vstd::prelude::*;
use crate::error::{schema_mismatch, EngineError, ErrorModel};
use crate::plain;

verus! {

/// What a transaction of a backend is atomic over.
#[derive(Clone, Copy, Debug, PartialEq, Eq, Structural)]
pub enum BackendCapability {
    /// One tree: changes of several trees are not made together.
    SingleTreeAtomicity,
    /// All trees: the changes of a transaction are made together, or none is.
    MultiTreeAtomicity,
}

/// The promises of a backend.
#[derive(Clone, Copy, Debug, PartialEq, Eq, Structural)]
pub struct TransactionContract {
    pub atomicity: BackendCapability,
    /// Writes to several trees are made as one.
    pub multi_tree_write_atomicity: bool,
    /// Changes of the schema are made as one with changes of the data.
    pub schema_mutation_atomicity: bool,
}

/// The promises do not contradict each other.
pub open spec fn is_consistent(c: TransactionContract) -> bool {
    c.atomicity == BackendCapability::MultiTreeAtomicity ==> c.multi_tree_write_atomicity
}

impl TransactionContract {
    /// The contract of a backend whose transactions span all trees and the schema.
    pub fn coupled_multi_tree() -> (r: TransactionContract)
        ensures
            r == (TransactionContract {
                atomicity: BackendCapability::MultiTreeAtomicity,
                multi_tree_write_atomicity: true,
                schema_mutation_atomicity: true,
            }),
            is_consistent(r),
    {
        TransactionContract {
            atomicity: BackendCapability::MultiTreeAtomicity,
            multi_tree_write_atomicity: true,
            schema_mutation_atomicity: true,
        }
    }

    /// The contract of a backend whose transactions span one tree.
    pub fn single_tree() -> (r: TransactionContract)
        ensures
            r == (TransactionContract {
                atomicity: BackendCapability::SingleTreeAtomicity,
                multi_tree_write_atomicity: false,
                schema_mutation_atomicity: false,
            }),
            is_consistent(r),
    {
        TransactionContract {
            atomicity: BackendCapability::SingleTreeAtomicity,
            multi_tree_write_atomicity: false,
            schema_mutation_atomicity: false,
        }
    }

    /// Whether the promises are consistent.
    pub fn validate(&self) -> (r: Result<(), EngineError>)
        ensures
            plain::outcome(r) == if is_consistent(*self) {
                Ok::<(), ErrorModel>(())
            } else {
                Err(
                    ErrorModel::SchemaMismatch(
                        "MultiTreeAtomicity backend MUST have multi_tree_write_atomicity=true"@,
                    ),
                )
            },
    {
        if self.atomicity == BackendCapability::MultiTreeAtomicity
            && !self.multi_tree_write_atomicity {
            return Err(
                schema_mismatch(
                    "MultiTreeAtomicity backend MUST have multi_tree_write_atomicity=true",
                ),
            );
        }
        Ok(())
    }
}

} // verus!
