//! The operators that queries are carried out with.
use vstd::prelude::*;
use crate::error::EngineError;
use crate::value::EngineRow;

pub mod aggregate;
pub mod aggregate_laws;
pub mod join_algorithm;
pub mod nested_loop_join;
pub mod scan;
pub mod sorter;

verus! {

/// An operator that gives its rows one after the other.
pub trait Operator {
    /// The next row, an error in its place, or `None` after the last one.
    fn next(&mut self) -> (r: Option<Result<EngineRow, EngineError>>);
}

} // verus!
