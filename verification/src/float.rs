//! Arithmetic on doubles, as the caller supplies it.
//!
//! The engine holds a double by its bits and never computes with it: a
//! function that the caller passes in does. What the engine computes is stated
//! in terms of that function.
use vstd::prelude::*;

verus! {

/// An operation on doubles, each given by its bits.
#[derive(Clone, Copy, Debug, PartialEq, Eq, Structural)]
pub enum FloatOp {
    Sum(u64, u64),
    Difference(u64, u64),
    Product(u64, u64),
    Quotient(u64, u64),
    /// The double nearest to an integer.
    OfInteger(i64),
    /// The double nearest to a count.
    OfCount(u64),
    /// The integer part of a double, as a saturating conversion has it, in
    /// two's complement.
    ToInteger(u64),
}

/// The result that `float` gives for `op`.
pub open spec fn float_value<F: Fn(FloatOp) -> u64>(float: F, op: FloatOp) -> u64 {
    choose|r: u64| call_ensures(float, (op,), r)
}

/// `float` takes every operation, and gives one result for each.
pub open spec fn is_float_unit<F: Fn(FloatOp) -> u64>(float: F) -> bool {
    &&& forall|op: FloatOp| #[trigger] call_requires(float, (op,))
    &&& forall|op: FloatOp, r: u64| #[trigger]
        call_ensures(float, (op,), r) ==> r == float_value(float, op)
}

/// What `float` gives for `op`.
pub fn compute<F: Fn(FloatOp) -> u64>(float: &F, op: FloatOp) -> (r: u64)
    requires
        is_float_unit(*float),
    ensures
        r == float_value(*float, op),
{
    (*float)(op)
}

/// Whether the bits are those of a zero, of either sign.
pub open spec fn is_zero(bits: u64) -> bool {
    bits == 0 || bits == 0x8000_0000_0000_0000
}

} // verus!
