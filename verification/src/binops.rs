//! Binary-operation descriptors for a typed front-end pass: which
//! operator is applied and the value kinds of its two operands.
use vstd::prelude::*;

use crate::value::ValueType;

verus! {

/// The closed enumeration of binary operators.
#[derive(Copy, Clone, PartialEq, Eq, Structural, Debug)]
pub enum BinopType {
    B_PLUS,
    B_MINUS,
    B_MULT,
    B_DIV,
    B_MOD,
}

/// A binary operation together with the value kinds found on its left
/// and right side.
#[derive(Copy, Clone, PartialEq, Debug)]
pub struct Binop {
    pub valtypes: (ValueType, ValueType),
    pub optype: BinopType,
}

impl Binop {
    /// A descriptor for operator `v` applied to operands of the given
    /// kinds.
    pub fn new(v: BinopType, vtypes: (ValueType, ValueType)) -> (b: Binop)
        ensures
            b.optype == v,
            b.valtypes == vtypes,
    {
        Binop { valtypes: vtypes, optype: v }
    }
}

} // verus!
