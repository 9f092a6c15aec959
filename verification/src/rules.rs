//! The Pratt dispatch table types: per-token parse rules with prefix and
//! infix handlers and a binding precedence, as a fixed, statically
//! constructed mapping.
use vstd::prelude::*;

verus! {

/// Identifies one of the compiler's parse handlers. The parser core
/// dispatches on this closed enumeration instead of holding function
/// pointers, which the verifier cannot reason about.
#[derive(Copy, Clone, PartialEq, Eq, Structural, Debug)]
pub enum ParseFn {
    P_GROUPING,
    P_UNARY,
    P_BINARY,
    P_INTEGER,
    P_DOUBLE,
    P_LITERAL,
}

/// Binding precedence levels, totally ordered from lowest (`PREC_NONE`)
/// to highest (`PREC_PRIMARY`).
#[derive(Copy, Clone, PartialEq, Eq, Structural, Debug)]
pub enum Precedence {
    PREC_NONE,
    PREC_ASSIGNMENT,
    PREC_OR,
    PREC_AND,
    PREC_EQUALITY,
    PREC_COMPARISON,
    PREC_TERM,
    PREC_INCR,
    PREC_FACTOR,
    PREC_UNARY,
    PREC_CALL,
    PREC_ARRAY,
    PREC_INDEX,
    PREC_PRIMARY,
}

/// The numeric level of a precedence, 0 for `PREC_NONE` up to 13 for
/// `PREC_PRIMARY`.
pub open spec fn prec_level(p: Precedence) -> int {
    match p {
        Precedence::PREC_NONE => 0,
        Precedence::PREC_ASSIGNMENT => 1,
        Precedence::PREC_OR => 2,
        Precedence::PREC_AND => 3,
        Precedence::PREC_EQUALITY => 4,
        Precedence::PREC_COMPARISON => 5,
        Precedence::PREC_TERM => 6,
        Precedence::PREC_INCR => 7,
        Precedence::PREC_FACTOR => 8,
        Precedence::PREC_UNARY => 9,
        Precedence::PREC_CALL => 10,
        Precedence::PREC_ARRAY => 11,
        Precedence::PREC_INDEX => 12,
        Precedence::PREC_PRIMARY => 13,
    }
}

/// The next-higher precedence, used by binary handlers to parse their
/// right operand one level tighter, which yields left-associativity.
/// The highest level is its own successor.
pub open spec fn next_prec_spec(p: Precedence) -> Precedence {
    match p {
        Precedence::PREC_NONE => Precedence::PREC_ASSIGNMENT,
        Precedence::PREC_ASSIGNMENT => Precedence::PREC_OR,
        Precedence::PREC_OR => Precedence::PREC_AND,
        Precedence::PREC_AND => Precedence::PREC_EQUALITY,
        Precedence::PREC_EQUALITY => Precedence::PREC_COMPARISON,
        Precedence::PREC_COMPARISON => Precedence::PREC_TERM,
        Precedence::PREC_TERM => Precedence::PREC_INCR,
        Precedence::PREC_INCR => Precedence::PREC_FACTOR,
        Precedence::PREC_FACTOR => Precedence::PREC_UNARY,
        Precedence::PREC_UNARY => Precedence::PREC_CALL,
        Precedence::PREC_CALL => Precedence::PREC_ARRAY,
        Precedence::PREC_ARRAY => Precedence::PREC_INDEX,
        Precedence::PREC_INDEX => Precedence::PREC_PRIMARY,
        Precedence::PREC_PRIMARY => Precedence::PREC_PRIMARY,
    }
}

impl Precedence {
    /// The numeric level of this precedence.
    pub fn level(&self) -> (n: u8)
        ensures
            n as int == prec_level(*self),
    {
        match self {
            Precedence::PREC_NONE => 0,
            Precedence::PREC_ASSIGNMENT => 1,
            Precedence::PREC_OR => 2,
            Precedence::PREC_AND => 3,
            Precedence::PREC_EQUALITY => 4,
            Precedence::PREC_COMPARISON => 5,
            Precedence::PREC_TERM => 6,
            Precedence::PREC_INCR => 7,
            Precedence::PREC_FACTOR => 8,
            Precedence::PREC_UNARY => 9,
            Precedence::PREC_CALL => 10,
            Precedence::PREC_ARRAY => 11,
            Precedence::PREC_INDEX => 12,
            Precedence::PREC_PRIMARY => 13,
        }
    }

    /// The next-higher precedence level.
    pub fn next(&self) -> (r: Precedence)
        ensures
            r == next_prec_spec(*self),
    {
        match self {
            Precedence::PREC_NONE => Precedence::PREC_ASSIGNMENT,
            Precedence::PREC_ASSIGNMENT => Precedence::PREC_OR,
            Precedence::PREC_OR => Precedence::PREC_AND,
            Precedence::PREC_AND => Precedence::PREC_EQUALITY,
            Precedence::PREC_EQUALITY => Precedence::PREC_COMPARISON,
            Precedence::PREC_COMPARISON => Precedence::PREC_TERM,
            Precedence::PREC_TERM => Precedence::PREC_INCR,
            Precedence::PREC_INCR => Precedence::PREC_FACTOR,
            Precedence::PREC_FACTOR => Precedence::PREC_UNARY,
            Precedence::PREC_UNARY => Precedence::PREC_CALL,
            Precedence::PREC_CALL => Precedence::PREC_ARRAY,
            Precedence::PREC_ARRAY => Precedence::PREC_INDEX,
            Precedence::PREC_INDEX => Precedence::PREC_PRIMARY,
            Precedence::PREC_PRIMARY => Precedence::PREC_PRIMARY,
        }
    }
}

/// One row of the Pratt dispatch table: the optional prefix and infix
/// handlers of a token kind and its infix binding precedence.
#[derive(Copy, Clone, Debug)]
pub struct ParseRule {
    pub prefix: Option<ParseFn>,
    pub infix: Option<ParseFn>,
    pub prec: Precedence,
}

} // verus!
