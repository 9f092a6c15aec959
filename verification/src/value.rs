//! Runtime values: a closed tagged union with one variant per supported
//! kind. Primitive variants carry their payload inline; the string/object
//! variant carries an index into a VM-owned object table, never raw bytes.
use vstd::prelude::*;

use crate::text::{chars_to_string, dec_digits, i64_to_string, int_dec, pad_left, pad_left_chars,
    u64_digits, u64_to_string};

verus! {

/// The kind of a runtime value.
#[derive(Copy, Clone, PartialEq, Eq, Structural, Debug)]
pub enum ValueType {
    VAL_BOOL,
    VAL_NIL,
    VAL_INTEGER,
    VAL_DOUBLE,
    VAL_STRING,
}

/// A runtime datum. `DOUBLE` carries a decimal literal as its whole part,
/// its fraction digits read as an integer, and the number of fraction
/// digits (so `12.034` is `DOUBLE(12, 34, 3)`). `STRING` carries an index
/// into a VM-owned object table. Equality is structural: tag and payload
/// must both match.
#[derive(Copy, Clone, PartialEq, Eq, Structural, Debug)]
pub enum Value {
    BOOL(bool),
    NIL,
    INTEGER(i64),
    DOUBLE(i64, u64, u32),
    STRING(usize),
}

/// The kind of `v`.
pub open spec fn value_type_of(v: Value) -> ValueType {
    match v {
        Value::BOOL(_) => ValueType::VAL_BOOL,
        Value::NIL => ValueType::VAL_NIL,
        Value::INTEGER(_) => ValueType::VAL_INTEGER,
        Value::DOUBLE(_, _, _) => ValueType::VAL_DOUBLE,
        Value::STRING(_) => ValueType::VAL_STRING,
    }
}

/// The falsiness rule: nil and boolean false are false, every other
/// value is true.
pub open spec fn is_falsy(v: Value) -> bool {
    v == Value::NIL || v == Value::BOOL(false)
}

/// The printed form of `v`: integers and doubles in decimal, `nil`,
/// `True`/`False` for booleans, and `<obj N>` for an object reference.
pub open spec fn value_text(v: Value) -> Seq<char> {
    match v {
        Value::BOOL(b) => if b {
            "True"@
        } else {
            "False"@
        },
        Value::NIL => "nil"@,
        Value::INTEGER(i) => int_dec(i as int),
        Value::DOUBLE(w, f, d) => int_dec(w as int) + "."@ + pad_left(
            dec_digits(f as int),
            d as int,
            '0',
        ),
        Value::STRING(i) => "<obj "@ + dec_digits(i as int) + ">"@,
    }
}

impl Value {
    /// The tag identifying which kind of value this is.
    pub fn get_type(&self) -> (t: ValueType)
        ensures
            t == value_type_of(*self),
    {
        match self {
            Value::BOOL(_) => ValueType::VAL_BOOL,
            Value::NIL => ValueType::VAL_NIL,
            Value::INTEGER(_) => ValueType::VAL_INTEGER,
            Value::DOUBLE(_, _, _) => ValueType::VAL_DOUBLE,
            Value::STRING(_) => ValueType::VAL_STRING,
        }
    }

    /// The integer payload of an integer value.
    pub fn to_integer(&self) -> (i: i64)
        requires
            *self matches Value::INTEGER(_),
        ensures
            *self == Value::INTEGER(i),
    {
        match self {
            Value::INTEGER(i) => *i,
            _ => 0,
        }
    }

    /// Whether this value counts as false under the falsiness rule.
    pub fn is_false(&self) -> (r: bool)
        ensures
            r == is_falsy(*self),
    {
        match self {
            Value::NIL => true,
            Value::BOOL(b) => !*b,
            _ => false,
        }
    }

    /// The printed form of this value.
    pub fn to_string(&self) -> (s: String)
        ensures
            s@ == value_text(*self),
    {
        match self {
            Value::BOOL(b) => {
                if *b {
                    String::from_str("True")
                } else {
                    String::from_str("False")
                }
            },
            Value::NIL => String::from_str("nil"),
            Value::INTEGER(i) => i64_to_string(*i),
            Value::DOUBLE(w, f, d) => {
                let mut s = i64_to_string(*w);
                s.append(".");
                let digits = u64_digits(*f);
                let padded = pad_left_chars(&digits, *d as usize, '0');
                let frac = chars_to_string(&padded);
                s.append(frac.as_str());
                s
            },
            Value::STRING(i) => {
                let mut s = String::from_str("<obj ");
                let idx = u64_to_string(*i as u64);
                s.append(idx.as_str());
                s.append(">");
                s
            },
        }
    }
}

/// A binary operator symbol of the expression language.
#[derive(Copy, Clone, PartialEq, Eq, Structural, Debug)]
pub enum Binop {
    PLUS,
    MINUS,
    DIV,
    MUL,
    MOD,
}

impl Binop {
    /// The source-text symbol of this operator.
    pub fn symbol(&self) -> (s: String)
        ensures
            s@ == match *self {
                Binop::PLUS => "+"@,
                Binop::MINUS => "-"@,
                Binop::DIV => "/"@,
                Binop::MUL => "*"@,
                Binop::MOD => "%"@,
            },
    {
        match self {
            Binop::PLUS => String::from_str("+"),
            Binop::MINUS => String::from_str("-"),
            Binop::DIV => String::from_str("/"),
            Binop::MUL => String::from_str("*"),
            Binop::MOD => String::from_str("%"),
        }
    }
}

} // verus!
