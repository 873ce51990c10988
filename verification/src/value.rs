//! The tagged value domain: booleans, the absence value, and numbers.
use vstd::prelude::*;

use crate::num::eq_bits;
use crate::num::num_eq;

verus! {

/// A runtime value.  A number carries the bit pattern of an IEEE 754
/// binary64 double, so equality of `Value`s as Rust values is bit
/// equality; the dynamic equality of the language is [`Value::equals`].
#[derive(Debug, Clone, Copy, PartialEq, Eq, Structural)]
pub enum Value {
    Bool(bool),
    Nil,
    Number(u64),
}

/// Only the absence value and `false` are falsy; every number is truthy.
pub open spec fn falsy(v: Value) -> bool {
    v == Value::Nil || v == Value::Bool(false)
}

/// Structural equality over the tag and payload, with numbers compared
/// as doubles rather than as bit patterns.  The number case is written
/// both ways round — the double comparison is symmetric, and each call
/// of it establishes both — so the symmetry of the whole relation is a
/// provable law rather than an assumption.
pub open spec fn values_equal(a: Value, b: Value) -> bool {
    match (a, b) {
        (Value::Bool(x), Value::Bool(y)) => x == y,
        (Value::Nil, Value::Nil) => true,
        (Value::Number(x), Value::Number(y)) => eq_bits(x, y) && eq_bits(y, x),
        _ => false,
    }
}

/// Structural equality is symmetric: consuming order never changes what
/// an equality comparison returns.
pub proof fn lemma_values_equal_symmetric(a: Value, b: Value)
    ensures
        values_equal(a, b) == values_equal(b, a),
{
}

impl Value {
    pub fn is_number(&self) -> (r: bool)
        ensures
            r == (*self is Number),
    {
        match self {
            Value::Number(_) => true,
            _ => false,
        }
    }

    pub fn is_falsy(&self) -> (r: bool)
        ensures
            r == falsy(*self),
    {
        match self {
            Value::Nil => true,
            Value::Bool(b) => !*b,
            _ => false,
        }
    }

    pub fn equals(&self, other: &Self) -> (r: bool)
        ensures
            r == values_equal(*self, *other),
    {
        match (self, other) {
            (Value::Bool(x), Value::Bool(y)) => *x == *y,
            (Value::Nil, Value::Nil) => true,
            (Value::Number(x), Value::Number(y)) => num_eq(*x, *y),
            _ => false,
        }
    }
}

impl Default for Value {
    /// The default value is the absence value.
    fn default() -> (r: Self)
        ensures
            r == Value::Nil,
    {
        Value::Nil
    }
}

} // verus!
