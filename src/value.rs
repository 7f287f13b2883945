//! A cell value that is either a known field element or not yet known, as
//! during the pass that only fixes the circuit's shape.

use crate::field::{field_add, Fe};
use vstd::prelude::*;

verus! {

#[derive(Clone, Copy, Debug)]
pub enum Value {
    Known(Fe),
    Unknown,
}

/// Addition that yields "unknown" when either side is unknown.
pub open spec fn value_add(a: Option<nat>, b: Option<nat>) -> Option<nat> {
    match (a, b) {
        (Some(x), Some(y)) => Some(field_add(x, y)),
        _ => None,
    }
}

impl View for Value {
    type V = Option<nat>;

    open spec fn view(&self) -> Option<nat> {
        match self {
            Value::Known(f) => Some(f.val()),
            Value::Unknown => None,
        }
    }
}

impl Value {
    pub fn known(f: Fe) -> (r: Value)
        ensures
            r@ == Some(f.val()),
    {
        Value::Known(f)
    }

    pub fn unknown() -> (r: Value)
        ensures
            r@ == None::<nat>,
    {
        Value::Unknown
    }

    pub fn is_known(&self) -> (r: bool)
        ensures
            r == self@.is_some(),
    {
        matches!(self, Value::Known(_))
    }

    pub fn add(&self, other: &Value) -> (r: Value)
        ensures
            r@ == value_add(self@, other@),
    {
        match (self, other) {
            (Value::Known(x), Value::Known(y)) => Value::Known(x.add(y)),
            _ => Value::Unknown,
        }
    }

    /// Whether both values are known and stand for the same element.
    pub fn known_eq(&self, other: &Value) -> (r: bool)
        ensures
            r == (self@.is_some() && self@ == other@),
    {
        match (self, other) {
            (Value::Known(x), Value::Known(y)) => x.same(y),
            _ => false,
        }
    }
}

} // verus!
