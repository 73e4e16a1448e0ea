use vstd::prelude::*;

verus! {

/// A runtime value. A number is held as the bit pattern of an IEEE-754 double.
#[derive(Clone, Debug)]
pub enum Value {
    Number(u64),
    Bool(bool),
    Nil,
    Str(String),
}

/// The mathematical form of a value: strings as their characters.
pub enum Val {
    Number(u64),
    Bool(bool),
    Nil,
    Str(Seq<char>),
}

impl View for Value {
    type V = Val;

    open spec fn view(&self) -> Val {
        match self {
            Value::Number(n) => Val::Number(*n),
            Value::Bool(b) => Val::Bool(*b),
            Value::Nil => Val::Nil,
            Value::Str(s) => Val::Str(s@),
        }
    }
}

/// Only `nil` and `false` are falsy.
pub open spec fn truthy(v: Val) -> bool {
    match v {
        Val::Nil => false,
        Val::Bool(b) => b,
        _ => true,
    }
}

/// Equality of two values that are not both numbers: structural within a
/// variant, always false across variants.
pub open spec fn equal_non_numbers(a: Val, b: Val) -> bool {
    match (a, b) {
        (Val::Bool(x), Val::Bool(y)) => x == y,
        (Val::Nil, Val::Nil) => true,
        (Val::Str(x), Val::Str(y)) => x == y,
        _ => false,
    }
}

impl Value {
    /// A copy of this value.
    pub fn duplicate(&self) -> (r: Value)
        ensures
            r@ == self@,
    {
        match self {
            Value::Number(n) => Value::Number(*n),
            Value::Bool(b) => Value::Bool(*b),
            Value::Nil => Value::Nil,
            Value::Str(s) => Value::Str(s.clone()),
        }
    }

    /// Whether the value counts as true in a condition.
    pub fn is_truthy(&self) -> (r: bool)
        ensures
            r == truthy(self@),
    {
        match self {
            Value::Nil => false,
            Value::Bool(b) => *b,
            _ => true,
        }
    }

    /// Equality of two values that are not both numbers.
    pub fn equals_non_number(&self, other: &Value) -> (r: bool)
        requires
            !(self is Number && other is Number),
        ensures
            r == equal_non_numbers(self@, other@),
    {
        match (self, other) {
            (Value::Bool(x), Value::Bool(y)) => *x == *y,
            (Value::Nil, Value::Nil) => true,
            (Value::Str(x), Value::Str(y)) => *x == *y,
            _ => false,
        }
    }
}

} // verus!
