//! Dynamically typed values and their mathematical model.
//!
//! A `Value` is a tagged variant.  Primitive variants carry their content;
//! the `Object` and `Function` variants carry an index into the interpreter's
//! heap (an arena of objects), so that one object may be shared by many
//! holders and object graphs may be cyclic.  Equality between values is by
//! content for primitives and by heap identity for objects and functions.
//!
//! The model type `MVal` states the same data over `int` and `Seq<char>`;
//! every contract in the crate speaks of values through this view.

use vstd::prelude::*;

verus! {

/// A runtime value.
///
/// The numeric tower has two kinds, as the language distinguishes integer
/// literals from general numbers: `Integer` is the 32-bit kind, `Number` the
/// general kind.  The general kind is modelled exactly over `i64`: arithmetic
/// that would leave that range yields 0, the stand-in for a non-number.
#[derive(Debug, Clone, PartialEq, Eq)]
pub enum Value {
    /// The undefined value.
    Undefined,
    /// The null value.
    Null,
    /// A boolean.
    Boolean(bool),
    /// A number of the general kind.
    Number(i64),
    /// A number of the 32-bit integer kind.
    Integer(i32),
    /// A string.
    String(String),
    /// A plain object: an index into the heap.
    Object(usize),
    /// A callable object: an index into the heap.
    Function(usize),
}

/// The model of a value: the same variants over mathematical types.
pub enum MVal {
    Undefined,
    Null,
    Bool(bool),
    Num(int),
    Int(int),
    Str(Seq<char>),
    Obj(int),
    Fun(int),
}

impl View for Value {
    type V = MVal;

    open spec fn view(&self) -> MVal {
        match self {
            Value::Undefined => MVal::Undefined,
            Value::Null => MVal::Null,
            Value::Boolean(b) => MVal::Bool(*b),
            Value::Number(n) => MVal::Num(*n as int),
            Value::Integer(i) => MVal::Int(*i as int),
            Value::String(s) => MVal::Str(s@),
            Value::Object(i) => MVal::Obj(*i as int),
            Value::Function(i) => MVal::Fun(*i as int),
        }
    }
}

/// The result of evaluation: success carries the expression's value, failure
/// carries the thrown value, which may be any value at all.
pub type ResultValue = Result<Value, Value>;

/// Whether a value's heap references, if any, lie below the heap length `n`.
pub open spec fn val_ok(v: MVal, n: int) -> bool {
    match v {
        MVal::Obj(i) => 0 <= i < n,
        MVal::Fun(i) => 0 <= i < n,
        MVal::Num(x) => i64::MIN <= x <= i64::MAX,
        MVal::Int(x) => i32::MIN <= x <= i32::MAX,
        _ => true,
    }
}

/// Truthiness: objects and functions are true, `undefined` and `null` are
/// false, numbers are true when nonzero, strings when nonempty.
pub open spec fn truthy(v: MVal) -> bool {
    match v {
        MVal::Undefined => false,
        MVal::Null => false,
        MVal::Bool(b) => b,
        MVal::Num(n) => n != 0,
        MVal::Int(i) => i != 0,
        MVal::Str(s) => s.len() > 0,
        MVal::Obj(_) => true,
        MVal::Fun(_) => true,
    }
}

/// The `typeof` string of a value.  Both `null` and objects answer
/// `"object"`; both numeric kinds answer `"number"`.
pub open spec fn type_of(v: MVal) -> Seq<char> {
    match v {
        MVal::Undefined => "undefined"@,
        MVal::Null => "object"@,
        MVal::Bool(_) => "boolean"@,
        MVal::Num(_) => "number"@,
        MVal::Int(_) => "number"@,
        MVal::Str(_) => "string"@,
        MVal::Obj(_) => "object"@,
        MVal::Fun(_) => "function"@,
    }
}

/// Value equality: content for primitives, heap identity for objects and
/// functions.  Distinct variants are never equal, so an object and a
/// function never compare equal, nor do the two numeric kinds.
pub open spec fn val_eq(a: MVal, b: MVal) -> bool {
    a == b
}

/// Whether the value is of the object or function kind.
pub open spec fn is_obj_like(v: MVal) -> bool {
    match v {
        MVal::Obj(_) => true,
        MVal::Fun(_) => true,
        _ => false,
    }
}

/// Whether the value is a primitive other than `null` and `undefined`:
/// exactly the receivers that member access boxes before property lookup.
pub open spec fn is_boxable(v: MVal) -> bool {
    match v {
        MVal::Bool(_) => true,
        MVal::Num(_) => true,
        MVal::Int(_) => true,
        MVal::Str(_) => true,
        _ => false,
    }
}

impl Value {
    /// A copy of this value.  An object or function copy refers to the same
    /// heap entry, which is the shared-reference semantics of the language.
    pub fn dup(&self) -> (r: Value)
        ensures
            r@ == self@,
    {
        match self {
            Value::Undefined => Value::Undefined,
            Value::Null => Value::Null,
            Value::Boolean(b) => Value::Boolean(*b),
            Value::Number(n) => Value::Number(*n),
            Value::Integer(i) => Value::Integer(*i),
            Value::String(s) => Value::String(s.clone()),
            Value::Object(i) => Value::Object(*i),
            Value::Function(i) => Value::Function(*i),
        }
    }

    /// Whether this value equals `other` under the language's equality:
    /// content for primitives, heap identity for objects and functions.
    pub fn same_value_as(&self, other: &Value) -> (r: bool)
        ensures
            r == val_eq(self@, other@),
    {
        match (self, other) {
            (Value::Undefined, Value::Undefined) => true,
            (Value::Null, Value::Null) => true,
            (Value::Boolean(a), Value::Boolean(b)) => a == b,
            (Value::Number(a), Value::Number(b)) => a == b,
            (Value::Integer(a), Value::Integer(b)) => a == b,
            (Value::String(a), Value::String(b)) => *a == *b,
            (Value::Object(a), Value::Object(b)) => a == b,
            (Value::Function(a), Value::Function(b)) => a == b,
            _ => false,
        }
    }

    /// Whether this value is truthy.
    pub fn is_truthy(&self) -> (r: bool)
        ensures
            r == truthy(self@),
    {
        match self {
            Value::Undefined => false,
            Value::Null => false,
            Value::Boolean(b) => *b,
            Value::Number(n) => *n != 0,
            Value::Integer(i) => *i != 0,
            Value::String(s) => !s.as_str().is_empty(),
            Value::Object(_) => true,
            Value::Function(_) => true,
        }
    }
}

} // verus!
