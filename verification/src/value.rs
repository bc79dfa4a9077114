//! Typed values without their types: what a shape describes, and what an
//! expression is read as under a shape.

use vstd::prelude::*;

verus! {

/// The shape of a type: how its values are written as expressions.
#[derive(Debug, PartialEq)]
pub enum Shape {
    /// Text: a token.
    Text,
    /// An integer: a token of decimal digits.
    Integer,
    /// A truth value: the token `true` or `false`.
    Boolean,
    /// A sequence of values of one shape: a list.
    Sequence(Box<Shape>),
    /// A value that may be absent.
    Optional(Box<Shape>),
    /// A record: its name, and its fields with their names.
    Record(String, Vec<(String, Shape)>),
    /// A tuple struct: its name, and the shapes of its items.
    Tuple(String, Vec<Shape>),
    /// An enum: its name, and its variants with their names.
    Enum(String, Vec<(String, Payload)>),
}

/// What a variant of an enum holds.
#[derive(Debug, PartialEq)]
pub enum Payload {
    /// Nothing.
    Unit,
    /// One value.
    Newtype(Shape),
    /// Values by position.
    Tuple(Vec<Shape>),
    /// Values by name.
    Record(Vec<(String, Shape)>),
}

/// A value of some shape.
#[derive(Debug, PartialEq)]
pub enum Value {
    /// Text.
    Text(String),
    /// An integer.
    Integer(i64),
    /// A truth value.
    Boolean(bool),
    /// A sequence.
    Sequence(Vec<Value>),
    /// An optional value that is not there.
    Absent,
    /// An optional value that is there.
    Present(Box<Value>),
    /// A record: its name, and the values of its fields under their
    /// names, in the order of the shape.
    Record(String, Vec<(String, Value)>),
    /// A tuple struct: its name, and its items.
    Tuple(String, Vec<Value>),
    /// A variant that holds nothing: its name.
    UnitVariant(String),
    /// A variant that holds one value: its name, and the value.
    NewtypeVariant(String, Box<Value>),
    /// A variant that holds values by position: its name, and the values.
    TupleVariant(String, Vec<Value>),
    /// A variant that holds values by name: its name, and the values
    /// under their names, in the order of the shape.
    RecordVariant(String, Vec<(String, Value)>),
}

/// The mathematical value of a `Value`.
pub ghost enum Val {
    Text(Seq<char>),
    Integer(int),
    Boolean(bool),
    Sequence(Seq<Val>),
    Absent,
    Present(Box<Val>),
    Record(Seq<char>, Seq<(Seq<char>, Val)>),
    Tuple(Seq<char>, Seq<Val>),
    UnitVariant(Seq<char>),
    NewtypeVariant(Seq<char>, Box<Val>),
    TupleVariant(Seq<char>, Seq<Val>),
    RecordVariant(Seq<char>, Seq<(Seq<char>, Val)>),
}

/// The values of a sequence of values, one by one.
pub open spec fn vals(s: Seq<Value>) -> Seq<Val>
    decreases s,
{
    Seq::new(
        s.len(),
        |i: int|
            if 0 <= i < s.len() {
                s[i]@
            } else {
                Val::Absent
            },
    )
}

/// The values of fields under their names, one by one.
pub open spec fn named_vals(s: Seq<(String, Value)>) -> Seq<(Seq<char>, Val)>
    decreases s,
{
    Seq::new(
        s.len(),
        |i: int|
            if 0 <= i < s.len() {
                (s[i].0@, s[i].1@)
            } else {
                (Seq::empty(), Val::Absent)
            },
    )
}

impl View for Value {
    type V = Val;

    open spec fn view(&self) -> Val
        decreases self,
    {
        match *self {
            Value::Text(s) => Val::Text(s@),
            Value::Integer(n) => Val::Integer(n as int),
            Value::Boolean(b) => Val::Boolean(b),
            Value::Sequence(v) => Val::Sequence(vals(v@)),
            Value::Absent => Val::Absent,
            Value::Present(v) => Val::Present(Box::new((*v)@)),
            Value::Record(name, fields) => Val::Record(name@, named_vals(fields@)),
            Value::Tuple(name, items) => Val::Tuple(name@, vals(items@)),
            Value::UnitVariant(name) => Val::UnitVariant(name@),
            Value::NewtypeVariant(name, v) => Val::NewtypeVariant(name@, Box::new((*v)@)),
            Value::TupleVariant(name, items) => Val::TupleVariant(name@, vals(items@)),
            Value::RecordVariant(name, fields) => Val::RecordVariant(name@, named_vals(fields@)),
        }
    }
}

} // verus!
