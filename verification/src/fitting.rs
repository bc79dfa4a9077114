//! Whether a value is one that reading under a shape gives: the values
//! that are read back as themselves when they are written.

use crate::codec::{encode, read, shape_names, variant_names};
use crate::decode::{names, variant_index, DecodeErrorView};
use crate::inverse::{
    distinct, fits, fits_fields, fits_payload, fits_places, is_written, lemma_value_reads_back,
    variant_name,
};
use crate::sexp::Sexp;
use crate::text::{same_text, to_lowercase};
use crate::value::{named_vals, vals, Payload, Shape, Val, Value};
use vstd::prelude::*;

verus! {

/// Whether a value is written as something: it is not the absent value,
/// and no present value that holds one.
pub fn value_is_written(value: &Value) -> (b: bool)
    ensures
        b == is_written(value@),
    decreases value,
{
    match value {
        Value::Absent => false,
        Value::Present(inner) => value_is_written(inner),
        _ => true,
    }
}

/// The name of a variant; none for a value that is no variant.
pub fn name_of_variant(value: &Value) -> (r: Option<&String>)
    ensures
        match variant_name(value@) {
            Some(n) => r matches Some(name) && name@ == n,
            None => r is None,
        },
{
    match value {
        Value::UnitVariant(name) => Some(name),
        Value::NewtypeVariant(name, _) => Some(name),
        Value::TupleVariant(name, _) => Some(name),
        Value::RecordVariant(name, _) => Some(name),
        _ => None,
    }
}

/// Whether a name, put in lower case, is still the name but for the case
/// of its letters.
pub fn lowers_to_itself(name: &str) -> (b: bool)
    ensures
        b == crate::decode::same_name(name@, crate::text::lowercase(name@)),
{
    let once = to_lowercase(name);
    let twice = to_lowercase(once.as_str());
    same_text(once.as_str(), twice.as_str())
}

/// Whether no name of a field stands twice.
pub fn names_differ(fields: &Vec<(String, Shape)>) -> (b: bool)
    ensures
        b == distinct(shape_names(fields@)),
{
    let ghost all = shape_names(fields@);
    let mut j: usize = 0;
    while j < fields.len()
        invariant
            j <= fields.len(),
            all == shape_names(fields@),
            forall|a: int, c: int| 0 <= a < c < j ==> all[a] != all[c],
        decreases fields.len() - j,
    {
        let mut i: usize = 0;
        while i < j
            invariant
                i <= j < fields.len(),
                all == shape_names(fields@),
                forall|a: int| 0 <= a < i ==> all[a] != all[j as int],
            decreases j - i,
        {
            if same_text(fields[i].0.as_str(), fields[j].0.as_str()) {
                assert(all[i as int] == all[j as int]);
                return false;
            }
            i = i + 1;
        }
        j = j + 1;
    }
    true
}

/// What fitting a sequence says.
proof fn lemma_fits_sequence(v: Val, shape: Shape)
    requires
        shape is Sequence,
    ensures
        fits(v, shape) == (v matches Val::Sequence(items) && (forall|i: int|
            0 <= i < items.len() ==> fits(#[trigger] items[i], *shape->Sequence_0))),
{
    match shape {
        Shape::Sequence(inner) => {
            assert(*inner == *shape->Sequence_0);
            assert(fits(v, shape) == (v matches Val::Sequence(items) && (forall|i: int|
                0 <= i < items.len() ==> fits(#[trigger] items[i], *inner))));
        },
        _ => {},
    }
}

/// Whether a value is one that reading under the shape gives.
///
/// Such a value is read back as itself when it is written: text, numbers
/// and truth values under their shapes; parts that fit the shapes of
/// their places, under the names that the shape declares; a present value
/// only where it holds something that is written; a record only where the
/// names of its fields differ and its name, put in lower case, is still
/// its name but for the case of the letters; and a variant only where it
/// is the first of its enum that has its name but for the case of the
/// letters.
pub fn value_fits(value: &Value, shape: &Shape) -> (b: bool)
    ensures
        b == fits(value@, *shape),
    decreases shape, 0nat,
{
    match shape {
        Shape::Text => match value {
            Value::Text(_) => true,
            _ => false,
        },
        Shape::Integer => match value {
            Value::Integer(_) => true,
            _ => false,
        },
        Shape::Boolean => match value {
            Value::Boolean(_) => true,
            _ => false,
        },
        Shape::Sequence(inner) => {
            proof {
                lemma_fits_sequence(value@, *shape);
            }
            match value {
                Value::Sequence(items) => {
                    assert(value@ == Val::Sequence(vals(items@)));
                    each_fits(items, inner)
                },
                _ => false,
            }
        },
        Shape::Optional(inner) => match value {
            Value::Absent => true,
            Value::Present(x) => value_is_written(x) && value_fits(x, inner),
            _ => false,
        },
        Shape::Record(name, fields) => match value {
            Value::Record(n, values) => {
                assert(decreases_to!(*shape => *fields)) by {
                    assert(decreases_to!(*shape => shape->Record_1));
                }
                same_text(n.as_str(), name.as_str()) && lowers_to_itself(name.as_str())
                    && fields_fit(values, fields)
            },
            _ => false,
        },
        Shape::Tuple(name, shapes) => match value {
            Value::Tuple(n, items) => {
                assert(decreases_to!(*shape => *shapes)) by {
                    assert(decreases_to!(*shape => shape->Tuple_1));
                }
                same_text(n.as_str(), name.as_str()) && places_fit(items, shapes)
            },
            _ => false,
        },
        Shape::Enum(_, variants) => match name_of_variant(value) {
            Some(n) => {
                let mut declared: Vec<&str> = Vec::new();
                let mut i: usize = 0;
                while i < variants.len()
                    invariant
                        i <= variants.len(),
                        declared.len() == i,
                        forall|j: int| 0 <= j < i ==> declared@[j]@ == variants@[j].0@,
                    decreases variants.len() - i,
                {
                    declared.push(variants[i].0.as_str());
                    i = i + 1;
                }
                assert(names(declared@) =~= variant_names(variants@));
                match variant_index(n.as_str(), declared.as_slice()) {
                    Some(at) => {
                        assert(decreases_to!(*shape => variants[at as int].1)) by {
                            assert(decreases_to!(*shape => shape->Enum_1));
                            vstd::std_specs::vec::axiom_vec_index_decreases(*variants, at as int);
                            assert(decreases_to!(variants[at as int] => variants[at as int].1));
                        }
                        same_text(variants[at].0.as_str(), n.as_str()) && payload_fits(
                            value,
                            &variants[at].1,
                        )
                    },
                    None => false,
                }
            },
            None => false,
        },
    }
}

/// Whether each value fits the shape `inner`.
fn each_fits(items: &Vec<Value>, inner: &Shape) -> (b: bool)
    ensures
        b == (forall|i: int|
            0 <= i < vals(items@).len() ==> fits(#[trigger] vals(items@)[i], *inner)),
    decreases inner, 1nat,
{
    let mut i: usize = 0;
    assert(vals(items@).len() == items@.len());
    while i < items.len()
        invariant
            i <= items.len(),
            vals(items@).len() == items@.len(),
            forall|j: int| 0 <= j < i ==> fits(#[trigger] vals(items@)[j], *inner),
        decreases items.len() - i,
    {
        assert(vals(items@)[i as int] == items@[i as int]@);
        if !value_fits(&items[i], inner) {
            return false;
        }
        i = i + 1;
    }
    true
}

/// Whether the values fit the shapes of their places.
fn places_fit(items: &Vec<Value>, shapes: &Vec<Shape>) -> (b: bool)
    ensures
        b == fits_places(vals(items@), shapes@),
    decreases shapes, 1nat,
{
    assert(vals(items@).len() == items@.len());
    if items.len() != shapes.len() {
        return false;
    }
    let mut i: usize = 0;
    while i < shapes.len()
        invariant
            i <= shapes.len(),
            items@.len() == shapes@.len(),
            vals(items@).len() == items@.len(),
            forall|j: int| 0 <= j < i ==> fits(#[trigger] vals(items@)[j], shapes@[j]),
        decreases shapes.len() - i,
    {
        assert(vals(items@)[i as int] == items@[i as int]@);
        proof {
            vstd::std_specs::vec::axiom_vec_index_decreases(*shapes, i as int);
        }
        if !value_fits(&items[i], &shapes[i]) {
            return false;
        }
        i = i + 1;
    }
    true
}

/// Whether the values fit the shapes of their fields, under the names of
/// the fields, which differ.
fn fields_fit(values: &Vec<(String, Value)>, fields: &Vec<(String, Shape)>) -> (b: bool)
    ensures
        b == fits_fields(named_vals(values@), fields@),
    decreases fields, 1nat,
{
    assert(named_vals(values@).len() == values@.len());
    if values.len() != fields.len() {
        return false;
    }
    if !names_differ(fields) {
        return false;
    }
    let mut i: usize = 0;
    while i < fields.len()
        invariant
            i <= fields.len(),
            values@.len() == fields@.len(),
            named_vals(values@).len() == values@.len(),
            forall|j: int|
                0 <= j < i ==> (#[trigger] named_vals(values@)[j]).0 == fields@[j].0@ && fits(
                    named_vals(values@)[j].1,
                    fields@[j].1,
                ),
        decreases fields.len() - i,
    {
        assert(named_vals(values@)[i as int] == (values@[i as int].0@, values@[i as int].1@));
        proof {
            vstd::std_specs::vec::axiom_vec_index_decreases(*fields, i as int);
            assert(decreases_to!(fields[i as int] => fields[i as int].1));
        }
        if !same_text(values[i].0.as_str(), fields[i].0.as_str()) {
            return false;
        }
        if !value_fits(&values[i].1, &fields[i].1) {
            return false;
        }
        i = i + 1;
    }
    true
}

/// Whether the payload of a variant fits the shape of the payload.
fn payload_fits(value: &Value, shape: &Payload) -> (b: bool)
    ensures
        b == fits_payload(value@, *shape),
    decreases shape, 0nat,
{
    match shape {
        Payload::Unit => match value {
            Value::UnitVariant(_) => true,
            _ => false,
        },
        Payload::Newtype(inner) => match value {
            Value::NewtypeVariant(_, x) => value_fits(x, inner),
            _ => false,
        },
        Payload::Tuple(shapes) => match value {
            Value::TupleVariant(_, items) => {
                assert(decreases_to!(*shape => *shapes)) by {
                    assert(decreases_to!(*shape => shape->Tuple_0));
                }
                places_fit(items, shapes)
            },
            _ => false,
        },
        Payload::Record(fields) => match value {
            Value::RecordVariant(_, values) => {
                assert(decreases_to!(*shape => *fields)) by {
                    assert(decreases_to!(*shape => shape->Record_0));
                }
                fields_fit(values, fields)
            },
            _ => false,
        },
    }
}

/// Writes a value as an expression that is read back as the value under
/// the shape: the expression of the value where the value fits the shape,
/// and nothing where it does not.
pub fn encode_fitting(value: &Value, shape: &Shape) -> (r: Option<Sexp>)
    ensures
        r is Some <==> fits(value@, *shape),
        r matches Some(e) ==> e@ == crate::codec::written(value@) && read(e@, *shape) == Ok::<
            Val,
            DecodeErrorView,
        >(value@),
{
    if value_fits(value, shape) {
        proof {
            lemma_value_reads_back(value@, *shape);
        }
        Some(encode(value))
    } else {
        None
    }
}

} // verus!
