//! Typed values and expressions, one from the other: an expression is
//! read under a shape, depth first and from left to right, and the first
//! fault ends the reading; a value is written as the expression that is
//! read back as the value.

use crate::access::is_i64;
use crate::builder::pair;
use crate::decode::{
    decode_bool, decode_enum, decode_field, decode_i64, decode_option, decode_record_head,
    decode_seq, decode_string, decode_tuple_struct, duplicate_field, enum_read, index_of,
    is_field, lemma_enum_read_in_range, lemma_index_of_in_range, missing_field, names,
    not_a_bool, not_a_field, not_a_sequence, not_a_token, not_an_integer, path_in, record_items,
    token_text, tuple_read, wrong_payload, DecodeError, DecodeErrorView,
};
use crate::encode::headed;
use crate::sexp::{trees, Sexp, Tree};
use crate::text::{
    decimal, integer_text, integer_value, lowercase, push_decimal, same_text, signed_decimal,
    to_lowercase,
};
use crate::value::{named_vals, vals, Payload, Shape, Val, Value};
use vstd::prelude::*;

verus! {

/// A fault at the top of the value that is read.
pub open spec fn at_top(message: Seq<char>) -> DecodeErrorView {
    DecodeErrorView { path: Seq::empty(), message: message }
}

/// The fault of a value that holds the faulty one in its field `field`.
pub open spec fn inside(field: Seq<char>, fault: DecodeErrorView) -> DecodeErrorView {
    DecodeErrorView { path: path_in(field, fault.path), message: fault.message }
}

/// The names of the fields.
pub open spec fn shape_names(fields: Seq<(String, Shape)>) -> Seq<Seq<char>> {
    Seq::new(fields.len(), |i: int| fields[i].0@)
}

/// The names of the variants.
pub open spec fn variant_names(variants: Seq<(String, Payload)>) -> Seq<Seq<char>> {
    Seq::new(variants.len(), |i: int| variants[i].0@)
}

/// What an expression is read as under a shape: a value, or the first
/// fault.
pub open spec fn read(t: Tree, shape: Shape) -> Result<Val, DecodeErrorView>
    decreases shape, 0nat,
{
    match shape {
        Shape::Text => match token_text(t) {
            Some(s) => Ok(Val::Text(s)),
            None => Err(at_top(not_a_token(t))),
        },
        Shape::Integer => match token_text(t) {
            Some(s) => if is_i64(s) {
                Ok(Val::Integer(integer_value(s)->Some_0))
            } else {
                Err(at_top(not_an_integer(s)))
            },
            None => Err(at_top(not_a_token(t))),
        },
        Shape::Boolean => match token_text(t) {
            Some(s) => if s == "true"@ {
                Ok(Val::Boolean(true))
            } else if s == "false"@ {
                Ok(Val::Boolean(false))
            } else {
                Err(at_top(not_a_bool(s)))
            },
            None => Err(at_top(not_a_token(t))),
        },
        Shape::Sequence(inner) => match t {
            Tree::List(l) => match read_each(l, l.len(), *inner) {
                Ok(items) => Ok(Val::Sequence(items)),
                Err(f) => Err(f),
            },
            _ => Err(at_top(not_a_sequence(t))),
        },
        Shape::Optional(inner) => if t is Empty {
            Ok(Val::Absent)
        } else {
            match read(t, *inner) {
                Ok(v) => Ok(Val::Present(Box::new(v))),
                Err(f) => Err(f),
            }
        },
        Shape::Record(name, fields) => match record_items(t, name@) {
            Ok(items) => match read_record(items, fields@) {
                Ok(values) => Ok(Val::Record(name@, values)),
                Err(f) => Err(f),
            },
            Err(m) => Err(at_top(m)),
        },
        Shape::Tuple(name, shapes) => match tuple_read(t, name@, shapes@.len()) {
            Ok(items) => match read_places(items, items.len(), shapes@) {
                Ok(values) => Ok(Val::Tuple(name@, values)),
                Err(f) => Err(f),
            },
            Err(m) => Err(at_top(m)),
        },
        Shape::Enum(name, variants) => match enum_read(t, name@, variant_names(variants@)) {
            Ok((i, payload)) => {
                proof {
                    lemma_enum_read_in_range(t, name@, variant_names(variants@));
                }
                read_payload(payload, variants@[i].0@, variants@[i].1)
            },
            Err(m) => Err(at_top(m)),
        },
    }
}

/// The first `n` items of a sequence, each read under the shape `inner`.
pub open spec fn read_each(items: Seq<Tree>, n: nat, inner: Shape) -> Result<
    Seq<Val>,
    DecodeErrorView,
>
    decreases inner, n,
{
    if n == 0 || n > items.len() {
        Ok(Seq::empty())
    } else {
        match read_each(items, (n - 1) as nat, inner) {
            Ok(values) => match read(items[n - 1], inner) {
                Ok(v) => Ok(values.push(v)),
                Err(f) => Err(f),
            },
            Err(f) => Err(f),
        }
    }
}

/// The first `n` items of a tuple, each read under the shape of its
/// place. A fault in an item is reported under the number of its place.
pub open spec fn read_places(items: Seq<Tree>, n: nat, shapes: Seq<Shape>) -> Result<
    Seq<Val>,
    DecodeErrorView,
>
    decreases shapes, n,
{
    if n == 0 || n > items.len() || n > shapes.len() {
        Ok(Seq::empty())
    } else {
        match read_places(items, (n - 1) as nat, shapes) {
            Ok(values) => match read(items[n - 1], shapes[n - 1]) {
                Ok(v) => Ok(values.push(v)),
                Err(f) => Err(inside(decimal((n - 1) as nat), f)),
            },
            Err(f) => Err(f),
        }
    }
}

/// The values of the fields that stand among the first `n` items of a
/// record, each read under the shape of its field as soon as it is met.
/// An item that is no pair of a name and a value is a fault, and so is a
/// field that stands twice; a name that is not among `fields` is passed
/// over with its value. A fault in a value is reported under the name of
/// its field.
pub open spec fn read_fields(items: Seq<Tree>, n: nat, fields: Seq<(String, Shape)>) -> Result<
    Seq<Option<Val>>,
    DecodeErrorView,
>
    decreases fields, n,
{
    if n == 0 || n > items.len() {
        Ok(Seq::new(fields.len(), |j: int| None))
    } else {
        match read_fields(items, (n - 1) as nat, fields) {
            Err(f) => Err(f),
            Ok(found) => {
                let item = items[n - 1];
                if !is_field(item) {
                    Err(at_top(not_a_field(item)))
                } else {
                    let key = item->List_0[0]->Sym_0;
                    match index_of(shape_names(fields), key, 0) {
                        None => Ok(found),
                        Some(j) => if found[j] is Some {
                            Err(at_top(duplicate_field(key)))
                        } else {
                            proof {
                                lemma_index_of_in_range(shape_names(fields), key, 0);
                            }
                            match read(item->List_0[1], fields[j].1) {
                                Ok(v) => Ok(found.update(j, Some(v))),
                                Err(f) => Err(inside(key, f)),
                            }
                        },
                    }
                }
            },
        }
    }
}

/// The values of the first `n` fields of a record under their names: the
/// value that was found, or the absent value for a field that may be
/// absent. A field that was not found and may not be absent is a fault,
/// reported under its name.
pub open spec fn fill_missing(found: Seq<Option<Val>>, fields: Seq<(String, Shape)>, n: nat)
    -> Result<Seq<(Seq<char>, Val)>, DecodeErrorView>
    decreases n,
{
    if n == 0 || n > fields.len() || n > found.len() {
        Ok(Seq::empty())
    } else {
        match fill_missing(found, fields, (n - 1) as nat) {
            Err(f) => Err(f),
            Ok(values) => {
                let name = fields[n - 1].0@;
                match found[n - 1] {
                    Some(v) => Ok(values.push((name, v))),
                    None => if fields[n - 1].1 is Optional {
                        Ok(values.push((name, Val::Absent)))
                    } else {
                        Err(inside(name, at_top(missing_field(name))))
                    },
                }
            },
        }
    }
}

/// The fields of a record, read from the items that follow its name.
pub open spec fn read_record(items: Seq<Tree>, fields: Seq<(String, Shape)>) -> Result<
    Seq<(Seq<char>, Val)>,
    DecodeErrorView,
>
    decreases fields, items.len() + 1,
{
    match read_fields(items, items.len(), fields) {
        Ok(found) => fill_missing(found, fields, fields.len()),
        Err(f) => Err(f),
    }
}

/// The variant `name` with the payload that the items after its name are
/// read as.
pub open spec fn read_payload(payload: Seq<Tree>, name: Seq<char>, shape: Payload) -> Result<
    Val,
    DecodeErrorView,
>
    decreases shape, 0nat,
{
    match shape {
        Payload::Unit => if payload.len() == 0 {
            Ok(Val::UnitVariant(name))
        } else {
            Err(at_top(wrong_payload(name)))
        },
        Payload::Newtype(inner) => if payload.len() == 1 {
            match read(payload[0], inner) {
                Ok(v) => Ok(Val::NewtypeVariant(name, Box::new(v))),
                Err(f) => Err(f),
            }
        } else {
            Err(at_top(wrong_payload(name)))
        },
        Payload::Tuple(shapes) => if payload.len() == shapes@.len() {
            match read_places(payload, payload.len(), shapes@) {
                Ok(values) => Ok(Val::TupleVariant(name, values)),
                Err(f) => Err(f),
            }
        } else {
            Err(at_top(wrong_payload(name)))
        },
        Payload::Record(fields) => match read_record(payload, fields@) {
            Ok(values) => Ok(Val::RecordVariant(name, values)),
            Err(f) => Err(f),
        },
    }
}

/// A value as an expression.
pub open spec fn written(v: Val) -> Tree
    decreases v,
{
    match v {
        Val::Text(s) => Tree::Sym(s),
        Val::Integer(n) => Tree::Sym(signed_decimal(n)),
        Val::Boolean(b) => Tree::Sym(
            if b {
                "true"@
            } else {
                "false"@
            },
        ),
        Val::Sequence(items) => Tree::List(written_each(items, items.len())),
        Val::Absent => Tree::Empty,
        Val::Present(inner) => written(*inner),
        Val::Record(name, fields) => headed(lowercase(name), written_fields(fields, fields.len())),
        Val::Tuple(name, items) => headed(name, written_each(items, items.len())),
        Val::UnitVariant(name) => Tree::Sym(name),
        Val::NewtypeVariant(name, inner) => headed(name, seq![written(*inner)]),
        Val::TupleVariant(name, items) => headed(name, written_each(items, items.len())),
        Val::RecordVariant(name, fields) => headed(name, written_fields(fields, fields.len())),
    }
}

/// The first `n` values, each as an expression.
pub open spec fn written_each(items: Seq<Val>, n: nat) -> Seq<Tree>
    decreases items, n,
{
    if n == 0 || n > items.len() {
        Seq::empty()
    } else {
        written_each(items, (n - 1) as nat).push(written(items[n - 1]))
    }
}

/// The first `n` fields as they are written: a pair `(name value)` for
/// each field but the absent ones, in order.
pub open spec fn written_fields(fields: Seq<(Seq<char>, Val)>, n: nat) -> Seq<Tree>
    decreases fields, n,
{
    if n == 0 || n > fields.len() {
        Seq::empty()
    } else if fields[n - 1].1 is Absent {
        written_fields(fields, (n - 1) as nat)
    } else {
        written_fields(fields, (n - 1) as nat).push(
            pair(fields[n - 1].0, written(fields[n - 1].1)),
        )
    }
}

/// Whether `r` is the value `want`, or the error `want`.
pub open spec fn is_read(r: Result<Value, DecodeError>, want: Result<Val, DecodeErrorView>)
    -> bool {
    match want {
        Ok(v) => r matches Ok(value) && value@ == v,
        Err(f) => r matches Err(e) && e@ == f,
    }
}

/// Whether `r` is the values `want`, or the error `want`.
pub open spec fn is_read_each(r: Result<Vec<Value>, DecodeError>, want: Result<
    Seq<Val>,
    DecodeErrorView,
>) -> bool {
    match want {
        Ok(v) => r matches Ok(values) && vals(values@) == v,
        Err(f) => r matches Err(e) && e@ == f,
    }
}

/// Whether `r` is the named values `want`, or the error `want`.
pub open spec fn is_read_record(r: Result<Vec<(String, Value)>, DecodeError>, want: Result<
    Seq<(Seq<char>, Val)>,
    DecodeErrorView,
>) -> bool {
    match want {
        Ok(v) => r matches Ok(values) && named_vals(values@) == v,
        Err(f) => r matches Err(e) && e@ == f,
    }
}

/// The values that are there.
pub open spec fn option_vals(s: Seq<Option<Value>>) -> Seq<Option<Val>> {
    Seq::new(
        s.len(),
        |i: int|
            match s[i] {
                Some(v) => Some(v@),
                None => None,
            },
    )
}

/// A fault among the first items of a sequence is the fault of the
/// sequence.
pub proof fn lemma_read_each_fault_stays(items: Seq<Tree>, k: nat, n: nat, inner: Shape)
    requires
        k <= n <= items.len(),
        read_each(items, k, inner) is Err,
    ensures
        read_each(items, n, inner) == read_each(items, k, inner),
    decreases n,
{
    if k < n {
        lemma_read_each_fault_stays(items, k, (n - 1) as nat, inner);
    }
}

/// A fault among the first items of a tuple is the fault of the tuple.
pub proof fn lemma_read_places_fault_stays(items: Seq<Tree>, k: nat, n: nat, shapes: Seq<Shape>)
    requires
        k <= n <= items.len(),
        n <= shapes.len(),
        read_places(items, k, shapes) is Err,
    ensures
        read_places(items, n, shapes) == read_places(items, k, shapes),
    decreases n,
{
    if k < n {
        lemma_read_places_fault_stays(items, k, (n - 1) as nat, shapes);
    }
}

/// A fault among the first items of a record is the fault of the record.
pub proof fn lemma_read_fields_fault_stays(
    items: Seq<Tree>,
    k: nat,
    n: nat,
    fields: Seq<(String, Shape)>,
)
    requires
        k <= n <= items.len(),
        read_fields(items, k, fields) is Err,
    ensures
        read_fields(items, n, fields) == read_fields(items, k, fields),
    decreases n,
{
    if k < n {
        lemma_read_fields_fault_stays(items, k, (n - 1) as nat, fields);
    }
}

/// A field that is missing among the first fields of a record is the
/// fault of the record.
pub proof fn lemma_fill_missing_fault_stays(
    found: Seq<Option<Val>>,
    fields: Seq<(String, Shape)>,
    k: nat,
    n: nat,
)
    requires
        k <= n <= fields.len(),
        n <= found.len(),
        fill_missing(found, fields, k) is Err,
    ensures
        fill_missing(found, fields, n) == fill_missing(found, fields, k),
    decreases n,
{
    if k < n {
        lemma_fill_missing_fault_stays(found, fields, k, (n - 1) as nat);
    }
}

/// Reads an expression as a value of the given shape.
///
/// The expression is read depth first and from left to right, and the
/// first fault ends the reading. The fault of a value inside a record or
/// a tuple is reported with the names of the fields, or the numbers of
/// the places, that lead to it.
pub fn decode(exp: Sexp, shape: &Shape) -> (r: Result<Value, DecodeError>)
    ensures
        is_read(r, read(exp@, *shape)),
    decreases shape, 0nat,
{
    match shape {
        Shape::Text => match decode_string(exp) {
            Ok(s) => Ok(Value::Text(s)),
            Err(e) => Err(e),
        },
        Shape::Integer => match decode_i64(exp) {
            Ok(n) => Ok(Value::Integer(n)),
            Err(e) => Err(e),
        },
        Shape::Boolean => match decode_bool(exp) {
            Ok(b) => Ok(Value::Boolean(b)),
            Err(e) => Err(e),
        },
        Shape::Sequence(inner) => match decode_seq(exp) {
            Ok(items) => {
                assert(trees(items@).len() == items@.len());
                match decode_each(items, inner) {
                    Ok(values) => Ok(Value::Sequence(values)),
                    Err(e) => Err(e),
                }
            },
            Err(e) => Err(e),
        },
        Shape::Optional(inner) => match decode_option(Some(exp)) {
            Some(e) => match decode(e, inner) {
                Ok(v) => Ok(Value::Present(Box::new(v))),
                Err(e) => Err(e),
            },
            None => Ok(Value::Absent),
        },
        Shape::Record(name, fields) => match decode_record_head(exp, name.as_str()) {
            Ok(items) => {
                assert(decreases_to!(*shape => *fields)) by {
                    assert(decreases_to!(*shape => shape->Record_1));
                }
                match decode_record(items, fields) {
                    Ok(values) => Ok(Value::Record(name.clone(), values)),
                    Err(e) => Err(e),
                }
            },
            Err(e) => Err(e),
        },
        Shape::Tuple(name, shapes) => match decode_tuple_struct(
            exp,
            name.as_str(),
            shapes.len(),
        ) {
            Ok(items) => {
                assert(decreases_to!(*shape => *shapes)) by {
                    assert(decreases_to!(*shape => shape->Tuple_1));
                }
                assert(trees(items@).len() == items@.len());
                match decode_places(items, shapes) {
                    Ok(values) => Ok(Value::Tuple(name.clone(), values)),
                    Err(e) => Err(e),
                }
            },
            Err(e) => Err(e),
        },
        Shape::Enum(name, variants) => {
            let mut declared: Vec<&str> = Vec::new();
            let mut i: usize = 0;
            while i < variants.len()
                invariant
                    i <= variants.len(),
                    declared.len() == i,
                    forall|j: int| 0 <= j < i ==> declared@[j]@ == variants@[j].0@,
                decreases variants.len() - i,
            {
                declared.push(variants[i].0.as_str());
                i = i + 1;
            }
            assert(names(declared@) =~= variant_names(variants@));
            match decode_enum(exp, name.as_str(), declared.as_slice()) {
                Ok((at, payload)) => {
                    assert(decreases_to!(*shape => variants[at as int].1)) by {
                        assert(decreases_to!(*shape => shape->Enum_1));
                        vstd::std_specs::vec::axiom_vec_index_decreases(*variants, at as int);
                        assert(decreases_to!(variants[at as int] => variants[at as int].1));
                    }
                    decode_payload(payload, &variants[at].0, &variants[at].1)
                },
                Err(e) => Err(e),
            }
        },
    }
}

/// Reads each item of a sequence under the shape `inner`.
fn decode_each(items: Vec<Sexp>, inner: &Shape) -> (r: Result<Vec<Value>, DecodeError>)
    ensures
        is_read_each(r, read_each(trees(items@), items@.len(), *inner)),
    decreases inner, 1nat,
{
    let mut left = items;
    let ghost all = trees(items@);
    let n = left.len();
    let mut values: Vec<Value> = Vec::new();
    let mut i: usize = 0;
    assert(vals(values@) =~= Seq::<Val>::empty());
    while i < n
        invariant
            i <= n,
            n == left.len(),
            n == items.len(),
            all == trees(items@),
            forall|j: int| i <= j < n ==> left@[j]@ == #[trigger] all[j],
            read_each(all, i as nat, *inner) == Ok::<Seq<Val>, DecodeErrorView>(vals(values@)),
        decreases n - i,
    {
        let mut item = Sexp::Empty;
        std::mem::swap(&mut item, &mut left[i]);
        assert(item@ == all[i as int]);
        proof {
            if read_each(all, (i + 1) as nat, *inner) is Err {
                lemma_read_each_fault_stays(all, (i + 1) as nat, n as nat, *inner);
            }
        }
        match decode(item, inner) {
            Ok(v) => {
                let ghost before = vals(values@);
                values.push(v);
                assert(vals(values@) =~= before.push(values@.last()@));
            },
            Err(e) => {
                return Err(e);
            },
        }
        i = i + 1;
    }
    Ok(values)
}

/// Reads each item of a tuple under the shape of its place.
fn decode_places(items: Vec<Sexp>, shapes: &Vec<Shape>) -> (r: Result<Vec<Value>, DecodeError>)
    requires
        items@.len() == shapes@.len(),
    ensures
        is_read_each(r, read_places(trees(items@), items@.len(), shapes@)),
    decreases shapes, 1nat,
{
    let mut left = items;
    let ghost all = trees(items@);
    let n = left.len();
    let mut values: Vec<Value> = Vec::new();
    let mut i: usize = 0;
    assert(vals(values@) =~= Seq::<Val>::empty());
    while i < n
        invariant
            i <= n,
            n == left.len(),
            n == items.len(),
            n == shapes.len(),
            all == trees(items@),
            all.len() == n,
            forall|j: int| i <= j < n ==> left@[j]@ == #[trigger] all[j],
            read_places(all, i as nat, shapes@) == Ok::<Seq<Val>, DecodeErrorView>(
                vals(values@),
            ),
        decreases n - i,
    {
        let mut item = Sexp::Empty;
        std::mem::swap(&mut item, &mut left[i]);
        assert(item@ == all[i as int]);
        proof {
            if read_places(all, (i + 1) as nat, shapes@) is Err {
                lemma_read_places_fault_stays(all, (i + 1) as nat, n as nat, shapes@);
            }
            vstd::std_specs::vec::axiom_vec_index_decreases(*shapes, i as int);
        }
        match decode(item, &shapes[i]) {
            Ok(v) => {
                let ghost before = vals(values@);
                values.push(v);
                assert(vals(values@) =~= before.push(values@.last()@));
            },
            Err(e) => {
                let mut place = String::new();
                push_decimal(&mut place, i as u64);
                assert(place@ =~= decimal(i as nat));
                return Err(e.within(place.as_str()));
            },
        }
        i = i + 1;
    }
    Ok(values)
}

/// The first place at which `key` stands among the names of the fields.
fn find_field(fields: &Vec<(String, Shape)>, key: &str) -> (r: Option<usize>)
    ensures
        match index_of(shape_names(fields@), key@, 0) {
            Some(j) => r matches Some(at) && at == j && 0 <= j < fields@.len(),
            None => r is None,
        },
{
    let mut i: usize = 0;
    while i < fields.len()
        invariant
            i <= fields.len(),
            index_of(shape_names(fields@), key@, 0) == index_of(
                shape_names(fields@),
                key@,
                i as int,
            ),
        decreases fields.len() - i,
    {
        assert(shape_names(fields@)[i as int] == fields@[i as int].0@);
        if same_text(fields[i].0.as_str(), key) {
            return Some(i);
        }
        i = i + 1;
    }
    None
}

/// Reads the items that follow the name of a record as its fields.
fn decode_record(items: Vec<Sexp>, fields: &Vec<(String, Shape)>) -> (r: Result<
    Vec<(String, Value)>,
    DecodeError,
>)
    ensures
        is_read_record(r, read_record(trees(items@), fields@)),
    decreases fields, 1nat,
{
    let mut left = items;
    let ghost all = trees(items@);
    let n = left.len();
    assert(all.len() == n);
    let mut found: Vec<Option<Value>> = Vec::new();
    let mut k: usize = 0;
    while k < fields.len()
        invariant
            k <= fields.len(),
            found.len() == k,
            forall|j: int| 0 <= j < k ==> found@[j] is None,
        decreases fields.len() - k,
    {
        found.push(None);
        k = k + 1;
    }
    assert(option_vals(found@) =~= Seq::new(fields@.len(), |j: int| None::<Val>));
    let mut i: usize = 0;
    while i < n
        invariant
            i <= n,
            n == left.len(),
            n == items.len(),
            all == trees(items@),
            all.len() == n,
            forall|j: int| i <= j < n ==> left@[j]@ == #[trigger] all[j],
            found.len() == fields@.len(),
            read_fields(all, i as nat, fields@) == Ok::<Seq<Option<Val>>, DecodeErrorView>(
                option_vals(found@),
            ),
        decreases n - i,
    {
        let mut item = Sexp::Empty;
        std::mem::swap(&mut item, &mut left[i]);
        assert(item@ == all[i as int]);
        proof {
            if read_fields(all, (i + 1) as nat, fields@) is Err {
                lemma_read_fields_fault_stays(all, (i + 1) as nat, n as nat, fields@);
            }
        }
        let (name, value) = match decode_field(item) {
            Ok(field) => field,
            Err(e) => {
                return Err(e);
            },
        };
        match find_field(fields, name.as_str()) {
            None => {},
            Some(j) => {
                if found[j].is_some() {
                    let mut m = String::from_str("duplicate field ");
                    m.append(name.as_str());
                    return Err(DecodeError::new(m));
                }
                proof {
                    vstd::std_specs::vec::axiom_vec_index_decreases(*fields, j as int);
                    assert(decreases_to!(fields[j as int] => fields[j as int].1));
                }
                match decode(value, &fields[j].1) {
                    Ok(v) => {
                        let ghost before = option_vals(found@);
                        found[j] = Some(v);
                        assert(option_vals(found@) =~= before.update(j as int, Some(v@)));
                    },
                    Err(e) => {
                        return Err(e.within(name.as_str()));
                    },
                }
            },
        }
        i = i + 1;
    }
    let ghost read = option_vals(found@);
    let mut values: Vec<(String, Value)> = Vec::new();
    let mut j: usize = 0;
    assert(named_vals(values@) =~= Seq::<(Seq<char>, Val)>::empty());
    while j < fields.len()
        invariant
            j <= fields.len(),
            found.len() == fields@.len(),
            read.len() == fields@.len(),
            n == items.len(),
            all == trees(items@),
            read_fields(all, n as nat, fields@) == Ok::<Seq<Option<Val>>, DecodeErrorView>(read),
            forall|k: int| j <= k < fields@.len() ==> #[trigger] option_vals(found@)[k] == read[k],
            fill_missing(read, fields@, j as nat) == Ok::<
                Seq<(Seq<char>, Val)>,
                DecodeErrorView,
            >(named_vals(values@)),
        decreases fields.len() - j,
    {
        let mut slot: Option<Value> = None;
        assert(option_vals(found@)[j as int] == read[j as int]);
        let ghost held = found@;
        std::mem::swap(&mut slot, &mut found[j]);
        assert forall|k: int| j < k < fields@.len() implies #[trigger] option_vals(found@)[k]
            == read[k] by {
            assert(option_vals(held)[k] == read[k]);
        }
        proof {
            if fill_missing(read, fields@, (j + 1) as nat) is Err {
                lemma_fill_missing_fault_stays(
                    read,
                    fields@,
                    (j + 1) as nat,
                    fields@.len() as nat,
                );
            }
        }
        let name = fields[j].0.clone();
        let ghost before = named_vals(values@);
        match slot {
            Some(v) => {
                values.push((name, v));
                assert(named_vals(values@) =~= before.push(
                    (values@.last().0@, values@.last().1@),
                ));
            },
            None => {
                match &fields[j].1 {
                    Shape::Optional(_) => {
                        values.push((name, Value::Absent));
                        assert(named_vals(values@) =~= before.push(
                            (values@.last().0@, Val::Absent),
                        ));
                    },
                    _ => {
                        let mut m = String::from_str("missing field ");
                        m.append(name.as_str());
                        return Err(DecodeError::new(m).within(name.as_str()));
                    },
                }
            },
        }
        j = j + 1;
    }
    Ok(values)
}

fn wrong_payload_fault<T>(name: &str) -> (r: Result<T, DecodeError>)
    ensures
        r matches Err(e) && e@ == at_top(wrong_payload(name@)),
{
    let mut m = String::from_str("wrong number of elements in variant ");
    m.append(name);
    Err(DecodeError::new(m))
}

/// Reads the items that follow the name of a variant as its payload.
fn decode_payload(payload: Vec<Sexp>, name: &String, shape: &Payload) -> (r: Result<
    Value,
    DecodeError,
>)
    ensures
        is_read(r, read_payload(trees(payload@), name@, *shape)),
    decreases shape, 0nat,
{
    assert(trees(payload@).len() == payload@.len());
    match shape {
        Payload::Unit => {
            if payload.len() == 0 {
                Ok(Value::UnitVariant(name.clone()))
            } else {
                wrong_payload_fault(name.as_str())
            }
        },
        Payload::Newtype(inner) => {
            let mut payload = payload;
            if payload.len() == 1 {
                assert(trees(payload@)[0] == payload@[0]@);
                let item = payload.pop().unwrap();
                match decode(item, inner) {
                    Ok(v) => Ok(Value::NewtypeVariant(name.clone(), Box::new(v))),
                    Err(e) => Err(e),
                }
            } else {
                wrong_payload_fault(name.as_str())
            }
        },
        Payload::Tuple(shapes) => {
            if payload.len() == shapes.len() {
                assert(decreases_to!(*shape => *shapes)) by {
                    assert(decreases_to!(*shape => shape->Tuple_0));
                }
                match decode_places(payload, shapes) {
                    Ok(values) => Ok(Value::TupleVariant(name.clone(), values)),
                    Err(e) => Err(e),
                }
            } else {
                wrong_payload_fault(name.as_str())
            }
        },
        Payload::Record(fields) => {
            assert(decreases_to!(*shape => *fields)) by {
                assert(decreases_to!(*shape => shape->Record_0));
            }
            match decode_record(payload, fields) {
                Ok(values) => Ok(Value::RecordVariant(name.clone(), values)),
                Err(e) => Err(e),
            }
        },
    }
}

/// Each item of a vector of values is smaller than the vector.
proof fn lemma_value_smaller(items: &Vec<Value>, i: int)
    requires
        0 <= i < items.len(),
    ensures
        decreases_to!(*items => items[i]),
{
    vstd::std_specs::vec::axiom_vec_index_decreases(*items, i);
}

/// The value of each field of a vector of fields is smaller than the
/// vector.
proof fn lemma_field_smaller(fields: &Vec<(String, Value)>, i: int)
    requires
        0 <= i < fields.len(),
    ensures
        decreases_to!(*fields => fields[i].1),
{
    vstd::std_specs::vec::axiom_vec_index_decreases(*fields, i);
    assert(decreases_to!(fields[i] => fields[i].1));
}

/// Writes each value as an expression.
fn encode_each(items: &Vec<Value>) -> (r: Vec<Sexp>)
    ensures
        trees(r@) == written_each(vals(items@), items@.len()),
    decreases items, 0nat,
{
    let mut out: Vec<Sexp> = Vec::new();
    let mut i: usize = 0;
    assert(trees(out@) =~= Seq::<Tree>::empty());
    assert(vals(items@).len() == items@.len());
    while i < items.len()
        invariant
            i <= items.len(),
            vals(items@).len() == items@.len(),
            trees(out@) == written_each(vals(items@), i as nat),
        decreases items.len() - i,
    {
        proof {
            lemma_value_smaller(items, i as int);
            assert(vals(items@)[i as int] == items@[i as int]@);
        }
        let e = encode(&items[i]);
        let ghost before = trees(out@);
        out.push(e);
        assert(trees(out@) =~= before.push(out@.last()@));
        i = i + 1;
    }
    out
}

/// Adds a pair `(name value)` to `out` for each field but the absent
/// ones.
fn encode_fields(out: &mut Vec<Sexp>, fields: &Vec<(String, Value)>)
    ensures
        trees(final(out)@) == trees(old(out)@) + written_fields(
            named_vals(fields@),
            fields@.len(),
        ),
    decreases fields, 0nat,
{
    let mut i: usize = 0;
    assert(trees(out@) =~= trees(old(out)@) + Seq::<Tree>::empty());
    assert(named_vals(fields@).len() == fields@.len());
    while i < fields.len()
        invariant
            i <= fields.len(),
            named_vals(fields@).len() == fields@.len(),
            trees(out@) == trees(old(out)@) + written_fields(named_vals(fields@), i as nat),
        decreases fields.len() - i,
    {
        proof {
            lemma_field_smaller(fields, i as int);
            assert(named_vals(fields@)[i as int] == (
                fields@[i as int].0@,
                fields@[i as int].1@,
            ));
        }
        match &fields[i].1 {
            Value::Absent => {},
            value => {
                let e = encode(value);
                let mut both: Vec<Sexp> = Vec::new();
                both.push(Sexp::Symbol(fields[i].0.clone()));
                both.push(e);
                assert(trees(both@) =~= seq![Tree::Sym(fields@[i as int].0@), e@]);
                let ghost before = trees(out@);
                out.push(Sexp::List(both));
                assert(trees(out@) =~= before.push(out@.last()@));
            },
        }
        i = i + 1;
    }
}

/// A list that starts with the `Symbol` `head` and goes on with `items`.
fn list_under(head: String, items: Vec<Sexp>) -> (r: Sexp)
    ensures
        r@ == headed(head@, trees(items@)),
{
    let mut v: Vec<Sexp> = Vec::new();
    v.push(Sexp::Symbol(head));
    let mut items = items;
    let ghost tail = trees(items@);
    v.append(&mut items);
    assert(trees(v@) =~= seq![Tree::Sym(head@)] + tail);
    Sexp::List(v)
}

/// Writes a value as an expression.
///
/// A record is written under its name in lower case, with a pair
/// `(field value)` for each field but the absent ones; a tuple struct
/// under its name, with its items in order; a variant as its name alone
/// or as a list under its name; a sequence as a list; text and numbers as
/// tokens. An absent value that stands in no record is written as the
/// empty expression.
pub fn encode(value: &Value) -> (r: Sexp)
    ensures
        r@ == written(value@),
    decreases value, 1nat,
{
    match value {
        Value::Text(s) => Sexp::Symbol(s.clone()),
        Value::Integer(n) => Sexp::Symbol(integer_text(*n)),
        Value::Boolean(b) => {
            if *b {
                Sexp::Symbol(String::from_str("true"))
            } else {
                Sexp::Symbol(String::from_str("false"))
            }
        },
        Value::Sequence(items) => {
            assert(decreases_to!(*value => *items)) by {
                assert(decreases_to!(*value => value->Sequence_0));
            }
            Sexp::List(encode_each(items))
        },
        Value::Absent => Sexp::Empty,
        Value::Present(inner) => encode(inner),
        Value::Record(name, fields) => {
            assert(decreases_to!(*value => *fields)) by {
                assert(decreases_to!(*value => value->Record_1));
            }
            let mut v: Vec<Sexp> = Vec::new();
            v.push(Sexp::Symbol(to_lowercase(name.as_str())));
            assert(trees(v@) =~= seq![Tree::Sym(lowercase(name@))]);
            encode_fields(&mut v, fields);
            Sexp::List(v)
        },
        Value::Tuple(name, items) => {
            assert(decreases_to!(*value => *items)) by {
                assert(decreases_to!(*value => value->Tuple_1));
            }
            list_under(name.clone(), encode_each(items))
        },
        Value::UnitVariant(name) => Sexp::Symbol(name.clone()),
        Value::NewtypeVariant(name, inner) => {
            let mut payload: Vec<Sexp> = Vec::new();
            payload.push(encode(inner));
            assert(trees(payload@) =~= seq![written((**inner)@)]);
            list_under(name.clone(), payload)
        },
        Value::TupleVariant(name, items) => {
            assert(decreases_to!(*value => *items)) by {
                assert(decreases_to!(*value => value->TupleVariant_1));
            }
            list_under(name.clone(), encode_each(items))
        },
        Value::RecordVariant(name, fields) => {
            assert(decreases_to!(*value => *fields)) by {
                assert(decreases_to!(*value => value->RecordVariant_1));
            }
            let mut v: Vec<Sexp> = Vec::new();
            v.push(Sexp::Symbol(name.clone()));
            assert(trees(v@) =~= seq![Tree::Sym(name@)]);
            encode_fields(&mut v, fields);
            Sexp::List(v)
        },
    }
}

} // verus!
