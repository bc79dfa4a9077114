//! Reading back what was written, shape by shape: what the encoder makes
//! of the parts of a value, the decoder takes apart into the same parts.

use crate::builder::pair;
use crate::codec::{
    fill_missing, read, read_each, read_fields, read_payload, read_places, read_record,
    shape_names, variant_names, written, written_each, written_fields,
};
use crate::decode::{
    enum_read, fields_read, index_of, is_field, record_items, same_name, struct_read,
    tuple_read, variant_of, DecodeErrorView,
};
use crate::encode::{fields_written, headed};
use crate::sexp::Tree;
use crate::text::{
    decimal, digit_char, digit_value, digits_value, integer_value, lowercase, signed_decimal,
};
use crate::value::{Payload, Shape, Val};
use vstd::prelude::*;

verus! {

/// The digits of a number stand for the number.
pub proof fn lemma_decimal_reads_back(n: nat)
    ensures
        decimal(n).len() > 0,
        digit_value(decimal(n)[0]) is Some,
        digits_value(decimal(n)) == Some(n),
    decreases n,
{
    if n >= 10 {
        lemma_decimal_reads_back(n / 10);
        let s = decimal(n / 10);
        let c = digit_char(n % 10);
        assert(s.push(c).drop_last() =~= s);
        assert(s.push(c)[0] == s[0]);
    }
}

/// An integer that is written as text and read as an integer again is the
/// same integer.
pub proof fn lemma_integer_reads_back(n: int)
    ensures
        integer_value(signed_decimal(n)) == Some(n),
{
    if n < 0 {
        let d = decimal((-n) as nat);
        lemma_decimal_reads_back((-n) as nat);
        let s = seq!['-'] + d;
        assert(s.subrange(1, s.len() as int) =~= d);
    } else {
        lemma_decimal_reads_back(n as nat);
    }
}

/// The tokens of the two truth values differ.
pub proof fn lemma_truth_tokens_differ()
    ensures
        "true"@ != "false"@,
{
    reveal_strlit("true");
    reveal_strlit("false");
    assert("true"@.len() == 4);
    assert("false"@.len() == 5);
}

/// A tuple struct that is written under a name and read under a name that
/// is the same but for the case of its letters gives its values back.
pub proof fn lemma_tuple_reads_back(written: Seq<char>, name: Seq<char>, values: Seq<Tree>)
    ensures
        same_name(name, written) ==> tuple_read(headed(written, values), name, values.len())
            == Ok::<Seq<Tree>, Seq<char>>(values),
{
    let l = seq![Tree::Sym(written)] + values;
    assert(l.subrange(1, l.len() as int) =~= values);
}

/// A variant without payload that is written and read gives its place
/// among the variants back, where no variant before it has the same name
/// but for the case of the letters.
pub proof fn lemma_unit_variant_reads_back(
    variants: Seq<Seq<char>>,
    i: int,
    name: Seq<char>,
)
    requires
        0 <= i < variants.len(),
    ensures
        variant_of(variants, variants[i]) == Some(i) ==> enum_read(
            Tree::Sym(variants[i]),
            name,
            variants,
        ) == Ok::<(int, Seq<Tree>), Seq<char>>((i, Seq::empty())),
{
}

/// A variant with a payload that is written and read gives its place
/// among the variants and its payload back, where no variant before it
/// has the same name but for the case of the letters.
pub proof fn lemma_variant_reads_back(
    variants: Seq<Seq<char>>,
    i: int,
    name: Seq<char>,
    payload: Seq<Tree>,
)
    requires
        0 <= i < variants.len(),
    ensures
        variant_of(variants, variants[i]) == Some(i) ==> enum_read(
            headed(variants[i], payload),
            name,
            variants,
        ) == Ok::<(int, Seq<Tree>), Seq<char>>((i, payload)),
{
    let l = seq![Tree::Sym(variants[i])] + payload;
    assert(l.subrange(1, l.len() as int) =~= payload);
}

/// The names of the fields.
pub open spec fn field_names(fields: Seq<(Seq<char>, Option<Tree>)>) -> Seq<Seq<char>> {
    Seq::new(fields.len(), |i: int| fields[i].0)
}

/// The values of the first `n` fields, and none for the others.
pub open spec fn field_values(fields: Seq<(Seq<char>, Option<Tree>)>, n: nat) -> Seq<Option<Tree>> {
    Seq::new(
        fields.len(),
        |i: int|
            if i < n {
                fields[i].1
            } else {
                None
            },
    )
}

/// No name stands twice.
pub open spec fn distinct(names: Seq<Seq<char>>) -> bool {
    forall|i: int, j: int| 0 <= i < j < names.len() ==> names[i] != names[j]
}

proof fn lemma_index_of_distinct(names: Seq<Seq<char>>, n: int, from: int)
    requires
        distinct(names),
        0 <= from <= n < names.len(),
    ensures
        index_of(names, names[n], from) == Some(n),
    decreases n - from,
{
    if from < n {
        lemma_index_of_distinct(names, n, from + 1);
    }
}

/// Reading the first items of a record does not depend on the items that
/// follow them.
proof fn lemma_fields_read_prefix(
    items: Seq<Tree>,
    more: Seq<Tree>,
    n: nat,
    names: Seq<Seq<char>>,
)
    requires
        n <= items.len(),
        items.len() <= more.len(),
        more.subrange(0, items.len() as int) == items,
    ensures
        fields_read(more, n, names) == fields_read(items, n, names),
    decreases n,
{
    if n > 0 {
        lemma_fields_read_prefix(items, more, (n - 1) as nat, names);
        assert(more[n - 1] == more.subrange(0, items.len() as int)[n - 1]);
    }
}

/// The first `n` fields of a record, written and read under their names,
/// give their values back, where no name stands twice.
pub proof fn lemma_fields_read_back(fields: Seq<(Seq<char>, Option<Tree>)>, n: nat)
    requires
        distinct(field_names(fields)),
        n <= fields.len(),
    ensures
        fields_read(
            fields_written(fields, n),
            fields_written(fields, n).len(),
            field_names(fields),
        ) == Ok::<Seq<Option<Tree>>, Seq<char>>(field_values(fields, n)),
    decreases n,
{
    let names = field_names(fields);
    if n == 0 {
        assert(field_values(fields, 0) =~= Seq::new(names.len(), |j: int| None::<Tree>));
    } else {
        lemma_fields_read_back(fields, (n - 1) as nat);
        let before = fields_written(fields, (n - 1) as nat);
        let found = field_values(fields, (n - 1) as nat);
        match fields[n - 1].1 {
            None => {
                assert(field_values(fields, n) =~= found);
            },
            Some(value) => {
                let item = pair(fields[n - 1].0, value);
                let now = before.push(item);
                assert(now.subrange(0, before.len() as int) =~= before);
                lemma_fields_read_prefix(before, now, before.len(), names);
                assert(is_field(item));
                assert(item->List_0[0]->Sym_0 == names[n - 1]);
                lemma_index_of_distinct(names, n - 1, 0);
                assert(found[n - 1] is None);
                assert(field_values(fields, n) =~= found.update(n - 1, Some(value)));
            },
        }
    }
}

/// A record that is written and read gives the values of its fields back,
/// and none for each field that has none: where no name of a field stands
/// twice, and where the name under which it was written, which is in
/// lower case, is the name of the type but for the case of the letters.
pub proof fn lemma_struct_reads_back(name: Seq<char>, fields: Seq<(Seq<char>, Option<Tree>)>)
    requires
        distinct(field_names(fields)),
    ensures
        same_name(name, lowercase(name)) ==> struct_read(
            headed(lowercase(name), fields_written(fields, fields.len())),
            name,
            field_names(fields),
        ) == Ok::<Seq<Option<Tree>>, Seq<char>>(field_values(fields, fields.len())),
{
    let items = fields_written(fields, fields.len());
    let l = seq![Tree::Sym(lowercase(name))] + items;
    assert(l.subrange(1, l.len() as int) =~= items);
    lemma_fields_read_back(fields, fields.len());
}

/// A value that is written as something: not the absent value, and not a
/// present value that holds one.
pub open spec fn is_written(v: Val) -> bool
    decreases v,
{
    match v {
        Val::Absent => false,
        Val::Present(inner) => is_written(*inner),
        _ => true,
    }
}

/// The name of a variant.
pub open spec fn variant_name(v: Val) -> Option<Seq<char>> {
    match v {
        Val::UnitVariant(name) => Some(name),
        Val::NewtypeVariant(name, _) => Some(name),
        Val::TupleVariant(name, _) => Some(name),
        Val::RecordVariant(name, _) => Some(name),
        _ => None,
    }
}

/// A value of a shape, as reading gives it: text, numbers that fit, and
/// parts of the shapes of their places, under the names that the shape
/// declares. A present value holds something that is written; the names
/// of the fields of a record differ; the name of a record, put in lower
/// case, is still the name but for the case of its letters; and a variant
/// is the first of its enum that has its name but for the case of the
/// letters.
pub open spec fn fits(v: Val, shape: Shape) -> bool
    decreases shape, 0nat,
{
    match shape {
        Shape::Text => v is Text,
        Shape::Integer => v matches Val::Integer(n) && i64::MIN <= n <= i64::MAX,
        Shape::Boolean => v is Boolean,
        Shape::Sequence(inner) => v matches Val::Sequence(items) && (forall|i: int|
            0 <= i < items.len() ==> fits(#[trigger] items[i], *inner)),
        Shape::Optional(inner) => v is Absent || (v matches Val::Present(x) && is_written(*x)
            && fits(*x, *inner)),
        Shape::Record(name, fields) => v matches Val::Record(n, values) && n == name@
            && same_name(name@, lowercase(name@)) && fits_fields(values, fields@),
        Shape::Tuple(name, shapes) => v matches Val::Tuple(n, items) && n == name@ && fits_places(
            items,
            shapes@,
        ),
        Shape::Enum(name, variants) => match variant_name(v) {
            Some(n) => match variant_of(variant_names(variants@), n) {
                Some(i) => 0 <= i < variants@.len() && variants@[i].0@ == n && fits_payload(
                    v,
                    variants@[i].1,
                ),
                None => false,
            },
            None => false,
        },
    }
}

/// Values that fit the shapes of their places.
pub open spec fn fits_places(items: Seq<Val>, shapes: Seq<Shape>) -> bool
    decreases shapes, 0nat,
{
    items.len() == shapes.len() && (forall|i: int|
        0 <= i < shapes.len() ==> fits(#[trigger] items[i], shapes[i]))
}

/// Values that fit the shapes of their fields, under the names of the
/// fields, which differ.
pub open spec fn fits_fields(values: Seq<(Seq<char>, Val)>, fields: Seq<(String, Shape)>) -> bool
    decreases fields, 0nat,
{
    &&& values.len() == fields.len()
    &&& distinct(shape_names(fields))
    &&& forall|i: int|
        0 <= i < fields.len() ==> (#[trigger] values[i]).0 == fields[i].0@ && fits(
            values[i].1,
            fields[i].1,
        )
}

/// A variant whose payload fits the shape of the payload.
pub open spec fn fits_payload(v: Val, shape: Payload) -> bool
    decreases shape, 0nat,
{
    match shape {
        Payload::Unit => v is UnitVariant,
        Payload::Newtype(inner) => v matches Val::NewtypeVariant(_, x) && fits(*x, inner),
        Payload::Tuple(shapes) => v matches Val::TupleVariant(_, items) && fits_places(
            items,
            shapes@,
        ),
        Payload::Record(fields) => v matches Val::RecordVariant(_, values) && fits_fields(
            values,
            fields@,
        ),
    }
}

/// A value is written as the empty expression exactly if it is not
/// written as something.
pub proof fn lemma_written_empty(v: Val)
    ensures
        written(v) is Empty <==> !is_written(v),
    decreases v,
{
    match v {
        Val::Present(inner) => {
            lemma_written_empty(*inner);
        },
        _ => {},
    }
}

proof fn lemma_written_each(items: Seq<Val>, n: nat)
    requires
        n <= items.len(),
    ensures
        written_each(items, n).len() == n,
        forall|i: int| 0 <= i < n ==> #[trigger] written_each(items, n)[i] == written(items[i]),
    decreases n,
{
    if n > 0 {
        lemma_written_each(items, (n - 1) as nat);
    }
}

/// The values of the fields that are written among the first `n`.
spec fn found_among(values: Seq<(Seq<char>, Val)>, n: nat) -> Seq<Option<Val>> {
    Seq::new(
        values.len(),
        |j: int|
            if j < n && !(values[j].1 is Absent) {
                Some(values[j].1)
            } else {
                None
            },
    )
}

proof fn lemma_read_fields_prefix(
    items: Seq<Tree>,
    more: Seq<Tree>,
    n: nat,
    fields: Seq<(String, Shape)>,
)
    requires
        n <= items.len(),
        items.len() <= more.len(),
        more.subrange(0, items.len() as int) == items,
    ensures
        read_fields(more, n, fields) == read_fields(items, n, fields),
    decreases n,
{
    if n > 0 {
        lemma_read_fields_prefix(items, more, (n - 1) as nat, fields);
        assert(more[n - 1] == more.subrange(0, items.len() as int)[n - 1]);
    }
}

/// A value that is written and read under its shape is read as the value
/// itself.
pub proof fn lemma_value_reads_back(v: Val, shape: Shape)
    requires
        fits(v, shape),
    ensures
        read(written(v), shape) == Ok::<Val, DecodeErrorView>(v),
    decreases shape, 1nat,
{
    match shape {
        Shape::Text => {
            assert(read(written(v), shape) == Ok::<Val, DecodeErrorView>(v));
        },
        Shape::Integer => {
            lemma_integer_reads_back(v->Integer_0);
            assert(read(written(v), shape) == Ok::<Val, DecodeErrorView>(v));
        },
        Shape::Boolean => {
            lemma_truth_tokens_differ();
            assert(read(written(v), shape) == Ok::<Val, DecodeErrorView>(v));
        },
        Shape::Sequence(inner) => {
            let items = v->Sequence_0;
            lemma_each_reads_back(items, items.len(), *inner);
            lemma_written_each(items, items.len());
            assert(items.take(items.len() as int) =~= items);
            assert(read(written(v), shape) == Ok::<Val, DecodeErrorView>(v));
        },
        Shape::Optional(inner) => {
            match v {
                Val::Present(x) => {
                    lemma_written_empty(*x);
                    lemma_value_reads_back(*x, *inner);
                },
                _ => {},
            }
            assert(read(written(v), shape) == Ok::<Val, DecodeErrorView>(v));
        },
        Shape::Record(name, fields) => {
            let values = v->Record_1;
            let w = written_fields(values, values.len());
            let l = seq![Tree::Sym(lowercase(name@))] + w;
            assert(l.subrange(1, l.len() as int) =~= w);
            lemma_record_reads_back(values, fields@);
            assert(read(written(v), shape) == Ok::<Val, DecodeErrorView>(v));
        },
        Shape::Tuple(name, shapes) => {
            let items = v->Tuple_1;
            let w = written_each(items, items.len());
            lemma_written_each(items, items.len());
            let l = seq![Tree::Sym(name@)] + w;
            assert(l.subrange(1, l.len() as int) =~= w);
            lemma_places_read_back(items, items.len(), shapes@);
            assert(items.take(items.len() as int) =~= items);
            assert(read(written(v), shape) == Ok::<Val, DecodeErrorView>(v));
        },
        Shape::Enum(name, variants) => {
            let n = variant_name(v)->Some_0;
            let i = variant_of(variant_names(variants@), n)->Some_0;
            match v {
                Val::UnitVariant(_) => {},
                Val::NewtypeVariant(_, x) => {
                    let l = seq![Tree::Sym(n)] + seq![written(*x)];
                    assert(l.subrange(1, l.len() as int) =~= seq![written(*x)]);
                },
                Val::TupleVariant(_, items) => {
                    let w = written_each(items, items.len());
                    let l = seq![Tree::Sym(n)] + w;
                    assert(l.subrange(1, l.len() as int) =~= w);
                },
                Val::RecordVariant(_, values) => {
                    let w = written_fields(values, values.len());
                    let l = seq![Tree::Sym(n)] + w;
                    assert(l.subrange(1, l.len() as int) =~= w);
                },
                _ => {},
            }
            lemma_payload_reads_back(v, variants@[i].1);
            assert(read(written(v), shape) == Ok::<Val, DecodeErrorView>(v));
        },
    }
}

proof fn lemma_each_reads_back(items: Seq<Val>, n: nat, inner: Shape)
    requires
        n <= items.len(),
        forall|i: int| 0 <= i < items.len() ==> fits(#[trigger] items[i], inner),
    ensures
        read_each(written_each(items, items.len()), n, inner) == Ok::<
            Seq<Val>,
            DecodeErrorView,
        >(items.take(n as int)),
    decreases inner, n + 2,
{
    lemma_written_each(items, items.len());
    if n == 0 {
        assert(items.take(0) =~= Seq::<Val>::empty());
    } else {
        lemma_each_reads_back(items, (n - 1) as nat, inner);
        lemma_value_reads_back(items[n - 1], inner);
        assert(items.take(n as int) =~= items.take(n - 1).push(items[n - 1]));
    }
}

proof fn lemma_places_read_back(items: Seq<Val>, n: nat, shapes: Seq<Shape>)
    requires
        n <= items.len(),
        fits_places(items, shapes),
    ensures
        read_places(written_each(items, items.len()), n, shapes) == Ok::<
            Seq<Val>,
            DecodeErrorView,
        >(items.take(n as int)),
    decreases shapes, n + 2,
{
    lemma_written_each(items, items.len());
    if n == 0 {
        assert(items.take(0) =~= Seq::<Val>::empty());
    } else {
        lemma_places_read_back(items, (n - 1) as nat, shapes);
        lemma_value_reads_back(items[n - 1], shapes[n - 1]);
        assert(items.take(n as int) =~= items.take(n - 1).push(items[n - 1]));
    }
}

proof fn lemma_fields_found(values: Seq<(Seq<char>, Val)>, n: nat, fields: Seq<(String, Shape)>)
    requires
        n <= values.len(),
        fits_fields(values, fields),
    ensures
        read_fields(
            written_fields(values, n),
            written_fields(values, n).len(),
            fields,
        ) == Ok::<Seq<Option<Val>>, DecodeErrorView>(found_among(values, n)),
    decreases fields, n + 2,
{
    let names = shape_names(fields);
    if n == 0 {
        assert(found_among(values, 0) =~= Seq::new(fields.len(), |j: int| None::<Val>));
    } else {
        lemma_fields_found(values, (n - 1) as nat, fields);
        let before = written_fields(values, (n - 1) as nat);
        let found = found_among(values, (n - 1) as nat);
        let value = values[n - 1].1;
        if value is Absent {
            assert(found_among(values, n) =~= found);
        } else {
            let item = pair(values[n - 1].0, written(value));
            let now = before.push(item);
            assert(now.subrange(0, before.len() as int) =~= before);
            lemma_read_fields_prefix(before, now, before.len(), fields);
            assert(is_field(item));
            assert(item->List_0[0]->Sym_0 == names[n - 1]);
            lemma_index_of_distinct(names, n - 1, 0);
            assert(found[n - 1] is None);
            lemma_value_reads_back(value, fields[n - 1].1);
            assert(found_among(values, n) =~= found.update(n - 1, Some(value)));
        }
    }
}

proof fn lemma_fill_found(values: Seq<(Seq<char>, Val)>, n: nat, fields: Seq<(String, Shape)>)
    requires
        n <= values.len(),
        fits_fields(values, fields),
    ensures
        fill_missing(found_among(values, values.len()), fields, n) == Ok::<
            Seq<(Seq<char>, Val)>,
            DecodeErrorView,
        >(values.take(n as int)),
    decreases n,
{
    if n == 0 {
        assert(values.take(0) =~= Seq::<(Seq<char>, Val)>::empty());
    } else {
        lemma_fill_found(values, (n - 1) as nat, fields);
        assert(values.take(n as int) =~= values.take(n - 1).push(values[n - 1]));
        assert(values[n - 1].0 == fields[n - 1].0@);
        assert(fits(values[n - 1].1, fields[n - 1].1));
    }
}

proof fn lemma_record_reads_back(values: Seq<(Seq<char>, Val)>, fields: Seq<(String, Shape)>)
    requires
        fits_fields(values, fields),
    ensures
        read_record(written_fields(values, values.len()), fields) == Ok::<
            Seq<(Seq<char>, Val)>,
            DecodeErrorView,
        >(values),
    decreases fields, values.len() + 3,
{
    lemma_fields_found(values, values.len(), fields);
    lemma_fill_found(values, values.len(), fields);
    assert(values.take(values.len() as int) =~= values);
}

proof fn lemma_payload_reads_back(v: Val, shape: Payload)
    requires
        variant_name(v) is Some,
        fits_payload(v, shape),
    ensures
        read_payload(
            match v {
                Val::UnitVariant(_) => Seq::empty(),
                Val::NewtypeVariant(_, x) => seq![written(*x)],
                Val::TupleVariant(_, items) => written_each(items, items.len()),
                Val::RecordVariant(_, values) => written_fields(values, values.len()),
                _ => Seq::empty(),
            },
            variant_name(v)->Some_0,
            shape,
        ) == Ok::<Val, DecodeErrorView>(v),
    decreases shape, 1nat,
{
    match shape {
        Payload::Unit => {},
        Payload::Newtype(inner) => {
            lemma_value_reads_back(*v->NewtypeVariant_1, inner);
        },
        Payload::Tuple(shapes) => {
            let items = v->TupleVariant_1;
            lemma_written_each(items, items.len());
            lemma_places_read_back(items, items.len(), shapes@);
            assert(items.take(items.len() as int) =~= items);
        },
        Payload::Record(fields) => {
            lemma_record_reads_back(v->RecordVariant_1, fields@);
        },
    }
}

} // verus!
