//! From the parts of a typed value to a symbolic expression: the reverse
//! of reading the shapes.

use crate::builder::pair;
use crate::sexp::{trees, Sexp, Tree};
use crate::text::{integer_text, lowercase, signed_decimal, to_lowercase};
use vstd::prelude::*;

verus! {

/// Text as a token.
pub fn encode_text(s: &str) -> (r: Sexp)
    ensures
        r@ == Tree::Sym(s@),
{
    Sexp::Symbol(String::from_str(s))
}

/// An integer as a token: its decimal digits, after `-` if it is
/// negative.
pub fn encode_i64(n: i64) -> (r: Sexp)
    ensures
        r@ == Tree::Sym(signed_decimal(n as int)),
{
    Sexp::Symbol(integer_text(n))
}

/// A truth value as a token: `true` or `false`.
pub fn encode_bool(b: bool) -> (r: Sexp)
    ensures
        r@ == Tree::Sym(
            if b {
                "true"@
            } else {
                "false"@
            },
        ),
{
    if b {
        Sexp::Symbol(String::from_str("true"))
    } else {
        Sexp::Symbol(String::from_str("false"))
    }
}

/// The value without parts as the empty expression.
pub fn encode_unit() -> (r: Sexp)
    ensures
        r@ == Tree::Empty,
{
    Sexp::Empty
}

/// A sequence as the list of its items, in order.
pub fn encode_seq(items: Vec<Sexp>) -> (r: Sexp)
    ensures
        r == Sexp::List(items),
{
    Sexp::List(items)
}

/// The fields of a record, as their names and values.
pub open spec fn field_trees(s: Seq<(&str, Option<Sexp>)>) -> Seq<(Seq<char>, Option<Tree>)> {
    Seq::new(
        s.len(),
        |i: int|
            (
                s[i].0@,
                match s[i].1 {
                    Some(e) => Some(e@),
                    None => None,
                },
            ),
    )
}

/// The first `n` fields as they are written: a pair `(name value)` for
/// each field that has a value, in order, and nothing for the others.
pub open spec fn fields_written(fields: Seq<(Seq<char>, Option<Tree>)>, n: nat) -> Seq<Tree>
    decreases n,
{
    if n == 0 || n > fields.len() {
        Seq::empty()
    } else {
        match fields[n - 1].1 {
            Some(value) => fields_written(fields, (n - 1) as nat).push(
                pair(fields[n - 1].0, value),
            ),
            None => fields_written(fields, (n - 1) as nat),
        }
    }
}

/// A list that starts with the `Symbol` `head` and goes on with `items`.
pub open spec fn headed(head: Seq<char>, items: Seq<Tree>) -> Tree {
    Tree::List(seq![Tree::Sym(head)] + items)
}

/// Adds the fields that have a value to `out`, each as a pair.
fn push_fields(out: &mut Vec<Sexp>, fields: Vec<(&str, Option<Sexp>)>)
    ensures
        trees(final(out)@) == trees(old(out)@) + fields_written(
            field_trees(fields@),
            fields@.len(),
        ),
{
    let mut left = fields;
    let ghost all = field_trees(fields@);
    let n = left.len();
    let mut i: usize = 0;
    assert(trees(out@) =~= trees(old(out)@) + Seq::<Tree>::empty());
    while i < n
        invariant
            i <= n,
            n == left.len(),
            all.len() == n,
            forall|j: int| i <= j < n ==> #[trigger] field_trees(left@)[j] == all[j],
            trees(out@) == trees(old(out)@) + fields_written(all, i as nat),
        decreases n - i,
    {
        let mut field: (&str, Option<Sexp>) = ("", None);
        assert(field_trees(left@)[i as int] == all[i as int]);
        let ghost before = left@;
        std::mem::swap(&mut field, &mut left[i]);
        assert forall|j: int| i < j < n implies #[trigger] field_trees(left@)[j] == all[j] by {
            assert(field_trees(before)[j] == all[j]);
        }
        let (name, value) = field;
        match value {
            Some(e) => {
                let mut p: Vec<Sexp> = Vec::new();
                p.push(Sexp::Symbol(String::from_str(name)));
                p.push(e);
                assert(trees(p@) =~= seq![Tree::Sym(name@), e@]);
                let ghost written = trees(out@);
                out.push(Sexp::List(p));
                assert(trees(out@) =~= written.push(pair(name@, e@)));
                assert(trees(out@) =~= trees(old(out)@) + fields_written(all, (i + 1) as nat));
            },
            None => {},
        }
        i = i + 1;
    }
}

/// A record as a list: the name of the type in lower case, then a pair
/// `(field value)` for each field that has a value, in order. A field
/// without a value is left out.
pub fn encode_struct(name: &str, fields: Vec<(&str, Option<Sexp>)>) -> (r: Sexp)
    ensures
        r@ == headed(lowercase(name@), fields_written(field_trees(fields@), fields@.len())),
{
    let mut v: Vec<Sexp> = Vec::new();
    v.push(Sexp::Symbol(to_lowercase(name)));
    assert(trees(v@) =~= seq![Tree::Sym(lowercase(name@))]);
    push_fields(&mut v, fields);
    Sexp::List(v)
}

/// A tuple struct as a list: the name of the type, then its values in
/// order.
pub fn encode_tuple_struct(name: &str, values: Vec<Sexp>) -> (r: Sexp)
    ensures
        r@ == headed(name@, trees(values@)),
{
    encode_variant(name, values)
}

/// A variant without payload as the `Symbol` of its name.
pub fn encode_unit_variant(name: &str) -> (r: Sexp)
    ensures
        r@ == Tree::Sym(name@),
{
    Sexp::Symbol(String::from_str(name))
}

/// A variant with a payload as a list: the name of the variant, then the
/// items of the payload in order.
pub fn encode_variant(name: &str, payload: Vec<Sexp>) -> (r: Sexp)
    ensures
        r@ == headed(name@, trees(payload@)),
{
    let mut v: Vec<Sexp> = Vec::new();
    v.push(Sexp::Symbol(String::from_str(name)));
    let mut payload = payload;
    let ghost items = trees(payload@);
    v.append(&mut payload);
    assert(trees(v@) =~= seq![Tree::Sym(name@)] + items);
    Sexp::List(v)
}

/// A variant with named fields as a list: the name of the variant, then a
/// pair `(field value)` for each field that has a value, in order.
pub fn encode_struct_variant(name: &str, fields: Vec<(&str, Option<Sexp>)>) -> (r: Sexp)
    ensures
        r@ == headed(name@, fields_written(field_trees(fields@), fields@.len())),
{
    let mut v: Vec<Sexp> = Vec::new();
    v.push(Sexp::Symbol(String::from_str(name)));
    assert(trees(v@) =~= seq![Tree::Sym(name@)]);
    push_fields(&mut v, fields);
    Sexp::List(v)
}

} // verus!
