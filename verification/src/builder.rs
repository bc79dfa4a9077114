//! Making expressions in a program.

use crate::sexp::{trees, Sexp, Tree};
use crate::text::integer_text;
use crate::text::signed_decimal;
use std::fmt::Display;
use vstd::prelude::*;
use vstd::string::to_string_from_display_ensures;

verus! {

/// A type whose values can be written as a symbolic expression, from a
/// reference.
pub trait IntoSexp {
    /// Whether `t` is the expression of this value. Where a type says
    /// nothing of it, any expression is.
    open spec fn gives(&self, t: Tree) -> bool {
        true
    }

    /// The expression of this value.
    fn into_sexp(&self) -> (r: Sexp)
        ensures
            self.gives(r@),
    ;
}

/// The pair `(name value)`.
pub open spec fn pair(name: Seq<char>, value: Tree) -> Tree {
    Tree::List(seq![Tree::Sym(name), value])
}

impl Into<Sexp> for Vec<Sexp> {
    fn into(self) -> (r: Sexp) {
        Sexp::List(self)
    }
}

impl vstd::std_specs::convert::IntoSpecImpl<Sexp> for Vec<Sexp> {
    open spec fn obeys_into_spec() -> bool {
        true
    }

    open spec fn into_spec(self) -> Sexp {
        Sexp::List(self)
    }
}

impl Into<Sexp> for String {
    fn into(self) -> (r: Sexp) {
        Sexp::Symbol(self)
    }
}

impl vstd::std_specs::convert::IntoSpecImpl<Sexp> for String {
    open spec fn obeys_into_spec() -> bool {
        true
    }

    open spec fn into_spec(self) -> Sexp {
        Sexp::Symbol(self)
    }
}

impl<'a> Into<Sexp> for &'a String {
    fn into(self) -> (r: Sexp) {
        Sexp::Symbol(self.clone())
    }
}

impl<'a> vstd::std_specs::convert::IntoSpecImpl<Sexp> for &'a String {
    open spec fn obeys_into_spec() -> bool {
        true
    }

    open spec fn into_spec(self) -> Sexp {
        Sexp::Symbol(*self)
    }
}

impl<'a> Into<Sexp> for &'a str {
    fn into(self) -> (r: Sexp)
        ensures
            <Sexp as View>::view(&r) == Tree::Sym(self@),
    {
        Sexp::Symbol(String::from_str(self))
    }
}

impl<'a> vstd::std_specs::convert::IntoSpecImpl<Sexp> for &'a str {
    open spec fn obeys_into_spec() -> bool {
        false
    }

    open spec fn into_spec(self) -> Sexp {
        vstd::pervasive::arbitrary()
    }
}

impl Into<Sexp> for i64 {
    fn into(self) -> (r: Sexp)
        ensures
            <Sexp as View>::view(&r) == Tree::Sym(signed_decimal(self as int)),
    {
        Sexp::Symbol(integer_text(self))
    }
}

impl vstd::std_specs::convert::IntoSpecImpl<Sexp> for i64 {
    open spec fn obeys_into_spec() -> bool {
        false
    }

    open spec fn into_spec(self) -> Sexp {
        vstd::pervasive::arbitrary()
    }
}

impl<'a> Into<Sexp> for (&'a str, Sexp) {
    fn into(self) -> (r: Sexp)
        ensures
            <Sexp as View>::view(&r) == pair(self.0@, self.1@),
    {
        let (name, value) = self;
        let mut v: Vec<Sexp> = Vec::new();
        v.push(Sexp::Symbol(String::from_str(name)));
        v.push(value);
        assert(trees(v@) =~= seq![Tree::Sym(name@), value@]);
        Sexp::List(v)
    }
}

impl<'a> vstd::std_specs::convert::IntoSpecImpl<Sexp> for (&'a str, Sexp) {
    open spec fn obeys_into_spec() -> bool {
        false
    }

    open spec fn into_spec(self) -> Sexp {
        vstd::pervasive::arbitrary()
    }
}

impl<'a, T: Display> Into<Sexp> for (&'a str, &'a T) {
    fn into(self) -> (r: Sexp)
        ensures
            shows_pair(r, self.0@, self.1),
    {
        let (name, value) = self;
        let mut v: Vec<Sexp> = Vec::new();
        v.push(Sexp::Symbol(String::from_str(name)));
        v.push(Sexp::Symbol(value.to_string()));
        Sexp::List(v)
    }
}

impl<'a, T: Display> vstd::std_specs::convert::IntoSpecImpl<Sexp> for (&'a str, &'a T) {
    open spec fn obeys_into_spec() -> bool {
        false
    }

    open spec fn into_spec(self) -> Sexp {
        vstd::pervasive::arbitrary()
    }
}

/// The expression `r` is the pair `(name value)`, where `value` is a
/// `Symbol` whose text is the given value as it is displayed.
pub open spec fn shows_pair<T: Display>(r: Sexp, name: Seq<char>, value: &T) -> bool {
    r matches Sexp::List(v) && v@.len() == 2 && v@[0]@ == Tree::Sym(name) && (
    v@[1] matches Sexp::Symbol(text) && to_string_from_display_ensures::<T>(value, text))
}

impl Sexp {
    /// The list that starts with the `Symbol` `name` and goes on with what
    /// `fill` adds.
    pub fn new_named_list<F>(name: &str, fill: F) -> (r: Sexp) where F: Fn(&mut Vec<Sexp>)
        requires
            forall|v: &mut Vec<Sexp>| call_requires(fill, (v,)),
        ensures
            exists|m: &mut Vec<Sexp>|
                {
                    &&& trees(m@) == seq![Tree::Sym(name@)]
                    &&& #[trigger] call_ensures(fill, (m,), ())
                    &&& r == Sexp::List(*final(m))
                },
    {
        let mut v: Vec<Sexp> = Vec::new();
        v.push(Sexp::Symbol(String::from_str(name)));
        assert(trees(v@) =~= seq![Tree::Sym(name@)]);
        fill(&mut v);
        Sexp::List(v)
    }

    /// The empty expression.
    pub fn new_empty() -> (r: Sexp)
        ensures
            r@ == Tree::Empty,
    {
        Sexp::Empty
    }

    /// The `Symbol` whose text is `s` as it is displayed.
    pub fn new_string<T>(s: T) -> (r: Sexp) where T: Display
        ensures
            r matches Sexp::Symbol(text) && to_string_from_display_ensures::<T>(&s, text),
    {
        Sexp::Symbol(s.to_string())
    }

    /// The list of the given items.
    pub fn new_list(v: Vec<Sexp>) -> (r: Sexp)
        ensures
            r == Sexp::List(v),
    {
        Sexp::List(v)
    }

    /// The list that holds the `Symbol` `name` and nothing else yet.
    pub fn start(name: &str) -> (r: Sexp)
        ensures
            r@ == Tree::List(seq![Tree::Sym(name@)]),
    {
        let mut v: Vec<Sexp> = Vec::new();
        v.push(Sexp::Symbol(String::from_str(name)));
        assert(trees(v@) =~= seq![Tree::Sym(name@)]);
        Sexp::List(v)
    }

    /// Adds an item at the end of this list.
    pub fn push<T: Into<Sexp>>(&mut self, element: T)
        requires
            *old(self) is List,
        ensures
            *final(self) is List,
            final(self)->List_0@.len() == old(self)->List_0@.len() + 1,
            final(self)->List_0@.drop_last() == old(self)->List_0@,
            call_ensures(T::into, (element,), final(self)->List_0@.last()),
            final(self)@->List_0 == old(self)@->List_0.push(final(self)->List_0@.last()@),
    {
        match self {
            Sexp::List(v) => {
                v.push(element.into());
                assert(v@.drop_last() =~= old(self)->List_0@);
                assert(trees(v@) =~= trees(old(self)->List_0@).push(v@.last()@));
            },
            _ => {},
        }
    }

    /// The pair `(name value)`, where `value` is a `Symbol` whose text is
    /// the given value as it is displayed.
    pub fn new_named<T>(name: &str, value: T) -> (r: Sexp) where T: Display
        ensures
            shows_pair(r, name@, &value),
    {
        let mut v: Vec<Sexp> = Vec::new();
        v.push(Sexp::Symbol(String::from_str(name)));
        v.push(Sexp::Symbol(value.to_string()));
        Sexp::List(v)
    }

    /// The pair `(name value)`, where `value` is the expression of the
    /// given value.
    pub fn new_named_sexp<T>(name: &str, value: &T) -> (r: Sexp) where T: IntoSexp
        ensures
            r@ matches Tree::List(l) && l.len() == 2 && l[0] == Tree::Sym(name@) && value.gives(
                l[1],
            ),
    {
        let mut v: Vec<Sexp> = Vec::new();
        v.push(Sexp::Symbol(String::from_str(name)));
        v.push(value.into_sexp());
        assert(trees(v@)[0] == v@[0]@);
        assert(trees(v@)[1] == v@[1]@);
        Sexp::List(v)
    }

    /// The expression of a value.
    pub fn from<T: IntoSexp>(t: &T) -> (r: Sexp)
        ensures
            t.gives(r@),
    {
        t.into_sexp()
    }
}

} // verus!
