//! Taking a list apart item by item.

use crate::access::{
    fails_with, is_i64, is_number_of, not_a_list, not_a_string, text_of, value_named, wrong_head,
};
use crate::error::SexpError;
use crate::sexp::{display, trees, Sexp, Tree};
use crate::text::{integer_value, same_text};
use vstd::prelude::*;

verus! {

/// A type whose values can be made from a symbolic expression.
pub trait FromSexp: Sized {
    /// Whether `r` is what the expression `s` is converted to. Where a
    /// type says nothing of its conversion, any result is.
    open spec fn converts(s: Tree, r: Result<Self, SexpError>) -> bool {
        true
    }

    /// Converts an expression.
    fn from_sexp(s: &Sexp) -> (r: Result<Self, SexpError>)
        ensures
            Self::converts(s@, r),
    ;
}

/// Converts an expression to a value of the type that is asked for.
pub fn from_sexp<T: FromSexp>(s: &Sexp) -> (r: Result<T, SexpError>)
    ensures
        T::converts(s@, r),
{
    T::from_sexp(s)
}

/// The message for a list that has no item left where one is asked for.
pub open spec fn missing_field(field: Seq<char>, list: Seq<char>) -> Seq<char> {
    "missing "@ + field + " field in "@ + list
}

/// The message for a list that has an item left where none should be.
pub open spec fn unexpected_item(item: Tree, list: Seq<char>) -> Seq<char> {
    "Unexpected "@ + display(item) + " in "@ + list
}

/// The message for a list without items where its name is asked for.
pub open spec fn missing_first(name: Seq<char>, list: Tree) -> Seq<char> {
    "missing first element "@ + name + " in list "@ + display(list)
}

/// What converting the value of a pair `(name value)` gives: the
/// conversion of the value, or the error that says why the expression is
/// no such pair.
pub open spec fn converts_named<T: FromSexp>(
    item: Tree,
    name: Seq<char>,
    r: Result<T, SexpError>,
) -> bool {
    match value_named(item, name) {
        Ok(value) => T::converts(value, r),
        Err(m) => fails_with(r, m),
    }
}

/// The text of the value of a pair `(name value)`, or the message that
/// says what is wrong.
pub open spec fn text_named(item: Tree, name: Seq<char>) -> Result<Seq<char>, Seq<char>> {
    match value_named(item, name) {
        Ok(value) => text_of(value),
        Err(m) => Err(m),
    }
}

/// Whether `r` is the text `found`, or the error with the message `found`.
pub open spec fn is_text_of(r: Result<String, SexpError>, found: Result<Seq<char>, Seq<char>>)
    -> bool {
    match found {
        Ok(s) => r matches Ok(text) && text@ == s,
        Err(m) => fails_with(r, m),
    }
}

/// The number that the text `found` stands for, if it is the text of one
/// that fits in an `i64`.
pub open spec fn number_in(found: Result<Seq<char>, Seq<char>>) -> Option<i64> {
    match found {
        Ok(s) => if is_i64(s) {
            Some(integer_value(s)->Some_0 as i64)
        } else {
            None
        },
        Err(_) => None,
    }
}

/// The items of a list that are still to be taken, and the name of the
/// list for messages.
pub struct IterAtom<'a> {
    name: String,
    items: &'a Vec<Sexp>,
    position: usize,
}

impl<'a> IterAtom<'a> {
    #[verifier::type_invariant]
    spec fn within(&self) -> bool {
        self.position <= self.items.len()
    }

    /// The name that messages give to the list.
    pub closed spec fn name(&self) -> Seq<char> {
        self.name@
    }

    /// The items that are still to be taken.
    pub closed spec fn rest(&self) -> Seq<Tree> {
        trees(self.items@).subrange(self.position as int, self.items.len() as int)
    }

    /// Nothing was taken between `self` and `after`.
    pub open spec fn untouched(&self, after: &Self) -> bool {
        after.name() == self.name() && after.rest() == self.rest()
    }

    /// One item was taken between `self` and `after`.
    pub open spec fn taken(&self, after: &Self) -> bool {
        self.rest().len() > 0 && after.name() == self.name() && after.rest()
            == self.rest().drop_first()
    }

    /// What `new` gives for the list `s` and the name `name`.
    pub open spec fn opens(s: Tree, name: Seq<char>, r: Result<IterAtom<'a>, SexpError>) -> bool {
        match s {
            Tree::List(l) => if l.len() == 0 {
                fails_with(r, missing_first(name, s))
            } else {
                match l[0] {
                    Tree::Sym(head) => if head == name {
                        r matches Ok(it) && it.name() == name && it.rest() == l.subrange(
                            1,
                            l.len() as int,
                        )
                    } else {
                        fails_with(r, wrong_head(s, name, head))
                    },
                    _ => fails_with(r, not_a_string(l[0])),
                }
            },
            _ => fails_with(r, not_a_list(s)),
        }
    }

    /// Starts on the items that follow the name `name` at the head of the
    /// list `s`.
    pub fn new(s: &'a Sexp, name: &str) -> (r: Result<IterAtom<'a>, SexpError>)
        ensures
            Self::opens(s@, name@, r),
    {
        let v = match s.list() {
            Ok(v) => v,
            Err(e) => {
                return Err(e);
            },
        };
        assert(trees(v@).len() == v.len());
        if v.len() == 0 {
            let mut m = String::from_str("missing first element ");
            m.append(name);
            m.append(" in list ");
            m.append(s.to_string().as_str());
            return Err(SexpError::Other(m));
        }
        assert(trees(v@)[0] == v@[0]@);
        let st = match v[0].string() {
            Ok(st) => st,
            Err(e) => {
                return Err(e);
            },
        };
        if !same_text(st.as_str(), name) {
            let mut m = String::from_str("list ");
            m.append(s.to_string().as_str());
            m.append(" doesn't start with ");
            m.append(name);
            m.append(", but with ");
            m.append(st.as_str());
            return Err(SexpError::Other(m));
        }
        Ok(IterAtom { name: String::from_str(name), items: v, position: 1 })
    }

    /// Starts on all the items of the list `s`, which messages will call
    /// `name`.
    pub fn new_nameless(s: &'a Sexp, name: &str) -> (r: Result<IterAtom<'a>, SexpError>)
        ensures
            match s@ {
                Tree::List(l) => r matches Ok(it) && it.name() == name@ && it.rest() == l,
                _ => fails_with(r, not_a_list(s@)),
            },
    {
        match s.list() {
            Ok(v) => {
                assert(trees(v@).subrange(0, v.len() as int) =~= trees(v@));
                Ok(IterAtom { name: String::from_str(name), items: v, position: 0 })
            },
            Err(e) => Err(e),
        }
    }

    /// The item that is next, if one is left. It is not taken.
    pub fn peek(&self) -> (r: Option<&'a Sexp>)
        ensures
            self.rest().len() == 0 <==> r is None,
            r matches Some(e) ==> e@ == self.rest()[0],
    {
        proof {
            use_type_invariant(self);
        }
        if self.position < self.items.len() {
            assert(trees(self.items@)[self.position as int]
                == self.items@[self.position as int]@);
            Some(&self.items[self.position])
        } else {
            None
        }
    }

    /// Goes past the item that is next.
    fn advance(&mut self)
        requires
            old(self).rest().len() > 0,
        ensures
            old(self).taken(final(self)),
    {
        proof {
            use_type_invariant(&*self);
        }
        self.position = self.position + 1;
        assert(self.rest() =~= old(self).rest().drop_first());
    }

    /// Takes the item that is next, if one is left.
    pub fn next(&mut self) -> (r: Option<&'a Sexp>)
        ensures
            old(self).rest().len() == 0 ==> r is None && old(self).untouched(final(self)),
            old(self).rest().len() > 0 ==> old(self).taken(final(self)) && (r matches Some(e)
                && e@ == old(self).rest()[0]),
    {
        match self.peek() {
            Some(x) => {
                self.advance();
                Some(x)
            },
            None => None,
        }
    }

    /// Takes the item that is next; `name` is what a message calls it
    /// where none is left.
    fn expect(&mut self, name: &str) -> (r: Result<&'a Sexp, SexpError>)
        ensures
            old(self).rest().len() == 0 ==> fails_with(
                r,
                missing_field(name@, old(self).name()),
            ) && old(self).untouched(final(self)),
            old(self).rest().len() > 0 ==> old(self).taken(final(self)) && (r matches Ok(e) && e@
                == old(self).rest()[0]),
    {
        match self.peek() {
            Some(x) => {
                self.advance();
                Ok(x)
            },
            None => {
                let mut m = String::from_str("missing ");
                m.append(name);
                m.append(" field in ");
                m.append(self.name.as_str());
                Err(SexpError::Other(m))
            },
        }
    }

    /// Takes the next item as a number.
    pub fn i(&mut self, name: &str) -> (r: Result<i64, SexpError>)
        ensures
            old(self).rest().len() == 0 ==> fails_with(
                r,
                missing_field(name@, old(self).name()),
            ) && old(self).untouched(final(self)),
            old(self).rest().len() > 0 ==> old(self).taken(final(self)) && is_number_of(
                r,
                text_of(old(self).rest()[0]),
            ),
    {
        match self.expect(name) {
            Ok(x) => x.i(),
            Err(e) => Err(e),
        }
    }

    /// Takes the next item as the text of a `Symbol`.
    pub fn s(&mut self, name: &str) -> (r: Result<String, SexpError>)
        ensures
            old(self).rest().len() == 0 ==> fails_with(
                r,
                missing_field(name@, old(self).name()),
            ) && old(self).untouched(final(self)),
            old(self).rest().len() > 0 ==> old(self).taken(final(self)) && is_text_of(
                r,
                text_of(old(self).rest()[0]),
            ),
    {
        match self.expect(name) {
            Ok(x) => x.s(),
            Err(e) => Err(e),
        }
    }

    /// Takes the next item as a pair `(name text)` and gives the text.
    pub fn s_in_list(&mut self, name: &str) -> (r: Result<String, SexpError>)
        ensures
            old(self).rest().len() == 0 ==> fails_with(
                r,
                missing_field(name@, old(self).name()),
            ) && old(self).untouched(final(self)),
            old(self).rest().len() > 0 ==> old(self).taken(final(self)) && is_text_of(
                r,
                text_named(old(self).rest()[0], name@),
            ),
    {
        match self.expect(name) {
            Ok(x) => x.named_value_s(name),
            Err(e) => Err(e),
        }
    }

    /// Takes the next item as a pair `(name number)` and gives the number.
    pub fn i_in_list(&mut self, name: &str) -> (r: Result<i64, SexpError>)
        ensures
            old(self).rest().len() == 0 ==> fails_with(
                r,
                missing_field(name@, old(self).name()),
            ) && old(self).untouched(final(self)),
            old(self).rest().len() > 0 ==> old(self).taken(final(self)) && is_number_of(
                r,
                text_named(old(self).rest()[0], name@),
            ),
    {
        match self.expect(name) {
            Ok(x) => x.named_value_i(name),
            Err(e) => Err(e),
        }
    }

    /// Takes the next item and converts it.
    pub fn t<T: FromSexp>(&mut self, name: &str) -> (r: Result<T, SexpError>)
        ensures
            old(self).rest().len() == 0 ==> fails_with(
                r,
                missing_field(name@, old(self).name()),
            ) && old(self).untouched(final(self)),
            old(self).rest().len() > 0 ==> old(self).taken(final(self)) && T::converts(
                old(self).rest()[0],
                r,
            ),
    {
        match self.expect(name) {
            Ok(x) => T::from_sexp(x),
            Err(e) => Err(e),
        }
    }

    /// Takes the next item as a pair `(name value)` and converts the
    /// value.
    pub fn t_in_list<T: FromSexp>(&mut self, name: &str) -> (r: Result<T, SexpError>)
        ensures
            old(self).rest().len() == 0 ==> fails_with(
                r,
                missing_field(name@, old(self).name()),
            ) && old(self).untouched(final(self)),
            old(self).rest().len() > 0 ==> old(self).taken(final(self)) && converts_named(
                old(self).rest()[0],
                name@,
                r,
            ),
    {
        match self.expect(name) {
            Ok(x) => match x.named_value(name) {
                Ok(value) => T::from_sexp(value),
                Err(e) => Err(e),
            },
            Err(e) => Err(e),
        }
    }

    /// Takes all the items that are left and converts each. The first
    /// item that cannot be converted ends it, with the error of that
    /// conversion, and is taken too.
    pub fn vec<T: FromSexp>(&mut self) -> (r: Result<Vec<T>, SexpError>)
        ensures
            final(self).name() == old(self).name(),
            match r {
                Ok(values) => {
                    &&& final(self).rest().len() == 0
                    &&& values.len() == old(self).rest().len()
                    &&& forall|k: int|
                        0 <= k < values.len() ==> T::converts(
                            #[trigger] old(self).rest()[k],
                            Ok(values@[k]),
                        )
                },
                Err(e) => exists|k: int|
                    {
                        &&& 0 <= k < old(self).rest().len()
                        &&& T::converts(#[trigger] old(self).rest()[k], Err(e))
                        &&& final(self).rest() == old(self).rest().subrange(
                            k + 1,
                            old(self).rest().len() as int,
                        )
                    },
            },
    {
        let mut res: Vec<T> = Vec::new();
        let ghost all = self.rest();
        assert(all.subrange(0, all.len() as int) =~= all);
        loop
            invariant
                self.name() == old(self).name(),
                all == old(self).rest(),
                res.len() <= all.len(),
                self.rest() == all.subrange(res.len() as int, all.len() as int),
                forall|k: int| 0 <= k < res.len() ==> T::converts(#[trigger] all[k], Ok(res@[k])),
            ensures
                self.rest().len() == 0,
            decreases all.len() - res.len(),
        {
            match self.peek() {
                None => {
                    break ;
                },
                Some(e) => {
                    self.advance();
                    let ghost k = res.len() as int;
                    assert(self.rest() =~= all.subrange(k + 1, all.len() as int));
                    match from_sexp::<T>(e) {
                        Ok(p) => {
                            res.push(p);
                        },
                        Err(err) => {
                            assert(T::converts(all[k], Err(err)));
                            return Err(err);
                        },
                    }
                },
            }
        }
        Ok(res)
    }

    /// Takes the next item if it can be converted.
    pub fn maybe_t<T: FromSexp>(&mut self) -> (r: Option<T>)
        ensures
            match r {
                Some(value) => old(self).taken(final(self)) && T::converts(
                    old(self).rest()[0],
                    Ok(value),
                ),
                None => old(self).untouched(final(self)) && (old(self).rest().len() > 0
                    ==> exists|e: SexpError| T::converts(old(self).rest()[0], Err(e))),
            },
    {
        match self.peek() {
            None => None,
            Some(x) => match T::from_sexp(x) {
                Ok(t) => {
                    self.advance();
                    Some(t)
                },
                Err(e) => {
                    assert(T::converts(self.rest()[0], Err(e)));
                    None
                },
            },
        }
    }

    /// Takes the next item if it is a `Symbol`, and gives its text.
    pub fn maybe_s(&mut self) -> (r: Option<String>)
        ensures
            match r {
                Some(text) => old(self).taken(final(self)) && old(self).rest()[0] == Tree::Sym(
                    text@,
                ),
                None => old(self).untouched(final(self)) && !(old(self).rest().len() > 0 && old(
                    self,
                ).rest()[0] is Sym),
            },
    {
        match self.peek() {
            None => None,
            Some(x) => match x.s() {
                Ok(t) => {
                    self.advance();
                    Some(t)
                },
                Err(_) => None,
            },
        }
    }

    /// Takes the next item if it is the `Symbol` `l`, and gives its text.
    pub fn maybe_literal_s(&mut self, l: &str) -> (r: Option<String>)
        ensures
            match r {
                Some(text) => old(self).taken(final(self)) && old(self).rest()[0] == Tree::Sym(l@)
                    && text@ == l@,
                None => old(self).untouched(final(self)) && !(old(self).rest().len() > 0 && old(
                    self,
                ).rest()[0] == Tree::Sym(l@)),
            },
    {
        match self.peek() {
            None => None,
            Some(x) => match x.s() {
                Ok(z) => {
                    if same_text(z.as_str(), l) {
                        self.advance();
                        Some(z)
                    } else {
                        None
                    }
                },
                Err(_) => None,
            },
        }
    }

    /// Takes the next item if it is a number.
    pub fn maybe_i(&mut self) -> (r: Option<i64>)
        ensures
            r is Some ==> old(self).taken(final(self)),
            r is None ==> old(self).untouched(final(self)),
            r == if old(self).rest().len() > 0 {
                number_in(text_of(old(self).rest()[0]))
            } else {
                None
            },
    {
        match self.peek() {
            None => None,
            Some(x) => match x.i() {
                Ok(t) => {
                    self.advance();
                    Some(t)
                },
                Err(_) => None,
            },
        }
    }

    /// Takes the next item if it is a pair `(name text)`, and gives the
    /// text.
    pub fn maybe_s_in_list(&mut self, name: &str) -> (r: Option<String>)
        ensures
            match r {
                Some(text) => old(self).taken(final(self)) && text_named(
                    old(self).rest()[0],
                    name@,
                ) == Ok::<Seq<char>, Seq<char>>(text@),
                None => old(self).untouched(final(self)) && !(old(self).rest().len() > 0
                    && text_named(old(self).rest()[0], name@) is Ok),
            },
    {
        match self.peek() {
            None => None,
            Some(x) => match x.named_value_s(name) {
                Ok(t) => {
                    self.advance();
                    Some(t)
                },
                Err(_) => None,
            },
        }
    }

    /// Takes the next item if it is a pair `(name number)`, and gives the
    /// number.
    pub fn maybe_i_in_list(&mut self, name: &str) -> (r: Option<i64>)
        ensures
            r is Some ==> old(self).taken(final(self)),
            r is None ==> old(self).untouched(final(self)),
            r == if old(self).rest().len() > 0 {
                number_in(text_named(old(self).rest()[0], name@))
            } else {
                None
            },
    {
        match self.peek() {
            None => None,
            Some(x) => match x.named_value_i(name) {
                Ok(t) => {
                    self.advance();
                    Some(t)
                },
                Err(_) => None,
            },
        }
    }

    /// Ends the list: gives `x` back where no item is left, and else takes
    /// the next item and fails with a message that shows it.
    pub fn close<T>(&mut self, x: T) -> (r: Result<T, SexpError>)
        ensures
            old(self).rest().len() == 0 ==> r == Ok::<T, SexpError>(x) && old(self).untouched(
                final(self),
            ),
            old(self).rest().len() > 0 ==> old(self).taken(final(self)) && fails_with(
                r,
                unexpected_item(old(self).rest()[0], old(self).name()),
            ),
    {
        match self.peek() {
            Some(e) => {
                self.advance();
                let mut m = String::from_str("Unexpected ");
                m.append(e.to_string().as_str());
                m.append(" in ");
                m.append(self.name.as_str());
                Err(SexpError::Other(m))
            },
            None => Ok(x),
        }
    }
}

} // verus!
