//! What can be asked of an expression: whether it is a token or a list,
//! its text, its number, its items, and the value that a name stands
//! before.

use crate::error::SexpError;
use crate::sexp::{display, trees, Sexp, Tree};
use crate::text::{decimal, integer_value, parse_i64, push_decimal, same_text};
use vstd::prelude::*;
use vstd::slice::slice_subrange;

verus! {

/// The result is the error `Other` with this message.
pub open spec fn fails_with<T>(r: Result<T, SexpError>, message: Seq<char>) -> bool {
    r matches Err(SexpError::Other(m)) && m@ == message
}

/// The message for an expression that is no list.
pub open spec fn not_a_list(t: Tree) -> Seq<char> {
    "not a list: "@ + display(t)
}

/// The message for an expression that is no `Symbol`.
pub open spec fn not_a_string(t: Tree) -> Seq<char> {
    "not a string: "@ + display(t)
}

/// The message for a list that starts with another name than the one asked
/// for.
pub open spec fn wrong_head(t: Tree, want: Seq<char>, found: Seq<char>) -> Seq<char> {
    "list "@ + display(t) + " doesn't start with "@ + want + ", but with "@ + found
}

/// The message for a list that is no pair of a name and a value.
pub open spec fn not_a_named_value(name: Seq<char>) -> Seq<char> {
    "list "@ + name + " is not a named_value"@
}

/// What follows the name at the head of a list: the items after the first
/// where the list starts with the `Symbol` `name`, and else the message
/// that says what is wrong. The list is not empty.
pub open spec fn items_after(t: Tree, name: Seq<char>) -> Result<Seq<Tree>, Seq<char>> {
    match t {
        Tree::List(l) => match l[0] {
            Tree::Sym(head) => if head == name {
                Ok(l.subrange(1, l.len() as int))
            } else {
                Err(wrong_head(t, name, head))
            },
            _ => Err(not_a_string(l[0])),
        },
        _ => Err(not_a_list(t)),
    }
}

/// The message for a list that starts with another name than the one asked
/// for, where the list itself is not shown.
pub open spec fn wrong_head_short(want: Seq<char>, found: Seq<char>) -> Seq<char> {
    "list doesn't start with "@ + want + ", but with "@ + found
}

/// The message for a list that has `found` items after its name where
/// `want` were asked for.
pub open spec fn wrong_count(name: Seq<char>, want: nat, found: nat) -> Seq<char> {
    "list ("@ + name + ") doesn't have "@ + decimal(want) + " elements but "@ + decimal(found)
}

/// The `num` items that follow the name at the head of a list: the items
/// after the first where the list starts with the `Symbol` `name` and has
/// `num` items more, and else the message that says what is wrong. The
/// list is not empty.
pub open spec fn counted_items_after(t: Tree, name: Seq<char>, num: nat) -> Result<
    Seq<Tree>,
    Seq<char>,
> {
    match t {
        Tree::List(l) => match l[0] {
            Tree::Sym(head) => if head != name {
                Err(wrong_head_short(name, head))
            } else if l.len() != num + 1 {
                Err(wrong_count(name, num, (l.len() - 1) as nat))
            } else {
                Ok(l.subrange(1, l.len() as int))
            },
            _ => Err(not_a_string(l[0])),
        },
        _ => Err(not_a_list(t)),
    }
}

/// The value of a pair `(name value)`: the second item where the
/// expression is a list of two items that starts with the `Symbol` `name`,
/// and else the message that says what is wrong.
pub open spec fn value_named(t: Tree, name: Seq<char>) -> Result<Tree, Seq<char>> {
    match t {
        Tree::List(l) => if l.len() != 2 {
            Err(not_a_named_value(name))
        } else {
            match items_after(t, name) {
                Ok(items) => Ok(items[0]),
                Err(m) => Err(m),
            }
        },
        _ => Err(not_a_list(t)),
    }
}

/// The text of a `Symbol`, and the message for anything else.
pub open spec fn text_of(t: Tree) -> Result<Seq<char>, Seq<char>> {
    match t {
        Tree::Sym(s) => Ok(s),
        _ => Err(not_a_string(t)),
    }
}

/// Whether the text stands for an integer that fits in an `i64`.
pub open spec fn is_i64(s: Seq<char>) -> bool {
    integer_value(s) matches Some(v) && i64::MIN <= v <= i64::MAX
}

/// Whether `r` is what reading `found` as an `i64` gives: the number where
/// `found` is the text of one, the error `Int` where it is another text,
/// and the error `Other` with the message where `found` is a message.
pub open spec fn is_number_of(r: Result<i64, SexpError>, found: Result<Seq<char>, Seq<char>>)
    -> bool {
    match found {
        Ok(s) => if is_i64(s) {
            r == Ok::<i64, SexpError>(integer_value(s)->Some_0 as i64)
        } else {
            r matches Err(SexpError::Int(_))
        },
        Err(m) => fails_with(r, m),
    }
}

fn message(prefix: &str, subject: &Sexp) -> (m: String)
    ensures
        m@ == prefix@ + display(subject@),
{
    let mut m = String::from_str(prefix);
    m.append(subject.to_string().as_str());
    m
}

fn wrong_head_message(list: &Sexp, want: &str, found: &str) -> (m: String)
    ensures
        m@ == wrong_head(list@, want@, found@),
{
    let mut m = message("list ", list);
    m.append(" doesn't start with ");
    m.append(want);
    m.append(", but with ");
    m.append(found);
    m
}

impl Sexp {
    /// Takes the items out of a list and leaves `Empty` in its place.
    /// Anything but a list is an error, and `Empty` is left all the same.
    pub fn take_list(&mut self) -> (r: Result<Vec<Sexp>, SexpError>)
        ensures
            *final(self) == Sexp::Empty,
            match *old(self) {
                Sexp::List(v) => r == Ok::<Vec<Sexp>, SexpError>(v),
                _ => fails_with(r, "Not a list: "@ + display(old(self)@)),
            },
    {
        let mut e = Sexp::Empty;
        std::mem::swap(&mut e, self);
        match e {
            Sexp::List(v) => Ok(v),
            _ => Err(SexpError::Other(message("Not a list: ", &e))),
        }
    }

    /// Takes the text out of a `Symbol` and leaves `Empty` in its place.
    /// Anything but a `Symbol` is an error, and `Empty` is left all the
    /// same.
    pub fn take_string(&mut self) -> (r: Result<String, SexpError>)
        ensures
            *final(self) == Sexp::Empty,
            match *old(self) {
                Sexp::Symbol(s) => r == Ok::<String, SexpError>(s),
                _ => fails_with(r, "Not a string: "@ + display(old(self)@)),
            },
    {
        let mut e = Sexp::Empty;
        std::mem::swap(&mut e, self);
        match e {
            Sexp::Symbol(s) => Ok(s),
            _ => Err(SexpError::Other(message("Not a string: ", &e))),
        }
    }

    /// The items of a list.
    pub fn list(&self) -> (r: Result<&Vec<Sexp>, SexpError>)
        ensures
            match *self {
                Sexp::List(v) => r matches Ok(items) && *items == v,
                _ => fails_with(r, not_a_list(self@)),
            },
    {
        match self {
            Sexp::List(v) => Ok(v),
            _ => Err(SexpError::Other(message("not a list: ", self))),
        }
    }

    /// The text of a `Symbol`.
    pub fn string(&self) -> (r: Result<&String, SexpError>)
        ensures
            match *self {
                Sexp::Symbol(s) => r matches Ok(text) && *text == s,
                _ => fails_with(r, not_a_string(self@)),
            },
    {
        match self {
            Sexp::Symbol(s) => Ok(s),
            _ => Err(SexpError::Other(message("not a string: ", self))),
        }
    }

    /// A copy of the text of a `Symbol`.
    pub fn s(&self) -> (r: Result<String, SexpError>)
        ensures
            match text_of(self@) {
                Ok(s) => r matches Ok(text) && text@ == s,
                Err(m) => fails_with(r, m),
            },
    {
        match self {
            Sexp::Symbol(s) => Ok(s.clone()),
            _ => Err(SexpError::Other(message("not a string: ", self))),
        }
    }

    /// Whether this is a `Symbol`.
    pub fn is_string(&self) -> (b: bool)
        ensures
            b == (self@ is Sym),
    {
        match self {
            Sexp::Symbol(_) => true,
            _ => false,
        }
    }

    /// Whether this is a list.
    pub fn is_list(&self) -> (b: bool)
        ensures
            b == (self@ is List),
    {
        match self {
            Sexp::List(_) => true,
            _ => false,
        }
    }

    /// The number that a `Symbol` stands for: its text read as decimal
    /// digits with at most one sign before them.
    pub fn i(&self) -> (r: Result<i64, SexpError>)
        ensures
            is_number_of(r, text_of(self@)),
    {
        match self.string() {
            Ok(s) => match parse_i64(s.as_str()) {
                Ok(i) => Ok(i),
                Err(e) => Err(SexpError::Int(e)),
            },
            Err(e) => Err(e),
        }
    }

    /// The name at the head of a list: the text of its first item.
    pub fn list_name(&self) -> (r: Result<&String, SexpError>)
        requires
            self@ matches Tree::List(l) ==> l.len() > 0,
        ensures
            match *self {
                Sexp::List(v) => match v@[0] {
                    Sexp::Symbol(s) => r matches Ok(name) && *name == s,
                    _ => fails_with(r, not_a_string(v@[0]@)),
                },
                _ => fails_with(r, not_a_list(self@)),
            },
    {
        match self.list() {
            Ok(l) => {
                assert(trees(l@).len() == l.len());
                l[0].string()
            },
            Err(e) => Err(e),
        }
    }

    /// The items that follow the name `s` at the head of this list.
    pub fn slice_atom(&self, s: &str) -> (r: Result<&[Sexp], SexpError>)
        requires
            self@ matches Tree::List(l) ==> l.len() > 0,
        ensures
            match items_after(self@, s@) {
                Ok(items) => r matches Ok(rest) && trees(rest@) == items && rest@
                    == self->List_0@.subrange(1, self->List_0.len() as int),
                Err(m) => fails_with(r, m),
            },
    {
        self.slice_atom_int(s)
    }

    fn slice_atom_int(&self, s: &str) -> (r: Result<&[Sexp], SexpError>)
        requires
            self@ matches Tree::List(l) ==> l.len() > 0,
        ensures
            match items_after(self@, s@) {
                Ok(items) => r matches Ok(rest) && trees(rest@) == items && rest@
                    == self->List_0@.subrange(1, self->List_0.len() as int),
                Err(m) => fails_with(r, m),
            },
    {
        let v = match self.list() {
            Ok(v) => v,
            Err(e) => {
                return Err(e);
            },
        };
        assert(trees(v@).len() == v.len());
        assert(trees(v@)[0] == v@[0]@);
        let st = match v[0].string() {
            Ok(st) => st,
            Err(e) => {
                return Err(e);
            },
        };
        if !same_text(st.as_str(), s) {
            return Err(SexpError::Other(wrong_head_message(self, s, st.as_str())));
        }
        let rest = slice_subrange(v.as_slice(), 1, v.len());
        assert(trees(rest@) =~= trees(v@).subrange(1, v.len() as int));
        Ok(rest)
    }

    /// The `num` items that follow the name `s` at the head of this list.
    pub fn slice_atom_num(&self, s: &str, num: usize) -> (r: Result<&[Sexp], SexpError>)
        requires
            self@ matches Tree::List(l) ==> l.len() > 0,
        ensures
            match counted_items_after(self@, s@, num as nat) {
                Ok(items) => r matches Ok(rest) && trees(rest@) == items && rest@
                    == self->List_0@.subrange(1, self->List_0.len() as int),
                Err(m) => fails_with(r, m),
            },
    {
        let v = match self.list() {
            Ok(v) => v,
            Err(e) => {
                return Err(e);
            },
        };
        assert(trees(v@).len() == v.len());
        assert(trees(v@)[0] == v@[0]@);
        let st = match v[0].string() {
            Ok(st) => st,
            Err(e) => {
                return Err(e);
            },
        };
        if !same_text(st.as_str(), s) {
            let mut m = String::from_str("list doesn't start with ");
            m.append(s);
            m.append(", but with ");
            m.append(st.as_str());
            return Err(SexpError::Other(m));
        }
        if num == usize::MAX || v.len() != num + 1 {
            let mut m = String::from_str("list (");
            m.append(s);
            m.append(") doesn't have ");
            push_decimal(&mut m, num as u64);
            m.append(" elements but ");
            push_decimal(&mut m, (v.len() - 1) as u64);
            return Err(SexpError::Other(m));
        }
        let rest = slice_subrange(v.as_slice(), 1, v.len());
        assert(trees(rest@) =~= trees(v@).subrange(1, v.len() as int));
        Ok(rest)
    }

    /// The value of the pair `(s value)` that this expression is.
    pub fn named_value(&self, s: &str) -> (r: Result<&Sexp, SexpError>)
        ensures
            match value_named(self@, s@) {
                Ok(value) => r matches Ok(e) && e@ == value && *e == self->List_0@[1],
                Err(m) => fails_with(r, m),
            },
    {
        let v = match self.list() {
            Ok(v) => v,
            Err(e) => {
                return Err(e);
            },
        };
        assert(trees(v@).len() == v.len());
        if v.len() != 2 {
            let mut m = String::from_str("list ");
            m.append(s);
            m.append(" is not a named_value");
            return Err(SexpError::Other(m));
        }
        match self.slice_atom_int(s) {
            Ok(l) => {
                assert(trees(l@)[0] == l@[0]@);
                Ok(&l[0])
            },
            Err(e) => Err(e),
        }
    }

    /// The value of the pair `(s value)`, read as a number.
    pub fn named_value_i(&self, s: &str) -> (r: Result<i64, SexpError>)
        ensures
            is_number_of(
                r,
                match value_named(self@, s@) {
                    Ok(value) => text_of(value),
                    Err(m) => Err(m),
                },
            ),
    {
        match self.named_value(s) {
            Ok(e) => e.i(),
            Err(e) => Err(e),
        }
    }

    /// The value of the pair `(s value)`, as the text of a `Symbol`.
    pub fn named_value_string(&self, s: &str) -> (r: Result<&String, SexpError>)
        ensures
            match value_named(self@, s@) {
                Ok(value) => match text_of(value) {
                    Ok(t) => r matches Ok(text) && text@ == t && self->List_0@[1] == Sexp::Symbol(
                        *text,
                    ),
                    Err(m) => fails_with(r, m),
                },
                Err(m) => fails_with(r, m),
            },
    {
        match self.named_value(s) {
            Ok(e) => e.string(),
            Err(e) => Err(e),
        }
    }

    /// The value of the pair `(s value)`, as a copy of the text of a
    /// `Symbol`.
    pub fn named_value_s(&self, s: &str) -> (r: Result<String, SexpError>)
        ensures
            match value_named(self@, s@) {
                Ok(value) => match text_of(value) {
                    Ok(t) => r matches Ok(text) && text@ == t,
                    Err(m) => fails_with(r, m),
                },
                Err(m) => fails_with(r, m),
            },
    {
        match self.named_value_string(s) {
            Ok(text) => Ok(text.clone()),
            Err(e) => Err(e),
        }
    }
}

} // verus!
