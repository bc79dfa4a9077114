//! The tree of a symbolic expression, and what can be asked of it.

use crate::text::{push_char, quoted};
use vstd::prelude::*;

verus! {

/// The mathematical value of a symbolic expression.
pub ghost enum Tree {
    /// A token that is always written between quotes.
    Str(Seq<char>),
    /// A token that is written bare where it can be.
    Sym(Seq<char>),
    /// A list of expressions. An empty list is not `Empty`.
    List(Seq<Tree>),
    /// Nothing: what an empty text holds.
    Empty,
}

/// A symbolic expression: a token, a list of expressions, or nothing.
#[derive(Debug, PartialEq)]
pub enum Sexp {
    /// A token that is always written between quotes: `"hello"`.
    String(String),
    /// A token that is written bare where it can be: `hello`.
    Symbol(String),
    /// A list: `(...)`.
    List(Vec<Sexp>),
    /// The empty expression.
    Empty,
}

/// The values of a sequence of expressions, one by one.
pub open spec fn trees(s: Seq<Sexp>) -> Seq<Tree>
    decreases s,
{
    Seq::new(
        s.len(),
        |i: int|
            if 0 <= i < s.len() {
                s[i]@
            } else {
                Tree::Empty
            },
    )
}

impl View for Sexp {
    type V = Tree;

    open spec fn view(&self) -> Tree
        decreases self,
    {
        match self {
            Sexp::String(s) => Tree::Str(s@),
            Sexp::Symbol(s) => Tree::Sym(s@),
            Sexp::List(v) => Tree::List(trees(v@)),
            Sexp::Empty => Tree::Empty,
        }
    }
}

/// Each item of a list is smaller than the list: recursion over the items
/// ends.
pub proof fn lemma_item_smaller(e: &Sexp, i: int)
    requires
        e is List,
        0 <= i < e->List_0.len(),
    ensures
        decreases_to!(*e => e->List_0[i]),
{
}

/// An expression as it is shown in messages: a `String` between quotes, a
/// `Symbol` as it is, a list between parentheses with one space between
/// its items, and nothing for `Empty`.
pub open spec fn display(t: Tree) -> Seq<char>
    decreases t,
{
    match t {
        Tree::Str(s) => quoted(s),
        Tree::Sym(s) => s,
        Tree::List(l) => seq!['('] + display_items(l, l.len()) + seq![')'],
        Tree::Empty => Seq::empty(),
    }
}

/// The first `n` items of `l` as they are shown, with one space between
/// two of them.
pub open spec fn display_items(l: Seq<Tree>, n: nat) -> Seq<char>
    decreases l, n,
{
    if n == 0 || n > l.len() {
        Seq::empty()
    } else if n == 1 {
        display(l[0])
    } else {
        display_items(l, (n - 1) as nat) + seq![' '] + display(l[n - 1])
    }
}

impl Clone for Sexp {
    fn clone(&self) -> (res: Self)
        ensures
            res@ == self@,
        decreases self,
    {
        match self {
            Sexp::String(s) => Sexp::String(s.clone()),
            Sexp::Symbol(s) => Sexp::Symbol(s.clone()),
            Sexp::List(v) => {
                let mut out: Vec<Sexp> = Vec::new();
                let mut i: usize = 0;
                while i < v.len()
                    invariant
                        i <= v.len(),
                        out.len() == i,
                        *self == Sexp::List(*v),
                        forall|j: int| 0 <= j < i ==> out@[j]@ == v@[j]@,
                    decreases v.len() - i,
                {
                    proof {
                        lemma_item_smaller(self, i as int);
                    }
                    out.push(v[i].clone());
                    i = i + 1;
                }
                assert(trees(out@) =~= trees(v@));
                Sexp::List(out)
            },
            Sexp::Empty => Sexp::Empty,
        }
    }
}

impl Default for Sexp {
    fn default() -> (res: Self)
        ensures
            res@ == Tree::Empty,
    {
        Sexp::Empty
    }
}

impl Sexp {
    /// The expression as it is shown in messages.
    pub fn to_string(&self) -> (s: String)
        ensures
            s@ == display(self@),
        decreases self,
    {
        match self {
            Sexp::String(t) => {
                let mut s = String::new();
                push_char(&mut s, '"');
                s.append(t.as_str());
                push_char(&mut s, '"');
                assert(s@ =~= quoted(t@));
                s
            },
            Sexp::Symbol(t) => t.clone(),
            Sexp::List(v) => {
                let mut s = String::new();
                push_char(&mut s, '(');
                let mut i: usize = 0;
                while i < v.len()
                    invariant
                        i <= v.len(),
                        *self == Sexp::List(*v),
                        s@ == seq!['('] + display_items(trees(v@), i as nat),
                    decreases v.len() - i,
                {
                    proof {
                        lemma_item_smaller(self, i as int);
                    }
                    if i > 0 {
                        push_char(&mut s, ' ');
                    }
                    let item = v[i].to_string();
                    s.append(item.as_str());
                    assert(s@ =~= seq!['('] + display_items(trees(v@), (i + 1) as nat));
                    i = i + 1;
                }
                push_char(&mut s, ')');
                s
            },
            Sexp::Empty => String::new(),
        }
    }
}

} // verus!
