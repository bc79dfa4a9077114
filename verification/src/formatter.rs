//! How a list is laid out when it is written: what stands where it opens,
//! between its items, and where it closes.

use crate::error::SexpError;
use crate::sexp::{Sexp, Tree};
use crate::text::push_char;
use vstd::hash_map::StringHashMap;
use vstd::prelude::*;

verus! {

/// The value of an expression, if there is one.
pub open spec fn tree_of(value: Option<&Sexp>) -> Option<Tree> {
    match value {
        Some(e) => Some(e@),
        None => None,
    }
}

/// A layout for lists. The three methods write what the three spec
/// functions say, and leave the layout as it was.
pub trait Formatter: Sized {
    /// What is written where a list opens; `head` is its first item.
    spec fn open_text(&self, head: Option<Tree>) -> Seq<char>;

    /// What is written before `value`, an item of a list that is not its
    /// first.
    spec fn element_text(&self, value: Tree) -> Seq<char>;

    /// What is written where a list closes.
    spec fn close_text(&self) -> Seq<char>;

    /// Called where a list opens, with its first item.
    fn open(&mut self, writer: &mut String, value: Option<&Sexp>) -> (r: Result<(), SexpError>)
        ensures
            r is Ok,
            *final(self) == *old(self),
            final(writer)@ == old(writer)@ + old(self).open_text(tree_of(value)),
    ;

    /// Called before each item of a list but the first.
    fn element(&mut self, writer: &mut String, value: &Sexp) -> (r: Result<(), SexpError>)
        ensures
            r is Ok,
            *final(self) == *old(self),
            final(writer)@ == old(writer)@ + old(self).element_text(value@),
    ;

    /// Called where a list closes.
    fn close(&mut self, writer: &mut String) -> (r: Result<(), SexpError>)
        ensures
            r is Ok,
            *final(self) == *old(self),
            final(writer)@ == old(writer)@ + old(self).close_text(),
    ;
}

/// The layout on one line: `(`, one space between two items, `)`.
pub struct CompactFormatter;

impl Formatter for CompactFormatter {
    open spec fn open_text(&self, head: Option<Tree>) -> Seq<char> {
        seq!['(']
    }

    open spec fn element_text(&self, value: Tree) -> Seq<char> {
        seq![' ']
    }

    open spec fn close_text(&self) -> Seq<char> {
        seq![')']
    }

    fn open(&mut self, writer: &mut String, _value: Option<&Sexp>) -> (r: Result<(), SexpError>) {
        push_char(writer, '(');
        assert(writer@ =~= old(writer)@ + seq!['(']);
        Ok(())
    }

    fn element(&mut self, writer: &mut String, _value: &Sexp) -> (r: Result<(), SexpError>) {
        push_char(writer, ' ');
        assert(writer@ =~= old(writer)@ + seq![' ']);
        Ok(())
    }

    fn close(&mut self, writer: &mut String) -> (r: Result<(), SexpError>) {
        push_char(writer, ')');
        assert(writer@ =~= old(writer)@ + seq![')']);
        Ok(())
    }
}

/// A table from the name at the head of a list to the depth at which such
/// a list is indented.
pub struct Rules {
    map: StringHashMap<i64>,
}

impl View for Rules {
    type V = Map<Seq<char>, i64>;

    closed spec fn view(&self) -> Map<Seq<char>, i64> {
        self.map@
    }
}

impl Rules {
    /// The empty table.
    pub fn new() -> (r: Rules)
        ensures
            r@ == Map::<Seq<char>, i64>::empty(),
    {
        Rules { map: StringHashMap::new() }
    }

    /// Sets the depth for lists that start with `name`, and gives back the
    /// depth that was set before.
    pub fn insert(&mut self, name: &str, depth: i64) -> (before: Option<i64>)
        ensures
            final(self)@ == old(self)@.insert(name@, depth),
            before == old(self).depth_of(name@),
    {
        let before = self.get(name);
        self.map.insert(String::from_str(name), depth);
        before
    }

    /// The depth that the table holds for `name`.
    pub open spec fn depth_of(&self, name: Seq<char>) -> Option<i64> {
        if self@.contains_key(name) {
            Some(self@[name])
        } else {
            None
        }
    }

    /// The depth for lists that start with `name`, if one is set.
    pub fn get(&self, name: &str) -> (depth: Option<i64>)
        ensures
            depth == self.depth_of(name@),
    {
        match self.map.get(name) {
            Some(d) => Some(*d),
            None => None,
        }
    }

    /// Whether a depth is set for lists that start with `name`.
    pub fn contains_key(&self, name: &str) -> (b: bool)
        ensures
            b == self@.contains_key(name@),
    {
        self.map.contains_key(name)
    }
}

/// `unit` written `n` times; nothing where `n` is not positive.
pub open spec fn indentation(unit: Seq<char>, n: int) -> Seq<char>
    decreases n,
{
    if n <= 0 {
        Seq::empty()
    } else {
        indentation(unit, n - 1) + unit
    }
}

/// The depth at which a list with this first item starts a line of its
/// own: the table's entry for the item, if the item is a `Symbol` and has
/// one.
pub open spec fn break_depth(table: Map<Seq<char>, i64>, head: Option<Tree>) -> Option<i64> {
    match head {
        Some(Tree::Sym(name)) => if table.contains_key(name) {
            Some(table[name])
        } else {
            None
        },
        _ => None,
    }
}

/// The first item of a list, if the value is a list that has one.
pub open spec fn head_of(value: Tree) -> Option<Tree> {
    match value {
        Tree::List(l) => if l.len() > 0 {
            Some(l[0])
        } else {
            None
        },
        _ => None,
    }
}

/// The layout by rules: a list whose first item is a `Symbol` of the table
/// starts on a new line, indented by the table's depth; every other list
/// is laid out as the compact layout does.
pub struct RulesFormatter {
    indent: String,
    indent_before: Rules,
}

impl RulesFormatter {
    /// What one step of indentation is made of.
    pub closed spec fn indent(&self) -> Seq<char> {
        self.indent@
    }

    /// The table of this layout.
    pub closed spec fn table(&self) -> Map<Seq<char>, i64> {
        self.indent_before@
    }

    /// The layout for the given table, with two spaces for each step of
    /// indentation.
    pub fn new(indent_before: Rules) -> (r: RulesFormatter)
        ensures
            r.indent() == seq![' ', ' '],
            r.table() == indent_before@,
    {
        let mut indent = String::new();
        push_char(&mut indent, ' ');
        push_char(&mut indent, ' ');
        assert(indent@ =~= seq![' ', ' ']);
        RulesFormatter { indent: indent, indent_before: indent_before }
    }
}

impl Default for RulesFormatter {
    fn default() -> (r: Self)
        ensures
            r.indent() == seq![' ', ' '],
            r.table() == Map::<Seq<char>, i64>::empty(),
    {
        RulesFormatter::new(Rules::new())
    }
}

impl Formatter for RulesFormatter {
    open spec fn open_text(&self, head: Option<Tree>) -> Seq<char> {
        match break_depth(self.table(), head) {
            Some(depth) => seq!['\n'] + indentation(self.indent(), depth as int) + seq!['('],
            None => seq!['('],
        }
    }

    open spec fn element_text(&self, value: Tree) -> Seq<char> {
        if break_depth(self.table(), head_of(value)) is Some {
            Seq::empty()
        } else {
            seq![' ']
        }
    }

    open spec fn close_text(&self) -> Seq<char> {
        seq![')']
    }

    fn open(&mut self, writer: &mut String, value: Option<&Sexp>) -> (r: Result<(), SexpError>) {
        if let Some(sexp) = value {
            if let Sexp::Symbol(s) = sexp {
                if let Some(depth) = self.indent_before.get(s.as_str()) {
                    push_char(writer, '\n');
                    let mut k: i64 = 0;
                    while k < depth
                        invariant
                            0 <= k,
                            k <= depth || k == 0,
                            writer@ == old(writer)@ + seq!['\n'] + indentation(
                                self.indent(),
                                k as int,
                            ),
                        decreases depth - k,
                    {
                        writer.append(self.indent.as_str());
                        k = k + 1;
                    }
                }
            }
        }
        push_char(writer, '(');
        assert(writer@ =~= old(writer)@ + self.open_text(tree_of(value)));
        Ok(())
    }

    fn element(&mut self, writer: &mut String, value: &Sexp) -> (r: Result<(), SexpError>) {
        if let Sexp::List(l) = value {
            if l.len() > 0 {
                assert(head_of(value@) == Some(l@[0]@));
                if let Sexp::Symbol(s) = &l[0] {
                    if self.indent_before.contains_key(s.as_str()) {
                        assert(writer@ =~= old(writer)@ + Seq::<char>::empty());
                        return Ok(());
                    }
                }
            }
        }
        push_char(writer, ' ');
        assert(writer@ =~= old(writer)@ + seq![' ']);
        Ok(())
    }

    fn close(&mut self, writer: &mut String) -> (r: Result<(), SexpError>) {
        push_char(writer, ')');
        assert(writer@ =~= old(writer)@ + seq![')']);
        Ok(())
    }
}

} // verus!
